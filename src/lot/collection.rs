//! The collector: routes change notifications into a change-set and hands
//! out a consolidated, scoped snapshot of it on demand.
use vstd::prelude::*;

use crate::lot::data::{
    except_mode, file_passes, has_upload, lemma_filter_keeps, passes, path_passes, reconciled,
    rename_passes, views, Data, File,
};
use crate::text::{is_file_path, slashed};

verus! {

/// A change reported for a path below the watched root.
pub enum RawEvent {
    Create(String),
    Write(String),
    Remove(String),
    Rename(String, String),
    /// Any other notification (a permission change, a rescan): ignored.
    Other,
}

/// What one receive from the watcher's queue gave.
pub enum Received {
    /// A notification.
    Event(RawEvent),
    /// Nothing pending: the burst is over.
    Idle,
    /// The queue is closed for good.
    Closed,
}

/// How to wait for the next notification.
#[derive(PartialEq, Eq, Structural)]
pub enum Wait {
    /// Block until a notification arrives: no burst is under way.
    Block,
    /// Poll without blocking: a burst is under way.
    Poll,
    /// Stop: the watcher is gone.
    Stop,
}

/// Collects the changes below one watched root.
pub struct Collection {
    /// The live change-set.
    pub data: Data,
    /// Tokens a path must hold one of to be handed out (none: no limit).
    pub cartridges: Vec<String>,
    /// Tokens a path must hold none of to be handed out.
    pub ignore_list: Vec<String>,
}

/// Filtering uploads keeps relative paths unique, and keeps an entry with
/// relative path `rel` when such an entry passes.
proof fn lemma_filter_uploads(s: Seq<File>, f: spec_fn(File) -> bool, rel: Seq<char>)
    requires
        forall|i: int, j: int| 0 <= i < j < s.len() ==> s[i].rel_path@ != s[j].rel_path@,
    ensures
        forall|i: int, j: int|
            0 <= i < j < s.filter(f).len() ==> s.filter(f)[i].rel_path@ != s.filter(f)[j].rel_path@,
        (exists|i: int| 0 <= i < s.len() && s[i].rel_path@ == rel && f(s[i])) ==> has_upload(
            s.filter(f),
            rel,
        ),
        forall|i: int| 0 <= i < s.filter(f).len() ==> s.contains(#[trigger] s.filter(f)[i]),
    decreases s.len(),
{
    reveal(Seq::filter);
    if s.len() > 0 {
        let t = s.drop_last();
        assert forall|i: int, j: int| 0 <= i < j < t.len() implies t[i].rel_path@ != t[j].rel_path@ by {
            assert(t[i] == s[i] && t[j] == s[j]);
        }
        lemma_filter_uploads(t, f, rel);
        let ft = t.filter(f);
        assert forall|i: int| 0 <= i < ft.len() implies s.contains(#[trigger] ft[i]) by {
            assert(t.contains(ft[i]));
            let k = choose|k: int| 0 <= k < t.len() && t[k] == ft[i];
            assert(s[k] == ft[i]);
        }
        if f(s.last()) {
            let fs = ft.push(s.last());
            assert(s.filter(f) == fs);
            assert forall|i: int| 0 <= i < fs.len() implies s.contains(#[trigger] fs[i]) by {
                if i < ft.len() {
                    assert(fs[i] == ft[i]);
                } else {
                    assert(fs[i] == s[s.len() - 1]);
                }
            }
            assert forall|i: int, j: int| 0 <= i < j < fs.len() implies fs[i].rel_path@
                != fs[j].rel_path@ by {
                if j == fs.len() - 1 {
                    assert(fs[i] == ft[i]);
                    assert(t.contains(ft[i]));
                    let k = choose|k: int| 0 <= k < t.len() && t[k] == ft[i];
                    assert(s[k] == t[k]);
                } else {
                    assert(fs[i] == ft[i] && fs[j] == ft[j]);
                }
            }
            if exists|i: int| 0 <= i < s.len() && s[i].rel_path@ == rel && f(s[i]) {
                let i = choose|i: int| 0 <= i < s.len() && s[i].rel_path@ == rel && f(s[i]);
                if i < s.len() - 1 {
                    assert(t[i] == s[i]);
                    let k = choose|k: int| 0 <= k < ft.len() && ft[k].rel_path@ == rel;
                    assert(fs[k] == ft[k]);
                } else {
                    assert(fs[fs.len() - 1] == s[i]);
                }
            }
        } else {
            if exists|i: int| 0 <= i < s.len() && s[i].rel_path@ == rel && f(s[i]) {
                let i = choose|i: int| 0 <= i < s.len() && s[i].rel_path@ == rel && f(s[i]);
                assert(i < s.len() - 1);
                assert(t[i] == s[i]);
            }
        }
    }
}

impl Collection {
    /// The tokens a path must hold one of to be handed out (none: no limit).
    pub open spec fn scope(&self) -> Seq<Seq<char>> {
        views(self.cartridges@)
    }

    /// The tokens a path must hold none of to be handed out.
    pub open spec fn ignored(&self) -> Seq<Seq<char>> {
        views(self.ignore_list@)
    }

    /// `next` is this collector after routing `event` into its change-set.
    pub open spec fn routed(&self, next: Collection, event: RawEvent) -> bool {
        &&& next.scope() == self.scope()
        &&& next.ignored() == self.ignored()
        &&& match event {
            RawEvent::Create(p) => self.data.after_write(next.data, p@),
            RawEvent::Write(p) => self.data.after_write(next.data, p@),
            RawEvent::Remove(p) => self.data.after_remove(next.data, p@),
            RawEvent::Rename(from, to) => self.data.after_rename(next.data, from@, to@),
            RawEvent::Other => next.data == self.data,
        }
    }

    /// `next` is this collector after a flush that handed out `snap`: the
    /// snapshot holds the consolidated removals, then every set restricted to
    /// the scope and stripped of ignored paths; the live change-set is empty.
    pub open spec fn flushed(&self, next: Collection, snap: Data) -> bool {
        &&& next.scope() == self.scope()
        &&& next.ignored() == self.ignored()
        &&& next.data.upload is None
        &&& next.data.rename is None
        &&& next.data.remove is None
        &&& next.data.base_path == self.data.base_path
        &&& snap.base_path == self.data.base_path
        &&& snap.upload is Some <==> self.data.upload is Some
        &&& snap.rename is Some <==> self.data.rename is Some
        &&& snap.remove is Some <==> self.data.remove is Some
        &&& snap.uploads() == self.data.uploads().filter(file_passes(self.scope(), false)).filter(
            file_passes(self.ignored(), true),
        )
        &&& snap.renames() == self.data.renames().filter(rename_passes(self.scope(), false)).filter(
            rename_passes(self.ignored(), true),
        )
        &&& self.data.remove is Some ==> snap.removals() == reconciled(self.data.removals()).filter(
            path_passes(self.scope(), false),
        ).filter(path_passes(self.ignored(), true))
    }

    /// A collector for the watched root `base_path` that hands out the paths
    /// holding one of `cartridges` (all paths when it is empty) and none of
    /// `ignore_list`.
    pub fn init(base_path: &str, cartridges: Vec<String>, ignore_list: Vec<String>) -> (r: Self)
        ensures
            r.data.upload is None,
            r.data.rename is None,
            r.data.remove is None,
            r.data.base_path@ == base_path@,
            r.scope() == views(cartridges@),
            r.ignored() == views(ignore_list@),
    {
        Collection { data: Data::new(base_path), cartridges: cartridges, ignore_list: ignore_list }
    }

    /// Routes one notification into the change-set: creations and writes
    /// queue uploads, removals queue removals, renames queue renames; other
    /// notifications are ignored.
    pub fn parse_event(&mut self, event: RawEvent)
        ensures
            old(self).routed(*final(self), event),
            old(self).data.wf() ==> final(self).data.wf(),
    {
        match event {
            RawEvent::Create(path) => {
                self.data.push_create(path.as_str());
            },
            RawEvent::Write(path) => {
                self.data.push_write(path.as_str());
            },
            RawEvent::Remove(path) => {
                self.data.push_remove(path.as_str());
            },
            RawEvent::Rename(path, new_path) => {
                self.data.push_rename(path.as_str(), new_path.as_str());
            },
            RawEvent::Other => {},
        }
    }

    /// Handles what one receive gave. A notification is routed and the burst
    /// goes on with polling; an empty poll ends the burst: the snapshot is
    /// handed out and the next wait blocks; a closed queue stops collecting.
    pub fn on_received(&mut self, got: Received) -> (r: (Option<Data>, Wait))
        ensures
            match got {
                Received::Event(e) => old(self).routed(*final(self), e) && r.0 is None && r.1
                    == Wait::Poll,
                Received::Idle => (r.0 matches Some(snap) && old(self).flushed(*final(self), snap))
                    && r.1 == Wait::Block,
                Received::Closed => *final(self) == *old(self) && r.0 is None && r.1 == Wait::Stop,
            },
            old(self).data.wf() ==> final(self).data.wf(),
    {
        match got {
            Received::Event(e) => {
                self.parse_event(e);
                (None, Wait::Poll)
            },
            Received::Idle => {
                let snap = self.get_data();
                (Some(snap), Wait::Block)
            },
            Received::Closed => (None, Wait::Stop),
        }
    }

    /// Consolidates the removals, restricts the change-set to the scope and
    /// strips the ignored paths, hands the result out and empties the live
    /// change-set.
    pub fn get_data(&mut self) -> (r: Data)
        ensures
            old(self).flushed(*final(self), r),
    {
        let ghost d0 = self.data;
        self.data.update();
        let mode = "only";
        proof {
            reveal_strlit("only");
            assert(mode@.len() != except_mode().len());
        }
        self.data.filter(&self.cartridges, mode);
        let ghost d1 = self.data;
        if !self.ignore_list.is_empty() {
            let mode = "exclude";
            proof {
                reveal_strlit("exclude");
                assert(mode@ =~= except_mode());
            }
            self.data.filter(&self.ignore_list, mode);
        } else {
            proof {
                lemma_filter_keeps(d1.uploads(), file_passes(self.ignored(), true));
                lemma_filter_keeps(d1.renames(), rename_passes(self.ignored(), true));
                lemma_filter_keeps(d1.removals(), path_passes(self.ignored(), true));
            }
        }
        let data = Data {
            upload: self.data.upload.take(),
            rename: self.data.rename.take(),
            remove: self.data.remove.take(),
            base_path: self.data.base_path.clone(),
        };
        data
    }
}

/// Flushing twice with no event in between hands out an empty snapshot the
/// second time: uploads, renames and removals are all absent.
pub proof fn lemma_second_flush_is_empty(
    c0: Collection,
    c1: Collection,
    first: Data,
    c2: Collection,
    second: Data,
)
    requires
        c0.flushed(c1, first),
        c1.flushed(c2, second),
    ensures
        second.upload is None,
        second.rename is None,
        second.remove is None,
{
}

/// Repeated writes of one file in a burst leave exactly one upload entry for
/// it in the next snapshot, when the file is in scope. `states` are the
/// collector's states, each one the previous after a write of `path`.
pub proof fn lemma_burst_coalescing(
    states: Seq<Collection>,
    path: String,
    next: Collection,
    snap: Data,
)
    requires
        states.len() >= 2,
        states[0].data.wf(),
        forall|i: int|
            0 <= i < states.len() - 1 ==> (#[trigger] states[i]).routed(
                states[i + 1],
                RawEvent::Write(path),
            ),
        states.last().flushed(next, snap),
        is_file_path(slashed(path@)),
        passes(states[0].data.rel_of(path@), states[0].scope(), false),
        passes(states[0].data.rel_of(path@), states[0].ignored(), true),
    ensures
        exists|i: int|
            0 <= i < snap.uploads().len() && snap.uploads()[i].rel_path@ == states[0].data.rel_of(
                path@,
            ),
        forall|i: int, j: int|
            0 <= i < snap.uploads().len() && 0 <= j < snap.uploads().len()
                && snap.uploads()[i].rel_path@ == states[0].data.rel_of(path@)
                && snap.uploads()[j].rel_path@ == states[0].data.rel_of(path@) ==> i == j,
{
    let rel = states[0].data.rel_of(path@);
    lemma_writes_hold(states, path, states.len() - 1);
    let last = states[states.len() - 1];
    assert(last.data.wf());
    let f1 = file_passes(last.scope(), false);
    let f2 = file_passes(last.ignored(), true);
    let ups = last.data.uploads();
    let i = choose|i: int| 0 <= i < ups.len() && ups[i].rel_path@ == rel;
    assert(f1(ups[i]));
    lemma_filter_uploads(ups, f1, rel);
    let ups1 = ups.filter(f1);
    let j = choose|j: int| 0 <= j < ups1.len() && ups1[j].rel_path@ == rel;
    assert(f2(ups1[j]));
    lemma_filter_uploads(ups1, f2, rel);
}

/// After the writes up to `states[k]` (`k >= 1`), the change-set is well
/// formed and holds an upload for `path`.
proof fn lemma_writes_hold(states: Seq<Collection>, path: String, k: int)
    requires
        1 <= k < states.len(),
        states[0].data.wf(),
        forall|i: int|
            0 <= i < states.len() - 1 ==> (#[trigger] states[i]).routed(
                states[i + 1],
                RawEvent::Write(path),
            ),
        is_file_path(slashed(path@)),
    ensures
        states[k].data.wf(),
        has_upload(states[k].data.uploads(), states[0].data.rel_of(path@)),
        states[k].data.base_path == states[0].data.base_path,
        states[k].scope() == states[0].scope(),
        states[k].ignored() == states[0].ignored(),
    decreases k,
{
    let rel = states[0].data.rel_of(path@);
    if k > 1 {
        lemma_writes_hold(states, path, k - 1);
    }
    let prev = states[k - 1];
    let cur = states[k];
    assert(prev.routed(cur, RawEvent::Write(path)));
    lemma_write_keeps(prev.data, cur.data, path);
    if has_upload(prev.data.uploads(), rel) {
        let i = choose|i: int|
            0 <= i < prev.data.uploads().len() && prev.data.uploads()[i].rel_path@ == rel;
        if cur.data.upload != prev.data.upload {
            assert(cur.data.uploads()[i] == cur.data.uploads().drop_last()[i]);
        }
    } else {
        assert(cur.data.uploads()[cur.data.uploads().len() - 1].rel_path@ == rel);
    }
}

/// A write keeps the change-set well formed and its root unchanged.
proof fn lemma_write_keeps(d0: Data, d1: Data, path: String)
    requires
        d0.wf(),
        d0.after_write(d1, path@),
    ensures
        d1.wf(),
        d1.base_path == d0.base_path,
{
    let ups0 = d0.uploads();
    let ups1 = d1.uploads();
    if d1.upload != d0.upload {
        assert forall|i: int| 0 <= i < ups1.len() implies is_file_path(
            #[trigger] ups1[i].full_path@,
        ) by {
            if i < ups1.len() - 1 {
                assert(ups1[i] == ups1.drop_last()[i]);
            }
        }
        assert forall|i: int, j: int| 0 <= i < j < ups1.len() implies ups1[i].rel_path@
            != ups1[j].rel_path@ by {
            assert(ups1[i] == ups1.drop_last()[i]);
            if j < ups1.len() - 1 {
                assert(ups1[j] == ups1.drop_last()[j]);
            }
        }
    }
    assert(d1.removals() == d0.removals());
}

} // verus!
