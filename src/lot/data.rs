//! The change-set: pending uploads, renames and removals, with the rules that
//! consolidate removals and restrict all three to a scope.
use vstd::prelude::*;

use crate::text::{
    chars_of, depth, has_substring, has_substring_chars, is_file_name, is_file_path,
    slash_count, slashed, strip_prefix_text, strip_root, to_slashes,
};

verus! {

/// A file to push: its path on disk and its path below the watched root.
#[derive(Debug, Clone)]
pub struct File {
    pub full_path: String,
    pub rel_path: String,
}

/// A path below the watched root that was renamed.
#[derive(Debug, Clone)]
pub struct Rename {
    pub current: String,
    pub new: String,
}

/// Pending changes below one watched root. A set that was never touched since
/// the last reset is `None`.
#[derive(Debug, Clone)]
pub struct Data {
    pub upload: Option<Vec<File>>,
    pub rename: Option<Vec<Rename>>,
    pub remove: Option<Vec<String>>,
    /// The watched root: stripped from every path recorded.
    pub base_path: String,
}

/// The character sequences of a sequence of strings.
pub open spec fn views(v: Seq<String>) -> Seq<Seq<char>> {
    v.map_values(|s: String| s@)
}

/// Removed paths whose last segment has no dot: taken for folders.
pub open spec fn folders_in(ps: Seq<Seq<char>>) -> Seq<Seq<char>> {
    ps.filter(|p: Seq<char>| !is_file_path(p))
}

/// Removed paths whose last segment has a dot: taken for files.
pub open spec fn files_in(ps: Seq<Seq<char>>) -> Seq<Seq<char>> {
    ps.filter(|p: Seq<char>| is_file_path(p))
}

/// The paths of `ps` of depth `d`, in their order in `ps`.
pub open spec fn at_depth(ps: Seq<Seq<char>>, d: nat) -> Seq<Seq<char>> {
    ps.filter(|p: Seq<char>| depth(p) == d)
}

/// The paths of `ps` of depth below `d`, shallowest first; paths of equal
/// depth keep their order in `ps`.
pub open spec fn shallower_than(ps: Seq<Seq<char>>, d: nat) -> Seq<Seq<char>>
    decreases d,
{
    if d == 0 {
        Seq::empty()
    } else {
        shallower_than(ps, (d - 1) as nat) + at_depth(ps, (d - 1) as nat)
    }
}

/// The greatest depth of a path of `ps` (0 when there is none).
pub open spec fn max_depth(ps: Seq<Seq<char>>) -> nat
    decreases ps.len(),
{
    if ps.len() == 0 {
        0
    } else if depth(ps.last()) > max_depth(ps.drop_last()) {
        depth(ps.last())
    } else {
        max_depth(ps.drop_last())
    }
}

/// `ps` sorted by depth, shallowest first, stable: paths of equal depth keep
/// the order in which they were discovered.
pub open spec fn by_depth(ps: Seq<Seq<char>>) -> Seq<Seq<char>> {
    shallower_than(ps, max_depth(ps) + 1)
}

/// One of `a` and `b` is a substring of the other.
pub open spec fn overlaps(a: Seq<char>, b: Seq<char>) -> bool {
    has_substring(a, b) || has_substring(b, a)
}

/// `p` overlaps one of `ks`.
pub open spec fn overlaps_any(ks: Seq<Seq<char>>, p: Seq<char>) -> bool {
    exists|j: int| 0 <= j < ks.len() && overlaps(ks[j], p)
}

/// Walking `sorted` in order, the folders kept: each one that overlaps no
/// folder kept before it.
pub open spec fn kept(sorted: Seq<Seq<char>>) -> Seq<Seq<char>>
    decreases sorted.len(),
{
    if sorted.len() == 0 {
        Seq::empty()
    } else if overlaps_any(kept(sorted.drop_last()), sorted.last()) {
        kept(sorted.drop_last())
    } else {
        kept(sorted.drop_last()).push(sorted.last())
    }
}

/// One of `ks` is a substring of `f`.
pub open spec fn inside_any(f: Seq<char>, ks: Seq<Seq<char>>) -> bool {
    exists|j: int| 0 <= j < ks.len() && has_substring(f, ks[j])
}

/// The files of `fs` that lie in none of the folders `ks`.
pub open spec fn outside_all(fs: Seq<Seq<char>>, ks: Seq<Seq<char>>) -> Seq<Seq<char>> {
    fs.filter(|f: Seq<char>| !inside_any(f, ks))
}

/// The consolidated removals: the folders kept when walking them by depth,
/// then the files that lie in none of those folders.
pub open spec fn reconciled(ps: Seq<Seq<char>>) -> Seq<Seq<char>> {
    let ks = kept(by_depth(folders_in(ps)));
    ks + outside_all(files_in(ps), ks)
}

/// `p` holds one of `toks` as a substring.
pub open spec fn matches_any(p: Seq<char>, toks: Seq<Seq<char>>) -> bool {
    exists|j: int| 0 <= j < toks.len() && has_substring(p, toks[j])
}

/// Whether a path stays under a scope: with `except`, when it holds none of
/// `toks`; otherwise when `toks` is empty or the path holds one of them.
pub open spec fn passes(p: Seq<char>, toks: Seq<Seq<char>>, except: bool) -> bool {
    if except {
        !matches_any(p, toks)
    } else {
        toks.len() == 0 || matches_any(p, toks)
    }
}

/// The upload entries that stay under a scope, judged by their relative path.
pub open spec fn file_passes(toks: Seq<Seq<char>>, except: bool) -> spec_fn(File) -> bool {
    |f: File| passes(f.rel_path@, toks, except)
}

/// The removed paths that stay under a scope.
pub open spec fn path_passes(toks: Seq<Seq<char>>, except: bool) -> spec_fn(Seq<char>) -> bool {
    |p: Seq<char>| passes(p, toks, except)
}

/// The renames that stay under a scope, judged by their current path.
pub open spec fn rename_passes(toks: Seq<Seq<char>>, except: bool) -> spec_fn(Rename) -> bool {
    |r: Rename| passes(r.current@, toks, except)
}

/// The mode name that makes a filter drop what matches.
pub open spec fn except_mode() -> Seq<char> {
    seq!['e', 'x', 'c', 'l', 'u', 'd', 'e']
}

/// One of `ups` has relative path `rel`.
pub open spec fn has_upload(ups: Seq<File>, rel: Seq<char>) -> bool {
    exists|i: int| 0 <= i < ups.len() && ups[i].rel_path@ == rel
}

proof fn lemma_filter_take_step<A>(s: Seq<A>, i: int, f: spec_fn(A) -> bool)
    requires
        0 <= i < s.len(),
    ensures
        s.take(i + 1).filter(f) == if f(s[i]) {
            s.take(i).filter(f).push(s[i])
        } else {
            s.take(i).filter(f)
        },
{
    assert(s.take(i + 1) =~= s.take(i).push(s[i]));
    s.take(i).lemma_filter_push(s[i], f);
}

proof fn lemma_views_push(v: Seq<String>, s: String)
    ensures
        views(v.push(s)) == views(v).push(s@),
{
    assert(views(v.push(s)) =~= views(v).push(s@));
}

proof fn lemma_filter_none<A>(s: Seq<A>, f: spec_fn(A) -> bool)
    requires
        forall|i: int| 0 <= i < s.len() ==> !f(s[i]),
    ensures
        s.filter(f) == Seq::<A>::empty(),
    decreases s.len(),
{
    reveal(Seq::filter);
    if s.len() > 0 {
        assert forall|i: int| 0 <= i < s.drop_last().len() implies !f(s.drop_last()[i]) by {
            assert(s.drop_last()[i] == s[i]);
        }
        lemma_filter_none(s.drop_last(), f);
    }
}

proof fn lemma_max_depth(ps: Seq<Seq<char>>)
    ensures
        forall|i: int| 0 <= i < ps.len() ==> depth(#[trigger] ps[i]) <= max_depth(ps),
        ps.len() > 0 ==> exists|i: int| 0 <= i < ps.len() && depth(ps[i]) == max_depth(ps),
    decreases ps.len(),
{
    if ps.len() > 0 {
        lemma_max_depth(ps.drop_last());
        assert forall|i: int| 0 <= i < ps.len() implies depth(#[trigger] ps[i]) <= max_depth(ps) by {
            if i < ps.len() - 1 {
                assert(ps[i] == ps.drop_last()[i]);
            }
        }
        if ps.len() > 1 && depth(ps.last()) <= max_depth(ps.drop_last()) {
            let k = choose|k: int| 0 <= k < ps.drop_last().len() && depth(ps.drop_last()[k]) == max_depth(ps.drop_last());
            assert(ps[k] == ps.drop_last()[k]);
        }
        if ps.len() == 1 {
            assert(ps.drop_last().len() == 0);
        }
    }
}

/// `folders` sorted by depth, shallowest first; folders of equal depth keep
/// their order.
fn sort_by_depth(folders: &Vec<String>) -> (r: Vec<String>)
    ensures
        views(r@) == by_depth(views(folders@)),
{
    let ghost ps = views(folders@);
    let n: usize = folders.len();
    let mut out: Vec<String> = Vec::new();
    if n == 0 {
        proof {
            assert(at_depth(ps, 0) =~= Seq::<Seq<char>>::empty()) by {
                reveal(Seq::filter);
            }
            assert(shallower_than(ps, 0) == Seq::<Seq<char>>::empty());
            assert(views(out@) =~= by_depth(ps));
        }
        return out;
    }
    let mut counts: Vec<usize> = Vec::new();
    let mut top: usize = 0;
    let mut i: usize = 0;
    while i < n
        invariant
            n == folders.len(),
            ps == views(folders@),
            i <= n,
            counts@.len() == i,
            forall|k: int| 0 <= k < i ==> counts@[k] + 1 == depth(#[trigger] ps[k]),
            i == 0 ==> top == 0,
            i > 0 ==> top + 1 == max_depth(ps.take(i as int)),
        decreases n - i,
    {
        let c = slash_count(folders[i].as_str());
        let ghost old_top = top;
        counts.push(c);
        proof {
            assert(ps[i as int] == folders@[i as int]@);
            assert(ps.take(i + 1).drop_last() =~= ps.take(i as int));
            assert(ps.take(i + 1).last() == ps[i as int]);
        }
        if i == 0 || c > top {
            top = c;
        }
        proof {
            let t = ps.take(i + 1);
            assert(t.len() > 0);
            assert(depth(t.last()) == c + 1);
            if i == 0 {
                assert(t.drop_last().len() == 0);
                assert(max_depth(t.drop_last()) == 0);
            } else {
                assert(max_depth(t.drop_last()) == old_top + 1);
            }
            assert(top + 1 == max_depth(t));
        }
        i += 1;
    }
    assert(ps.take(n as int) =~= ps);
    proof {
        lemma_max_depth(ps);
        lemma_filter_none(ps, |p: Seq<char>| depth(p) == 0);
        assert(shallower_than(ps, 0) == Seq::<Seq<char>>::empty());
        assert(shallower_than(ps, 1) =~= Seq::<Seq<char>>::empty());
    }
    let mut c: usize = 0;
    loop
        invariant_except_break
            c <= top,
            views(out@) == shallower_than(ps, (c + 1) as nat),
        invariant
            n == folders.len(),
            ps == views(folders@),
            counts@.len() == n,
            forall|k: int| 0 <= k < n ==> counts@[k] + 1 == depth(#[trigger] ps[k]),
            top + 1 == max_depth(ps),
        ensures
            views(out@) == shallower_than(ps, (top + 2) as nat),
        decreases top - c,
    {
        let mut j: usize = 0;
        while j < n
            invariant
                n == folders.len(),
                ps == views(folders@),
                counts@.len() == n,
                forall|k: int| 0 <= k < n ==> counts@[k] + 1 == depth(#[trigger] ps[k]),
                j <= n,
                views(out@) == shallower_than(ps, (c + 1) as nat) + at_depth(
                    ps.take(j as int),
                    (c + 1) as nat,
                ),
            decreases n - j,
        {
            proof {
                lemma_filter_take_step(ps, j as int, |p: Seq<char>| depth(p) == (c + 1) as nat);
            }
            if counts[j] == c {
                let s = folders[j].clone();
                proof {
                    lemma_views_push(out@, s);
                }
                out.push(s);
            }
            j += 1;
        }
        assert(ps.take(n as int) =~= ps);
        if c == top {
            break;
        }
        c += 1;
    }
    out
}

/// Whether some element of `ks` overlaps `fc`; `ks` and `kc` hold the same
/// paths, as strings and as characters.
fn overlaps_any_exec(kc: &Vec<Vec<char>>, fc: &Vec<char>) -> (r: bool)
    ensures
        r == overlaps_any(kc@.map_values(|v: Vec<char>| v@), fc@),
{
    let ghost ks = kc@.map_values(|v: Vec<char>| v@);
    let mut j: usize = 0;
    while j < kc.len()
        invariant
            ks == kc@.map_values(|v: Vec<char>| v@),
            j <= kc.len(),
            forall|k: int| 0 <= k < j ==> !overlaps(#[trigger] ks[k], fc@),
        decreases kc.len() - j,
    {
        if has_substring_chars(&kc[j], fc) || has_substring_chars(fc, &kc[j]) {
            assert(ks[j as int] == kc@[j as int]@);
            return true;
        }
        assert(ks[j as int] == kc@[j as int]@);
        j += 1;
    }
    false
}

/// Walking `sorted` in order, the folders that overlap no folder kept before.
fn keep_outermost(sorted: &Vec<String>) -> (r: Vec<String>)
    ensures
        views(r@) == kept(views(sorted@)),
{
    let ghost ps = views(sorted@);
    let mut out: Vec<String> = Vec::new();
    let mut out_chars: Vec<Vec<char>> = Vec::new();
    let n: usize = sorted.len();
    let mut i: usize = 0;
    while i < n
        invariant
            n == sorted.len(),
            ps == views(sorted@),
            i <= n,
            views(out@) == kept(ps.take(i as int)),
            out_chars@.map_values(|v: Vec<char>| v@) == views(out@),
        decreases n - i,
    {
        let fc = chars_of(sorted[i].as_str());
        let clash = overlaps_any_exec(&out_chars, &fc);
        proof {
            let t = ps.take(i + 1);
            assert(t.drop_last() =~= ps.take(i as int));
            assert(t.last() == sorted@[i as int]@);
        }
        if !clash {
            let s = sorted[i].clone();
            proof {
                lemma_views_push(out@, s);
                assert(out_chars@.push(fc).map_values(|v: Vec<char>| v@) =~= out_chars@.map_values(
                    |v: Vec<char>| v@,
                ).push(fc@));
            }
            out.push(s);
            out_chars.push(fc);
        }
        i += 1;
    }
    assert(ps.take(n as int) =~= ps);
    out
}

/// The files of `files` that lie in none of the folders `folders`.
fn files_outside(files: &Vec<String>, folders: &Vec<String>) -> (r: Vec<String>)
    ensures
        views(r@) == outside_all(views(files@), views(folders@)),
{
    let ghost fs = views(files@);
    let ghost ks = views(folders@);
    let mut kc: Vec<Vec<char>> = Vec::new();
    let mut k: usize = 0;
    while k < folders.len()
        invariant
            ks == views(folders@),
            k <= folders.len(),
            kc@.len() == k,
            forall|m: int| 0 <= m < k ==> (#[trigger] kc@[m])@ == ks[m],
        decreases folders.len() - k,
    {
        kc.push(chars_of(folders[k].as_str()));
        k += 1;
    }
    let mut out: Vec<String> = Vec::new();
    let n: usize = files.len();
    let mut i: usize = 0;
    while i < n
        invariant
            n == files.len(),
            fs == views(files@),
            ks == views(folders@),
            kc@.len() == ks.len(),
            forall|m: int| 0 <= m < ks.len() ==> (#[trigger] kc@[m])@ == ks[m],
            i <= n,
            views(out@) == outside_all(fs.take(i as int), ks),
        decreases n - i,
    {
        let fc = chars_of(files[i].as_str());
        let mut inside = false;
        let mut j: usize = 0;
        while j < kc.len()
            invariant
                kc@.len() == ks.len(),
                forall|m: int| 0 <= m < ks.len() ==> (#[trigger] kc@[m])@ == ks[m],
                j <= kc.len(),
                inside == exists|m: int| 0 <= m < j && has_substring(fc@, ks[m]),
            decreases kc.len() - j,
        {
            if has_substring_chars(&fc, &kc[j]) {
                inside = true;
            }
            j += 1;
        }
        proof {
            assert(fs[i as int] == files@[i as int]@);
            lemma_filter_take_step(fs, i as int, |f: Seq<char>| !inside_any(f, ks));
        }
        if !inside {
            let s = files[i].clone();
            proof {
                lemma_views_push(out@, s);
            }
            out.push(s);
        }
        i += 1;
    }
    assert(fs.take(n as int) =~= fs);
    out
}

/// Whether `p` stays under the scope given by the tokens `tc`.
fn passes_exec(p: &str, tc: &Vec<Vec<char>>, except: bool) -> (r: bool)
    ensures
        r == passes(p@, tc@.map_values(|v: Vec<char>| v@), except),
{
    let ghost toks = tc@.map_values(|v: Vec<char>| v@);
    let pc = chars_of(p);
    let mut found = false;
    let mut j: usize = 0;
    while j < tc.len()
        invariant
            toks == tc@.map_values(|v: Vec<char>| v@),
            pc@ == p@,
            j <= tc.len(),
            found == exists|k: int| 0 <= k < j && has_substring(p@, toks[k]),
        decreases tc.len() - j,
    {
        assert(toks[j as int] == tc@[j as int]@);
        if has_substring_chars(&pc, &tc[j]) {
            found = true;
        }
        j += 1;
    }
    if except {
        !found
    } else {
        tc.len() == 0 || found
    }
}

/// Whether `a` and `b` hold the same characters.
fn same_text(a: &str, b: &str) -> (r: bool)
    ensures
        r == (a@ == b@),
{
    let ac = chars_of(a);
    let bc = chars_of(b);
    if ac.len() != bc.len() {
        return false;
    }
    let mut i: usize = 0;
    while i < ac.len()
        invariant
            ac@ == a@,
            bc@ == b@,
            ac.len() == bc.len(),
            i <= ac.len(),
            forall|k: int| 0 <= k < i ==> ac@[k] == bc@[k],
        decreases ac.len() - i,
    {
        if ac[i] != bc[i] {
            return false;
        }
        i += 1;
    }
    assert(a@ =~= b@);
    true
}

/// Whether one of `v` has relative path `rel`.
fn contains_upload(v: &Vec<File>, rel: &String) -> (r: bool)
    ensures
        r == has_upload(v@, rel@),
{
    let mut i: usize = 0;
    while i < v.len()
        invariant
            i <= v.len(),
            forall|k: int| 0 <= k < i ==> v@[k].rel_path@ != rel@,
        decreases v.len() - i,
    {
        if v[i].rel_path == *rel {
            return true;
        }
        i += 1;
    }
    false
}

/// Whether one of `v` holds the same characters as `p`.
fn contains_path(v: &Vec<String>, p: &String) -> (r: bool)
    ensures
        r == views(v@).contains(p@),
{
    let mut i: usize = 0;
    while i < v.len()
        invariant
            i <= v.len(),
            forall|k: int| 0 <= k < i ==> v@[k]@ != p@,
        decreases v.len() - i,
    {
        if v[i] == *p {
            assert(views(v@)[i as int] == p@);
            return true;
        }
        i += 1;
    }
    assert forall|k: int| 0 <= k < views(v@).len() implies views(v@)[k] != p@ by {
        assert(views(v@)[k] == v@[k]@);
    }
    false
}

impl File {
    /// A copy of this entry.
    pub fn copy(&self) -> (r: File)
        ensures
            r == *self,
    {
        File { full_path: self.full_path.clone(), rel_path: self.rel_path.clone() }
    }
}

impl Rename {
    /// A copy of this entry.
    pub fn copy(&self) -> (r: Rename)
        ensures
            r == *self,
    {
        Rename { current: self.current.clone(), new: self.new.clone() }
    }
}

fn keep_files(v: &Vec<File>, tc: &Vec<Vec<char>>, except: bool) -> (r: Vec<File>)
    ensures
        r@ == v@.filter(file_passes(tc@.map_values(|w: Vec<char>| w@), except)),
{
    let ghost toks = tc@.map_values(|w: Vec<char>| w@);
    let mut out: Vec<File> = Vec::new();
    let mut i: usize = 0;
    while i < v.len()
        invariant
            toks == tc@.map_values(|w: Vec<char>| w@),
            i <= v.len(),
            out@ == v@.take(i as int).filter(file_passes(toks, except)),
        decreases v.len() - i,
    {
        proof {
            lemma_filter_take_step(v@, i as int, file_passes(toks, except));
        }
        if passes_exec(v[i].rel_path.as_str(), tc, except) {
            out.push(v[i].copy());
        }
        i += 1;
    }
    assert(v@.take(v.len() as int) =~= v@);
    out
}

fn keep_paths(v: &Vec<String>, tc: &Vec<Vec<char>>, except: bool) -> (r: Vec<String>)
    ensures
        views(r@) == views(v@).filter(path_passes(tc@.map_values(|w: Vec<char>| w@), except)),
{
    let ghost toks = tc@.map_values(|w: Vec<char>| w@);
    let ghost ps = views(v@);
    let mut out: Vec<String> = Vec::new();
    let mut i: usize = 0;
    while i < v.len()
        invariant
            toks == tc@.map_values(|w: Vec<char>| w@),
            ps == views(v@),
            i <= v.len(),
            views(out@) == ps.take(i as int).filter(path_passes(toks, except)),
        decreases v.len() - i,
    {
        proof {
            assert(ps[i as int] == v@[i as int]@);
            lemma_filter_take_step(ps, i as int, path_passes(toks, except));
        }
        if passes_exec(v[i].as_str(), tc, except) {
            let s = v[i].clone();
            proof {
                lemma_views_push(out@, s);
            }
            out.push(s);
        }
        i += 1;
    }
    assert(ps.take(v.len() as int) =~= ps);
    out
}

fn keep_renames(v: &Vec<Rename>, tc: &Vec<Vec<char>>, except: bool) -> (r: Vec<Rename>)
    ensures
        r@ == v@.filter(rename_passes(tc@.map_values(|w: Vec<char>| w@), except)),
{
    let ghost toks = tc@.map_values(|w: Vec<char>| w@);
    let mut out: Vec<Rename> = Vec::new();
    let mut i: usize = 0;
    while i < v.len()
        invariant
            toks == tc@.map_values(|w: Vec<char>| w@),
            i <= v.len(),
            out@ == v@.take(i as int).filter(rename_passes(toks, except)),
        decreases v.len() - i,
    {
        proof {
            lemma_filter_take_step(v@, i as int, rename_passes(toks, except));
        }
        if passes_exec(v[i].current.as_str(), tc, except) {
            out.push(v[i].copy());
        }
        i += 1;
    }
    assert(v@.take(v.len() as int) =~= v@);
    out
}

impl Data {
    /// The files waiting to be uploaded.
    pub open spec fn uploads(&self) -> Seq<File> {
        match self.upload {
            Some(v) => v@,
            None => Seq::empty(),
        }
    }

    /// The renames waiting to be applied, in the order observed.
    pub open spec fn renames(&self) -> Seq<Rename> {
        match self.rename {
            Some(v) => v@,
            None => Seq::empty(),
        }
    }

    /// The paths waiting to be removed.
    pub open spec fn removals(&self) -> Seq<Seq<char>> {
        match self.remove {
            Some(v) => views(v@),
            None => Seq::empty(),
        }
    }

    /// The removed paths split into folders and files by name, each in the
    /// order recorded.
    pub fn split_folders_files(&self) -> (r: (Vec<String>, Vec<String>))
        ensures
            views(r.0@) == folders_in(self.removals()),
            views(r.1@) == files_in(self.removals()),
    {
        let mut folders: Vec<String> = Vec::new();
        let mut files: Vec<String> = Vec::new();
        let ghost ps = self.removals();
        match &self.remove {
            Some(v) => {
                let n: usize = v.len();
                let mut i: usize = 0;
                while i < n
                    invariant
                        n == v.len(),
                        ps == views(v@),
                        i <= n,
                        views(folders@) == folders_in(ps.take(i as int)),
                        views(files@) == files_in(ps.take(i as int)),
                    decreases n - i,
                {
                    proof {
                        assert(ps[i as int] == v@[i as int]@);
                        lemma_filter_take_step(ps, i as int, |p: Seq<char>| !is_file_path(p));
                        lemma_filter_take_step(ps, i as int, |p: Seq<char>| is_file_path(p));
                    }
                    let s = v[i].clone();
                    if is_file_name(s.as_str()) {
                        proof {
                            lemma_views_push(files@, s);
                        }
                        files.push(s);
                    } else {
                        proof {
                            lemma_views_push(folders@, s);
                        }
                        folders.push(s);
                    }
                    i += 1;
                }
                assert(ps.take(n as int) =~= ps);
            },
            None => {
                assert(folders_in(ps) =~= Seq::<Seq<char>>::empty()) by {
                    reveal(Seq::filter);
                }
                assert(files_in(ps) =~= Seq::<Seq<char>>::empty()) by {
                    reveal(Seq::filter);
                }
            },
        }
        (folders, files)
    }

    /// Consolidates the removals: a folder is dropped when it overlaps (as a
    /// substring, either way round) a shallower folder kept before it, and a
    /// file when one of the kept folders is a substring of its path. Folders
    /// of equal depth are walked in the order recorded. Uploads and renames
    /// are left alone; with no removals nothing changes.
    pub fn update(&mut self)
        ensures
            final(self).upload == old(self).upload,
            final(self).rename == old(self).rename,
            final(self).base_path == old(self).base_path,
            old(self).remove is None ==> final(self).remove is None,
            old(self).remove is Some ==> final(self).remove is Some && final(self).removals()
                == reconciled(old(self).removals()),
    {
        if self.remove.is_some() {
            let (folders, files) = self.split_folders_files();
            let sorted = sort_by_depth(&folders);
            let mut result = keep_outermost(&sorted);
            let mut rest = files_outside(&files, &result);
            let ghost ks = views(result@);
            let ghost fs = views(rest@);
            result.append(&mut rest);
            proof {
                assert(views(result@) =~= ks + fs);
            }
            self.remove = Some(result);
        }
    }

    /// Restricts the three sets to a scope given by substring tokens. In mode
    /// `"exclude"` an entry stays when its path holds none of the tokens; in
    /// any other mode it stays when its path holds one of them, and an empty
    /// token list keeps everything. Uploads and removals are judged by their
    /// relative path, renames by their current path. A set that is `None`
    /// stays `None`.
    pub fn filter(&mut self, paths: &Vec<String>, filter_type: &str)
        ensures
            old(self).after_filter(*final(self), views(paths@), filter_type@ == except_mode()),
    {
        let mode = "exclude";
        proof {
            reveal_strlit("exclude");
            assert(mode@ =~= except_mode());
        }
        let except = same_text(filter_type, mode);
        let mut tc: Vec<Vec<char>> = Vec::new();
        let mut k: usize = 0;
        while k < paths.len()
            invariant
                k <= paths.len(),
                tc@.map_values(|w: Vec<char>| w@) == views(paths@).take(k as int),
            decreases paths.len() - k,
        {
            let c = chars_of(paths[k].as_str());
            proof {
                let before = tc@.map_values(|w: Vec<char>| w@);
                assert(views(paths@)[k as int] == paths@[k as int]@);
                assert(views(paths@).take(k + 1) =~= views(paths@).take(k as int).push(c@));
                assert(tc@.push(c).map_values(|w: Vec<char>| w@) =~= before.push(c@));
            }
            tc.push(c);
            k += 1;
        }
        assert(views(paths@).take(paths.len() as int) =~= views(paths@));
        match &self.upload {
            Some(v) => {
                let kept_files = keep_files(v, &tc, except);
                self.upload = Some(kept_files);
            },
            None => {
                assert(self.uploads().filter(file_passes(views(paths@), except)) =~= Seq::<File>::empty()) by {
                    reveal(Seq::filter);
                }
            },
        }
        match &self.remove {
            Some(v) => {
                let kept_paths = keep_paths(v, &tc, except);
                self.remove = Some(kept_paths);
            },
            None => {
                assert(self.removals().filter(path_passes(views(paths@), except)) =~= Seq::<Seq<char>>::empty()) by {
                    reveal(Seq::filter);
                }
            },
        }
        match &self.rename {
            Some(v) => {
                let kept_renames = keep_renames(v, &tc, except);
                self.rename = Some(kept_renames);
            },
            None => {
                assert(self.renames().filter(rename_passes(views(paths@), except)) =~= Seq::<Rename>::empty()) by {
                    reveal(Seq::filter);
                }
            },
        }
    }

    /// The path recorded for `path` below the watched root: backslashes made
    /// forward slashes, then the leading root stripped.
    pub open spec fn rel_of(&self, path: Seq<char>) -> Seq<char> {
        strip_root(slashed(path), self.base_path@)
    }

    /// Every upload names a file, no two uploads share a relative path, and
    /// no path is removed twice.
    pub open spec fn wf(&self) -> bool {
        &&& forall|i: int| 0 <= i < self.uploads().len() ==> is_file_path(#[trigger] self.uploads()[i].full_path@)
        &&& forall|i: int, j: int|
            0 <= i < j < self.uploads().len() ==> self.uploads()[i].rel_path@ != self.uploads()[j].rel_path@
        &&& self.removals().no_duplicates()
    }

    /// `next` is this change-set restricted to the scope `toks` (dropping
    /// what matches when `except`): each set keeps, in order, the entries that
    /// pass, and a set that was absent stays absent.
    pub open spec fn after_filter(&self, next: Data, toks: Seq<Seq<char>>, except: bool) -> bool {
        &&& next.base_path == self.base_path
        &&& next.upload is Some <==> self.upload is Some
        &&& next.rename is Some <==> self.rename is Some
        &&& next.remove is Some <==> self.remove is Some
        &&& next.uploads() == self.uploads().filter(file_passes(toks, except))
        &&& next.removals() == self.removals().filter(path_passes(toks, except))
        &&& next.renames() == self.renames().filter(rename_passes(toks, except))
    }

    /// `next` is this change-set after a write (or a creation) of `path`:
    /// a path whose last segment holds a dot is added to the uploads unless
    /// one with the same relative path is there already; any other path
    /// leaves everything as it was.
    pub open spec fn after_write(&self, next: Data, path: Seq<char>) -> bool {
        &&& next.base_path == self.base_path
        &&& next.rename == self.rename
        &&& next.remove == self.remove
        &&& if is_file_path(slashed(path)) && !has_upload(self.uploads(), self.rel_of(path)) {
            &&& next.upload is Some
            &&& next.uploads().len() == self.uploads().len() + 1
            &&& next.uploads().drop_last() == self.uploads()
            &&& next.uploads().last().full_path@ == slashed(path)
            &&& next.uploads().last().rel_path@ == self.rel_of(path)
        } else {
            next.upload == self.upload
        }
    }

    /// `next` is this change-set after the removal of `path`: its relative
    /// path joins the removals unless it is there already.
    pub open spec fn after_remove(&self, next: Data, path: Seq<char>) -> bool {
        &&& next.base_path == self.base_path
        &&& next.upload == self.upload
        &&& next.rename == self.rename
        &&& if self.removals().contains(self.rel_of(path)) {
            next.remove == self.remove
        } else {
            &&& next.remove is Some
            &&& next.removals() == self.removals().push(self.rel_of(path))
        }
    }

    /// `next` is this change-set after `from` was renamed to `to`: the pair of
    /// relative paths is appended to the renames.
    pub open spec fn after_rename(&self, next: Data, from: Seq<char>, to: Seq<char>) -> bool {
        &&& next.base_path == self.base_path
        &&& next.upload == self.upload
        &&& next.remove == self.remove
        &&& next.rename is Some
        &&& next.renames().len() == self.renames().len() + 1
        &&& next.renames().drop_last() == self.renames()
        &&& next.renames().last().current@ == self.rel_of(from)
        &&& next.renames().last().new@ == self.rel_of(to)
    }

    /// An empty change-set for the watched root `base_path`.
    pub fn new(base_path: &str) -> (r: Data)
        ensures
            r.upload is None,
            r.rename is None,
            r.remove is None,
            r.base_path@ == base_path@,
    {
        Data { upload: None, rename: None, remove: None, base_path: base_path.to_owned() }
    }

    /// Empties all three sets.
    pub fn reset(&mut self)
        ensures
            final(self).upload is None,
            final(self).rename is None,
            final(self).remove is None,
            final(self).base_path == old(self).base_path,
    {
        self.upload = None;
        self.rename = None;
        self.remove = None;
    }

    /// Records that `path` was created; the same as a write.
    pub fn push_create(&mut self, path: &str)
        ensures
            old(self).after_write(*final(self), path@),
            old(self).wf() ==> final(self).wf(),
    {
        self.push_write(path);
    }

    /// Records that `path` was written: a file (by name) is queued for upload
    /// with its full and relative paths, a folder is ignored.
    pub fn push_write(&mut self, path: &str)
        ensures
            old(self).after_write(*final(self), path@),
            old(self).wf() ==> final(self).wf(),
    {
        let string_path = self.get_string_path(path);
        if self.is_file(string_path.as_str()) {
            self.push_file(string_path.as_str());
        }
    }

    /// Records that `path` was removed. Whether it was a file or a folder is
    /// left to `update`, as it can no longer be looked at.
    pub fn push_remove(&mut self, path: &str)
        ensures
            old(self).after_remove(*final(self), path@),
            old(self).wf() ==> final(self).wf(),
    {
        let string_path = self.get_string_path(path);
        let rel_path = self.get_relative_path(string_path.as_str());
        let ghost before = self.removals();
        let present = match &self.remove {
            Some(v) => contains_path(v, &rel_path),
            None => false,
        };
        if !present {
            let mut v = match self.remove.take() {
                Some(v) => v,
                None => Vec::new(),
            };
            proof {
                lemma_views_push(v@, rel_path);
            }
            v.push(rel_path);
            self.remove = Some(v);
            proof {
                assert(self.removals() == before.push(rel_path@));
                assert(self.uploads() == old(self).uploads());
                if old(self).wf() {
                    assert forall|i: int, j: int|
                        0 <= i < self.removals().len() && 0 <= j < self.removals().len() && i != j
                        implies self.removals()[i] != self.removals()[j] by {
                        if i == before.len() as int {
                            assert(self.removals()[j] == before[j]);
                        } else if j == before.len() as int {
                            assert(self.removals()[i] == before[i]);
                        }
                    }
                }
            }
        }
    }

    /// Records that `path` was renamed to `new_path`, both as paths below the
    /// watched root.
    pub fn push_rename(&mut self, path: &str, new_path: &str)
        ensures
            old(self).after_rename(*final(self), path@, new_path@),
            old(self).wf() ==> final(self).wf(),
    {
        let current_name = self.get_relative_path(self.get_string_path(path).as_str());
        let new_name = self.get_relative_path(self.get_string_path(new_path).as_str());
        let rename_collection = Rename { current: current_name, new: new_name };
        let mut v = match self.rename.take() {
            Some(v) => v,
            None => Vec::new(),
        };
        v.push(rename_collection);
        self.rename = Some(v);
        assert(self.renames().drop_last() =~= old(self).renames());
        assert(self.uploads() == old(self).uploads());
        assert(self.removals() == old(self).removals());
    }

    /// Whether the last `/`-separated segment of `path` holds a dot.
    fn is_file(&self, path: &str) -> (r: bool)
        ensures
            r == is_file_path(path@),
    {
        is_file_name(path)
    }

    /// `path` with backslashes made forward slashes.
    fn get_string_path(&self, path: &str) -> (r: String)
        ensures
            r@ == slashed(path@),
    {
        to_slashes(path)
    }

    /// `path` without the leading watched root.
    fn get_relative_path(&self, path: &str) -> (r: String)
        ensures
            r@ == strip_root(path@, self.base_path@),
    {
        strip_prefix_text(path, self.base_path.as_str())
    }

    /// Queues the file at `string_path` for upload unless an entry with the
    /// same relative path is queued already.
    fn push_file(&mut self, string_path: &str)
        requires
            is_file_path(string_path@),
        ensures
            final(self).base_path == old(self).base_path,
            final(self).rename == old(self).rename,
            final(self).remove == old(self).remove,
            has_upload(old(self).uploads(), strip_root(string_path@, old(self).base_path@))
                ==> final(self).upload == old(self).upload,
            !has_upload(old(self).uploads(), strip_root(string_path@, old(self).base_path@)) ==> {
                &&& final(self).upload is Some
                &&& final(self).uploads().len() == old(self).uploads().len() + 1
                &&& final(self).uploads().drop_last() == old(self).uploads()
                &&& final(self).uploads().last().full_path@ == string_path@
                &&& final(self).uploads().last().rel_path@ == strip_root(string_path@, old(self).base_path@)
            },
            old(self).wf() ==> final(self).wf(),
    {
        let file_path = File {
            full_path: string_path.to_owned(),
            rel_path: self.get_relative_path(string_path),
        };
        let ghost before = self.uploads();
        let present = match &self.upload {
            Some(v) => contains_upload(v, &file_path.rel_path),
            None => false,
        };
        if present {
            return;
        }
        let mut v = match self.upload.take() {
            Some(v) => v,
            None => Vec::new(),
        };
        v.push(file_path);
        self.upload = Some(v);
        assert(self.uploads()[self.uploads().len() - 1].full_path@ == string_path@);
        assert(self.uploads().drop_last() =~= before);
    }
}

/// An element of `s` is kept by filtering exactly when it satisfies `f`.
pub(crate) proof fn lemma_filter_keeps<A>(s: Seq<A>, f: spec_fn(A) -> bool)
    ensures
        forall|i: int| 0 <= i < s.len() ==> (s.filter(f).contains(#[trigger] s[i]) <==> f(s[i])),
        (forall|i: int| 0 <= i < s.len() ==> f(s[i])) ==> s.filter(f) == s,
    decreases s.len(),
{
    reveal(Seq::filter);
    if s.len() > 0 {
        let t = s.drop_last();
        lemma_filter_keeps(t, f);
        let ft = t.filter(f);
        assert forall|i: int| 0 <= i < s.len() implies (s.filter(f).contains(#[trigger] s[i]) <==> f(
            s[i],
        )) by {
            if i < s.len() - 1 {
                assert(t[i] == s[i]);
                if s.filter(f).contains(s[i]) {
                    lemma_filter_members(s, f);
                }
                if f(s[i]) {
                    assert(ft.contains(t[i]));
                    let k = choose|k: int| 0 <= k < ft.len() && ft[k] == t[i];
                    if f(s.last()) {
                        assert(s.filter(f)[k] == ft[k]);
                    }
                }
            } else {
                if f(s[i]) {
                    assert(s.filter(f)[s.filter(f).len() - 1] == s[i]);
                } else if s.filter(f).contains(s[i]) {
                    lemma_filter_members(s, f);
                }
            }
        }
        if forall|i: int| 0 <= i < s.len() ==> f(s[i]) {
            assert forall|i: int| 0 <= i < t.len() implies f(t[i]) by {
                assert(t[i] == s[i]);
            }
            assert(t.push(s.last()) =~= s);
        }
    }
}

/// Every element kept by filtering satisfies `f`.
proof fn lemma_filter_members<A>(s: Seq<A>, f: spec_fn(A) -> bool)
    ensures
        forall|i: int| 0 <= i < s.filter(f).len() ==> f(#[trigger] s.filter(f)[i]),
    decreases s.len(),
{
    reveal(Seq::filter);
    if s.len() > 0 {
        lemma_filter_members(s.drop_last(), f);
        let ft = s.drop_last().filter(f);
        assert forall|i: int| 0 <= i < s.filter(f).len() implies f(#[trigger] s.filter(f)[i]) by {
            if i < ft.len() {
                assert(s.filter(f)[i] == ft[i]);
            }
        }
    }
}

/// A filter that keeps only what matches the scope keeps an entry exactly
/// when its path holds one of the tokens; with no tokens it keeps everything.
pub proof fn lemma_scope_keeps_matching(before: Data, after: Data, toks: Seq<Seq<char>>)
    requires
        before.after_filter(after, toks, false),
    ensures
        forall|i: int|
            0 <= i < before.uploads().len() ==> (after.uploads().contains(
                #[trigger] before.uploads()[i],
            ) <==> (toks.len() == 0 || matches_any(before.uploads()[i].rel_path@, toks))),
        forall|i: int|
            0 <= i < before.removals().len() ==> (after.removals().contains(
                #[trigger] before.removals()[i],
            ) <==> (toks.len() == 0 || matches_any(before.removals()[i], toks))),
        forall|i: int|
            0 <= i < before.renames().len() ==> (after.renames().contains(
                #[trigger] before.renames()[i],
            ) <==> (toks.len() == 0 || matches_any(before.renames()[i].current@, toks))),
        toks.len() == 0 ==> after.uploads() == before.uploads() && after.removals()
            == before.removals() && after.renames() == before.renames(),
{
    lemma_filter_keeps(before.uploads(), file_passes(toks, false));
    lemma_filter_keeps(before.removals(), path_passes(toks, false));
    lemma_filter_keeps(before.renames(), rename_passes(toks, false));
}

/// A filter that drops what matches keeps an entry exactly when its path
/// holds none of the tokens, in all three sets.
pub proof fn lemma_exclusion_drops_matching(before: Data, after: Data, toks: Seq<Seq<char>>)
    requires
        before.after_filter(after, toks, true),
    ensures
        forall|i: int|
            0 <= i < before.uploads().len() ==> (after.uploads().contains(
                #[trigger] before.uploads()[i],
            ) <==> !matches_any(before.uploads()[i].rel_path@, toks)),
        forall|i: int|
            0 <= i < before.removals().len() ==> (after.removals().contains(
                #[trigger] before.removals()[i],
            ) <==> !matches_any(before.removals()[i], toks)),
        forall|i: int|
            0 <= i < before.renames().len() ==> (after.renames().contains(
                #[trigger] before.renames()[i],
            ) <==> !matches_any(before.renames()[i].current@, toks)),
{
    lemma_filter_keeps(before.uploads(), file_passes(toks, true));
    lemma_filter_keeps(before.removals(), path_passes(toks, true));
    lemma_filter_keeps(before.renames(), rename_passes(toks, true));
}

/// Consolidated removals hold nothing redundant: no two kept folders overlap
/// (one a substring of the other), and no file left lies in a kept folder.
pub proof fn lemma_reconciled_is_minimal(ps: Seq<Seq<char>>)
    ensures
        forall|i: int, j: int|
            0 <= i < j < kept(by_depth(folders_in(ps))).len() ==> !overlaps(
                kept(by_depth(folders_in(ps)))[i],
                kept(by_depth(folders_in(ps)))[j],
            ),
        forall|i: int|
            kept(by_depth(folders_in(ps))).len() <= i < reconciled(ps).len() ==> !inside_any(
                #[trigger] reconciled(ps)[i],
                kept(by_depth(folders_in(ps))),
            ),
{
    let ks = kept(by_depth(folders_in(ps)));
    lemma_kept_apart(by_depth(folders_in(ps)));
    let fs = outside_all(files_in(ps), ks);
    lemma_filter_members(files_in(ps), |f: Seq<char>| !inside_any(f, ks));
    assert forall|i: int| ks.len() <= i < reconciled(ps).len() implies !inside_any(
        #[trigger] reconciled(ps)[i],
        ks,
    ) by {
        assert(reconciled(ps)[i] == fs[i - ks.len()]);
    }
}

/// No two folders kept from `sorted` overlap.
proof fn lemma_kept_apart(sorted: Seq<Seq<char>>)
    ensures
        forall|i: int, j: int| 0 <= i < j < kept(sorted).len() ==> !overlaps(kept(sorted)[i], kept(sorted)[j]),
    decreases sorted.len(),
{
    if sorted.len() > 0 {
        let k = kept(sorted.drop_last());
        lemma_kept_apart(sorted.drop_last());
        if !overlaps_any(k, sorted.last()) {
            let k2 = k.push(sorted.last());
            assert forall|i: int, j: int| 0 <= i < j < k2.len() implies !overlaps(k2[i], k2[j]) by {
                if j == k.len() {
                    assert(k2[i] == k[i]);
                    assert(!overlaps(k[i], sorted.last()));
                } else {
                    assert(k2[i] == k[i] && k2[j] == k[j]);
                }
            }
        }
    }
}

} // verus!
