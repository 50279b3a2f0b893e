//! Path strings as character sequences: substring search, removal of a
//! leading root (or of every occurrence of a string), separator
//! normalisation, depth, and the name-based test that tells files from
//! folders.
use vstd::prelude::*;

verus! {

/// `t` occurs in `s` starting at position `i`.
pub open spec fn occurs_at(s: Seq<char>, t: Seq<char>, i: int) -> bool {
    &&& 0 <= i
    &&& i + t.len() <= s.len()
    &&& s.subrange(i, i + t.len()) == t
}

/// `t` is a substring of `s` (the empty string is a substring of every string).
pub open spec fn has_substring(s: Seq<char>, t: Seq<char>) -> bool {
    exists|i: int| occurs_at(s, t, i)
}

/// `s` with every occurrence of `p` removed, occurrences taken left to right
/// without overlap; an empty `p` leaves `s` as it is.
pub open spec fn without(s: Seq<char>, p: Seq<char>) -> Seq<char>
    decreases s.len(),
{
    if p.len() == 0 || s.len() == 0 {
        s
    } else if occurs_at(s, p, 0) {
        without(s.subrange(p.len() as int, s.len() as int), p)
    } else {
        seq![s[0]] + without(s.subrange(1, s.len() as int), p)
    }
}

/// `s` without its leading `root`; `s` as it is when it does not start with
/// `root`.
pub open spec fn strip_root(s: Seq<char>, root: Seq<char>) -> Seq<char> {
    if root.len() <= s.len() && s.subrange(0, root.len() as int) == root {
        s.subrange(root.len() as int, s.len() as int)
    } else {
        s
    }
}

/// `s` with every backslash turned into a forward slash.
pub open spec fn slashed(s: Seq<char>) -> Seq<char> {
    s.map_values(|c: char| if c == '\\' { '/' } else { c })
}

/// The last `/`-separated segment of `p` holds a dot: `p` names a file.
pub open spec fn is_file_path(p: Seq<char>) -> bool {
    exists|i: int| 0 <= i < p.len() && p[i] == '.' && forall|j: int| i < j < p.len() ==> p[j] != '/'
}

/// Number of `/`-separated segments of `p`.
pub open spec fn depth(p: Seq<char>) -> nat {
    p.filter(|c: char| c == '/').len() + 1
}

/// The characters of `s`, one per element.
pub fn chars_of(s: &str) -> (r: Vec<char>)
    ensures
        r@ == s@,
{
    let mut r: Vec<char> = Vec::new();
    for c in it: s.chars()
        invariant
            r@ == it.seq().take(it.index()),
    {
        r.push(c);
    }
    r
}

/// Whether `t` occurs in `s` at position `i`.
fn occurs_at_exec(s: &Vec<char>, t: &Vec<char>, i: usize) -> (r: bool)
    requires
        i + t.len() <= s.len(),
    ensures
        r == occurs_at(s@, t@, i as int),
{
    let mut j: usize = 0;
    while j < t.len()
        invariant
            i + t.len() <= s.len(),
            j <= t.len(),
            forall|k: int| 0 <= k < j ==> s@[i + k] == t@[k],
        decreases t.len() - j,
    {
        if s[i + j] != t[j] {
            assert(s@.subrange(i as int, i + t.len())[j as int] == s@[i + j]);
            return false;
        }
        j += 1;
    }
    assert(s@.subrange(i as int, i + t.len()) =~= t@);
    true
}

/// Whether `t` is a substring of `s`, both given as characters.
pub fn has_substring_chars(s: &Vec<char>, t: &Vec<char>) -> (r: bool)
    ensures
        r == has_substring(s@, t@),
{
    if t.len() > s.len() {
        return false;
    }
    let last: usize = s.len() - t.len();
    let mut i: usize = 0;
    loop
        invariant
            last == s.len() - t.len(),
            i <= last,
            forall|k: int| 0 <= k < i ==> !occurs_at(s@, t@, k),
        decreases last - i,
    {
        if occurs_at_exec(s, t, i) {
            return true;
        }
        if i == last {
            assert forall|k: int| !occurs_at(s@, t@, k) by {
                if 0 <= k < i {
                }
            }
            return false;
        }
        i += 1;
    }
}

/// Whether `t` is a substring of `s`.
pub fn contains_str(s: &str, t: &str) -> (r: bool)
    ensures
        r == has_substring(s@, t@),
{
    let sc = chars_of(s);
    let tc = chars_of(t);
    has_substring_chars(&sc, &tc)
}

proof fn lemma_without_step(s: Seq<char>, p: Seq<char>, i: int)
    requires
        p.len() > 0,
        0 <= i < s.len(),
    ensures
        occurs_at(s, p, i) ==> without(s.subrange(i, s.len() as int), p) == without(
            s.subrange(i + p.len(), s.len() as int),
            p,
        ),
        !occurs_at(s, p, i) ==> without(s.subrange(i, s.len() as int), p) == seq![s[i]] + without(
            s.subrange(i + 1, s.len() as int),
            p,
        ),
{
    let u = s.subrange(i, s.len() as int);
    if occurs_at(s, p, i) {
        assert(u.subrange(0, p.len() as int) =~= s.subrange(i, i + p.len()));
        assert(u.subrange(p.len() as int, u.len() as int) =~= s.subrange(
            i + p.len(),
            s.len() as int,
        ));
    } else {
        if occurs_at(u, p, 0) {
            assert(u.subrange(0, p.len() as int) =~= s.subrange(i, i + p.len()));
        }
        assert(u.subrange(1, u.len() as int) =~= s.subrange(i + 1, s.len() as int));
    }
}

/// `s` with every occurrence of `p` removed (what `s.replace(p, "")` gives).
pub fn strip_all(s: &str, p: &str) -> (r: String)
    ensures
        r@ == without(s@, p@),
{
    let sc = chars_of(s);
    let pc = chars_of(p);
    let n: usize = sc.len();
    let m: usize = pc.len();
    if m == 0 {
        return s.to_owned();
    }
    let mut out = String::new();
    let mut start: usize = 0;
    let mut i: usize = 0;
    assert(s@.subrange(0, n as int) =~= s@);
    while i < n
        invariant
            n == s@.len(),
            sc@ == s@,
            pc@ == p@,
            m == p@.len(),
            m > 0,
            start <= i <= n,
            without(s@, p@) == out@ + s@.subrange(start as int, i as int) + without(
                s@.subrange(i as int, n as int),
                p@,
            ),
        decreases n - i,
    {
        proof {
            lemma_without_step(s@, p@, i as int);
        }
        if m <= n - i && occurs_at_exec(&sc, &pc, i) {
            let chunk = s.substring_char(start, i);
            out.append(chunk);
            i = i + m;
            start = i;
            assert(s@.subrange(start as int, i as int) =~= Seq::<char>::empty());
            assert(out@ + s@.subrange(start as int, i as int) =~= out@);
        } else {
            assert(!occurs_at(s@, p@, i as int));
            assert(s@.subrange(start as int, i as int) + seq![s@[i as int]] =~= s@.subrange(
                start as int,
                i + 1,
            ));
            i = i + 1;
        }
    }
    let rest = s.substring_char(start, n);
    out.append(rest);
    assert(s@.subrange(n as int, n as int) =~= Seq::<char>::empty());
    out
}

/// `s` without its leading `root`; a copy of `s` when it does not start
/// with `root`.
pub fn strip_prefix_text(s: &str, root: &str) -> (r: String)
    ensures
        r@ == strip_root(s@, root@),
{
    let sc = chars_of(s);
    let rc = chars_of(root);
    if rc.len() <= sc.len() && occurs_at_exec(&sc, &rc, 0) {
        String::from_str(s.substring_char(rc.len(), sc.len()))
    } else {
        s.to_owned()
    }
}

/// `s` with every backslash turned into a forward slash.
pub fn to_slashes(s: &str) -> (r: String)
    ensures
        r@ == slashed(s@),
{
    let sc = chars_of(s);
    let n: usize = sc.len();
    let mut out = String::new();
    let mut start: usize = 0;
    let mut i: usize = 0;
    let slash = "/";
    proof {
        reveal_strlit("/");
    }
    while i < n
        invariant
            n == s@.len(),
            sc@ == s@,
            slash@ == seq!['/'],
            start <= i <= n,
            out@ + s@.subrange(start as int, i as int) == slashed(s@).subrange(0, i as int),
        decreases n - i,
    {
        if sc[i] == '\\' {
            let chunk = s.substring_char(start, i);
            out.append(chunk);
            out.append(slash);
            assert(slashed(s@).subrange(0, i + 1) =~= slashed(s@).subrange(0, i as int).push('/'));
            i = i + 1;
            start = i;
            assert(s@.subrange(start as int, i as int) =~= Seq::<char>::empty());
        } else {
            assert(slashed(s@).subrange(0, i + 1) =~= slashed(s@).subrange(0, i as int).push(
                s@[i as int],
            ));
            assert(s@.subrange(start as int, i + 1) =~= s@.subrange(start as int, i as int).push(
                s@[i as int],
            ));
            i = i + 1;
        }
    }
    let rest = s.substring_char(start, n);
    out.append(rest);
    assert(slashed(s@).subrange(0, n as int) =~= slashed(s@));
    out
}

/// Whether the last `/`-separated segment of `p` holds a dot.
pub fn is_file_name(p: &str) -> (r: bool)
    ensures
        r == is_file_path(p@),
{
    let pc = chars_of(p);
    let n: usize = pc.len();
    let mut k: usize = n;
    while k > 0
        invariant
            pc@ == p@,
            n == p@.len(),
            k <= n,
            forall|j: int| k <= j < n ==> p@[j] != '/' && p@[j] != '.',
        decreases k,
    {
        k -= 1;
        if pc[k] == '.' {
            return true;
        }
        if pc[k] == '/' {
            assert forall|i: int| 0 <= i < p@.len() && p@[i] == '.' implies !(forall|j: int|
                i < j < p@.len() ==> p@[j] != '/') by {
                assert(i < k);
                assert(p@[k as int] == '/');
            }
            return false;
        }
    }
    false
}

/// Number of `/` characters in `p`: one less than its depth.
pub fn slash_count(p: &str) -> (r: usize)
    ensures
        r + 1 == depth(p@),
{
    let pc = chars_of(p);
    let n: usize = pc.len();
    let mut count: usize = 0;
    let mut i: usize = 0;
    while i < n
        invariant
            pc@ == p@,
            n == p@.len(),
            i <= n,
            count == p@.take(i as int).filter(|c: char| c == '/').len(),
            count <= i,
        decreases n - i,
    {
        proof {
            assert(p@.take(i + 1) =~= p@.take(i as int).push(p@[i as int]));
            p@.take(i as int).lemma_filter_push(p@[i as int], |c: char| c == '/');
        }
        if pc[i] == '/' {
            count += 1;
        }
        i += 1;
    }
    assert(p@.take(n as int) =~= p@);
    count
}

/// A copy of `v`, element by element.
pub fn copy_strings(v: &Vec<String>) -> (r: Vec<String>)
    ensures
        r@ == v@,
{
    let mut out: Vec<String> = Vec::new();
    let mut i: usize = 0;
    while i < v.len()
        invariant
            i <= v.len(),
            out@ == v@.take(i as int),
        decreases v.len() - i,
    {
        assert(v@.take(i + 1) =~= v@.take(i as int).push(v@[i as int]));
        out.push(v[i].clone());
        i += 1;
    }
    assert(v@.take(v.len() as int) =~= v@);
    out
}

/// The strings of an optional list; an absent list is empty.
pub open spec fn listed(v: Option<Vec<String>>) -> Seq<String> {
    match v {
        Some(v) => v@,
        None => Seq::empty(),
    }
}

} // verus!
