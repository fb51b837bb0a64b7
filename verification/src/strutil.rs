//! Small verified helpers for working with strings as character sequences.

use vstd::prelude::*;
use vstd::string::StrSliceExecFns;
use vstd::string::StringExecFns;

verus! {

/// The characters of `s`, collected for random access while scanning.
pub fn chars_of(s: &str) -> (r: Vec<char>)
    ensures
        r@ == s@,
{
    let n: usize = s.unicode_len();
    let mut r: Vec<char> = Vec::new();
    let mut i: usize = 0;
    while i < n
        invariant
            n == s@.len(),
            i <= n,
            r@ == s@.take(i as int),
        decreases n - i,
    {
        r.push(s.get_char(i));
        proof {
            assert(r@ =~= s@.take(i + 1));
        }
        i = i + 1;
    }
    proof {
        assert(s@.take(n as int) =~= s@);
    }
    r
}

/// Whether two string slices hold the same characters.
pub fn str_eq(a: &str, b: &str) -> (r: bool)
    ensures
        r == (a@ == b@),
{
    let an: usize = a.unicode_len();
    let bn: usize = b.unicode_len();
    if an != bn {
        return false;
    }
    let mut i: usize = 0;
    while i < an
        invariant
            an == a@.len(),
            an == b@.len(),
            i <= an,
            forall|k: int| 0 <= k < i ==> a@[k] == b@[k],
        decreases an - i,
    {
        if a.get_char(i) != b.get_char(i) {
            return false;
        }
        i = i + 1;
    }
    proof {
        assert(a@ =~= b@);
    }
    true
}

/// The position just after the last `/` in `p`, or `0` when `p` has none;
/// everything from there on is the file name.
pub open spec fn file_name_start(p: Seq<char>) -> int
    decreases p.len(),
{
    if p.len() == 0 {
        0
    } else if p[p.len() - 1] == '/' {
        p.len() as int
    } else {
        file_name_start(p.drop_last())
    }
}

pub proof fn lemma_file_name_start_bounds(p: Seq<char>)
    ensures
        0 <= file_name_start(p) <= p.len(),
    decreases p.len(),
{
    if p.len() > 0 && p[p.len() - 1] != '/' {
        lemma_file_name_start_bounds(p.drop_last());
    }
}

/// Position just after the last `/` of `p`, as `file_name_start` gives it.
pub fn find_file_name_start(p: &Vec<char>) -> (r: usize)
    ensures
        r == file_name_start(p@),
{
    let mut i: usize = p.len();
    proof {
        assert(p@.take(p@.len() as int) =~= p@);
    }
    while i > 0
        invariant
            i <= p@.len(),
            file_name_start(p@.take(i as int)) == file_name_start(p@),
        decreases i,
    {
        proof {
            assert(p@.take(i as int).drop_last() =~= p@.take(i - 1));
        }
        if p[i - 1] == '/' {
            return i;
        }
        i = i - 1;
    }
    proof {
        assert(p@.take(0) =~= Seq::<char>::empty());
    }
    0
}

/// True when `pat` occurs in `s` starting at position `i`.
pub open spec fn match_at(s: Seq<char>, pat: Seq<char>, i: int) -> bool {
    &&& 0 <= i
    &&& i + pat.len() <= s.len()
    &&& s.subrange(i, i + pat.len() as int) == pat
}

/// The first position at or after `i` where the non-empty `pat` occurs in
/// `s`.
pub open spec fn find_from(s: Seq<char>, pat: Seq<char>, i: int) -> Option<int>
    decreases s.len() - i,
{
    if i < 0 || pat.len() == 0 || i + pat.len() > s.len() {
        None
    } else if match_at(s, pat, i) {
        Some(i)
    } else {
        find_from(s, pat, i + 1)
    }
}

/// First occurrence of `pat` within `s` at or after `from`, as `find_from`
/// gives it.
pub fn find_pattern_from(s: &Vec<char>, pat: &Vec<char>, from: usize) -> (r: Option<usize>)
    requires
        pat@.len() >= 1,
        from <= s@.len(),
    ensures
        match r {
            Some(k) => Some(k as int) == find_from(s@, pat@, from as int) && from <= k && k
                + pat@.len() <= s@.len(),
            None => find_from(s@, pat@, from as int) is None,
        },
{
    let n: usize = s.len();
    let mut i: usize = from;
    loop
        invariant
            n == s@.len(),
            from <= i <= n,
            pat@.len() >= 1,
            find_from(s@, pat@, from as int) == find_from(s@, pat@, i as int),
        decreases n - i,
    {
        if n - i < pat.len() {
            return None;
        }
        let mut k: usize = 0;
        let mut matched: bool = true;
        while k < pat.len()
            invariant
                n == s@.len(),
                i + pat@.len() <= n,
                k <= pat@.len(),
                matched <==> (forall|t: int| 0 <= t < k ==> s@[i + t] == pat@[t]),
            decreases pat@.len() - k,
        {
            if p_char(s, i + k) != p_char(pat, k) {
                matched = false;
                k = pat.len();
            } else {
                k = k + 1;
            }
        }
        if matched {
            proof {
                assert(s@.subrange(i as int, i + pat@.len() as int) =~= pat@);
            }
            return Some(i);
        }
        proof {
            assert(!match_at(s@, pat@, i as int)) by {
                if match_at(s@, pat@, i as int) {
                    let t = choose|t: int|
                        0 <= t < pat@.len() && s@[i + t] != pat@[t];
                    assert(s@.subrange(i as int, i + pat@.len() as int)[t] == s@[i + t]);
                }
            }
        }
        i = i + 1;
    }
}

/// Read one character of `v`.
fn p_char(v: &Vec<char>, i: usize) -> (c: char)
    requires
        i < v@.len(),
    ensures
        c == v@[i as int],
{
    v[i]
}

/// The characters `v[from..to]`, copied out.
pub fn subvec(v: &Vec<char>, from: usize, to: usize) -> (r: Vec<char>)
    requires
        from <= to <= v@.len(),
    ensures
        r@ == v@.subrange(from as int, to as int),
{
    let mut r: Vec<char> = Vec::new();
    let mut i: usize = from;
    proof {
        assert(r@ =~= v@.subrange(from as int, from as int));
    }
    while i < to
        invariant
            from <= i <= to <= v@.len(),
            r@ == v@.subrange(from as int, i as int),
        decreases to - i,
    {
        r.push(v[i]);
        proof {
            assert(r@ =~= v@.subrange(from as int, i + 1));
        }
        i = i + 1;
    }
    r
}

/// True when `s` ends with `suffix`.
pub open spec fn ends_with(s: Seq<char>, suffix: Seq<char>) -> bool {
    s.len() >= suffix.len() && s.subrange(s.len() - suffix.len(), s.len() as int) == suffix
}

/// Whether the characters `s[from..to]` end with `suffix`, decided exactly
/// as `ends_with` says of that subrange.
pub fn range_ends_with(s: &Vec<char>, from: usize, to: usize, suffix: &Vec<char>) -> (r: bool)
    requires
        from <= to <= s@.len(),
    ensures
        r == ends_with(s@.subrange(from as int, to as int), suffix@),
{
    let m: usize = suffix.len();
    if to - from < m {
        return false;
    }
    let base: usize = to - m;
    let mut k: usize = 0;
    while k < m
        invariant
            from <= to <= s@.len(),
            m == suffix@.len(),
            m <= to - from,
            base == to - m,
            k <= m,
            forall|t: int| 0 <= t < k ==> s@[base + t] == suffix@[t],
        decreases m - k,
    {
        if p_char(s, base + k) != p_char(suffix, k) {
            proof {
                let sub = s@.subrange(from as int, to as int);
                assert(sub.subrange(sub.len() - m, sub.len() as int)[k as int] == s@[base + k]);
            }
            return false;
        }
        k = k + 1;
    }
    proof {
        let sub = s@.subrange(from as int, to as int);
        assert(sub.subrange(sub.len() - m, sub.len() as int) =~= suffix@);
    }
    true
}

/// True when `s` begins with `prefix`.
pub open spec fn begins_with(s: Seq<char>, prefix: Seq<char>) -> bool {
    s.len() >= prefix.len() && s.take(prefix.len() as int) == prefix
}

/// Whether the characters of `s` begin with those of `prefix`, decided
/// exactly as `begins_with` says.
pub fn chars_begin_with(s: &Vec<char>, prefix: &Vec<char>) -> (r: bool)
    ensures
        r == begins_with(s@, prefix@),
{
    let m: usize = prefix.len();
    if s.len() < m {
        return false;
    }
    let mut k: usize = 0;
    while k < m
        invariant
            m == prefix@.len(),
            m <= s@.len(),
            k <= m,
            forall|t: int| 0 <= t < k ==> s@[t] == prefix@[t],
        decreases m - k,
    {
        if p_char(s, k) != p_char(prefix, k) {
            proof {
                assert(s@.take(m as int)[k as int] == s@[k as int]);
            }
            return false;
        }
        k = k + 1;
    }
    proof {
        assert(s@.take(m as int) =~= prefix@);
    }
    true
}

/// True when path `p` lies under directory `dir`: `dir` is a proper
/// prefix and the next character is the separator (or `dir` already ends
/// with one).
pub open spec fn in_directory(p: Seq<char>, dir: Seq<char>) -> bool {
    if dir.len() > 0 && dir[dir.len() - 1] == '/' {
        begins_with(p, dir)
    } else {
        p.len() > dir.len() && p.take(dir.len() as int) == dir && p[dir.len() as int] == '/'
    }
}

/// Whether `p` names something under `dir`, decided exactly as
/// `in_directory` says.
pub fn path_in_directory(p: &str, dir: &str) -> (r: bool)
    ensures
        r == in_directory(p@, dir@),
{
    let pc = chars_of(p);
    let dc = chars_of(dir);
    let dn: usize = dc.len();
    if dn > 0 && p_char(&dc, dn - 1) == '/' {
        chars_begin_with(&pc, &dc)
    } else {
        if pc.len() <= dn {
            return false;
        }
        if p_char(&pc, dn) != '/' {
            return false;
        }
        let mut k: usize = 0;
        while k < dn
            invariant
                pc@ == p@,
                dc@ == dir@,
                dn == dc@.len(),
                dn < pc@.len(),
                !(dn > 0 && dc@[dn - 1] == '/'),
                pc@[dn as int] == '/',
                k <= dn,
                forall|t: int| 0 <= t < k ==> pc@[t] == dc@[t],
            decreases dn - k,
        {
            if p_char(&pc, k) != p_char(&dc, k) {
                proof {
                    assert(pc@.take(dn as int)[k as int] == pc@[k as int]);
                }
                return false;
            }
            k = k + 1;
        }
        proof {
            assert(pc@.take(dn as int) =~= dc@);
        }
        true
    }
}

/// `base` and `name` joined with a single `/` separator; a `base` already
/// ending in `/` gains no second one.
pub open spec fn joined_path(base: Seq<char>, name: Seq<char>) -> Seq<char> {
    if base.len() > 0 && base[base.len() - 1] == '/' {
        base + name
    } else {
        base + seq!['/'] + name
    }
}

/// Join a directory path and a file name, as `joined_path` says.
pub fn join_path(base: &str, name: &str) -> (r: String)
    ensures
        r@ == joined_path(base@, name@),
{
    proof {
        reveal_strlit("/");
    }
    let n: usize = base.unicode_len();
    let mut r = String::new();
    r.append(base);
    if n == 0 || base.get_char(n - 1) != '/' {
        r.append("/");
    }
    r.append(name);
    proof {
        assert(r@ =~= joined_path(base@, name@));
    }
    r
}

/// The directory part of `p`: everything before the last `/`, the whole of
/// `p` when it has none.
pub open spec fn parent_of(p: Seq<char>) -> Seq<char> {
    if file_name_start(p) == 0 {
        p
    } else {
        p.take(file_name_start(p) - 1)
    }
}

/// Directory part of a path, as `parent_of` says.
pub fn parent_dir(p: &str) -> (r: String)
    ensures
        r@ == parent_of(p@),
{
    let cs = chars_of(p);
    let start: usize = find_file_name_start(&cs);
    proof {
        lemma_file_name_start_bounds(p@);
    }
    if start == 0 {
        p.to_owned()
    } else {
        let head = p.substring_char(0, start - 1);
        proof {
            assert(head@ =~= parent_of(p@));
        }
        head.to_owned()
    }
}

} // verus!
