//! Windows path syntax on plain character sequences.
//!
//! Paths in this library are Windows paths whatever the host is: `\` and `/`
//! both separate components, `C:` is a drive prefix, `\\server\share` is a
//! UNC prefix, empty and `.` components are ignored (a leading `.` of a
//! path with no root excepted), and `..` is kept as a component that has no
//! file name. `file_name` and `parent` follow `std::path::Path` on Windows
//! for drive-letter, UNC and relative paths; a verbatim `\\?\UNC\` prefix is
//! read as a UNC prefix whose server is `?`.
use vstd::prelude::*;
use crate::text::{chars_of, eq_chars, is_ascii_alpha};

verus! {

pub open spec fn is_sep(c: char) -> bool {
    c == '\\' || c == '/'
}

pub fn is_separator(c: char) -> (b: bool)
    ensures
        b == is_sep(c),
{
    c == '\\' || c == '/'
}

/// Index of the first separator at or after `i` (or the length).
pub open spec fn comp_end(s: Seq<char>, i: int) -> int
    decreases s.len() - i,
{
    if 0 <= i < s.len() && !is_sep(s[i]) {
        comp_end(s, i + 1)
    } else {
        i
    }
}

/// Length of the path's prefix: `C:` (a drive letter) or `\\server\share`.
pub open spec fn prefix_len(s: Seq<char>) -> int {
    if s.len() >= 2 && is_sep(s[0]) && is_sep(s[1]) {
        let server_end = comp_end(s, 2);
        if server_end > 2 && server_end < s.len() {
            let share_end = comp_end(s, server_end + 1);
            if share_end > server_end + 1 {
                share_end
            } else {
                0
            }
        } else {
            0
        }
    } else if s.len() >= 2 && s[1] == ':' && is_ascii_alpha(s[0]) {
        2
    } else {
        0
    }
}

/// Where the path's components start: after the prefix and the root separator.
pub open spec fn root_end(s: Seq<char>) -> int {
    let p = prefix_len(s);
    if p < s.len() && is_sep(s[p]) {
        p + 1
    } else {
        p
    }
}

/// A leading `.` component is kept only when the path has no root.
pub open spec fn keeps_dot(s: Seq<char>) -> bool {
    root_end(s) == prefix_len(s)
}

/// Start of the run of non-separators that ends at `hi` (not before `lo`).
pub open spec fn run_start(s: Seq<char>, lo: int, hi: int) -> int
    decreases hi - lo,
{
    if lo < hi && !is_sep(s[hi - 1]) {
        run_start(s, lo, hi - 1)
    } else {
        hi
    }
}

/// `s[..hi]` with trailing separators and `.` components removed, not going
/// below `lo`.
pub open spec fn trim_back(s: Seq<char>, lo: int, hi: int, keep_dot: bool) -> int
    decreases hi - lo,
{
    if hi <= lo {
        hi
    } else if is_sep(s[hi - 1]) {
        trim_back(s, lo, hi - 1, keep_dot)
    } else {
        let st = run_start(s, lo, hi);
        if hi - st == 1 && s[st] == '.' && !(keep_dot && st == lo) {
            trim_back(s, lo, st, keep_dot)
        } else {
            hi
        }
    }
}

/// End of the last component (equal to `root_end` when there is none).
pub open spec fn last_end(s: Seq<char>) -> int {
    trim_back(s, root_end(s), s.len() as int, keeps_dot(s))
}

/// Start of the last component.
pub open spec fn last_start(s: Seq<char>) -> int {
    run_start(s, root_end(s), last_end(s))
}

/// `Path::file_name`: the last component unless it is `.` or `..` (or absent).
pub open spec fn file_name(s: Seq<char>) -> Option<Seq<char>> {
    let e = last_end(s);
    let st = last_start(s);
    let comp = s.subrange(st, e);
    if e == root_end(s) || comp == seq!['.'] || comp == seq!['.', '.'] {
        None
    } else {
        Some(comp)
    }
}

/// `Path::parent`: the path without its last component, or `None` when only
/// a prefix and root (or nothing) remain.
pub open spec fn parent(s: Seq<char>) -> Option<Seq<char>> {
    let e = last_end(s);
    if e == root_end(s) {
        None
    } else {
        Some(s.take(trim_back(s, root_end(s), last_start(s), keeps_dot(s))))
    }
}

pub proof fn lemma_comp_end(s: Seq<char>, i: int)
    requires
        0 <= i <= s.len(),
    ensures
        i <= comp_end(s, i) <= s.len(),
        comp_end(s, i) < s.len() ==> is_sep(s[comp_end(s, i)]),
    decreases s.len() - i,
{
    if i < s.len() && !is_sep(s[i]) {
        lemma_comp_end(s, i + 1);
    }
}

pub proof fn lemma_prefix(s: Seq<char>)
    ensures
        0 <= prefix_len(s) <= root_end(s) <= s.len(),
{
    if s.len() >= 2 && is_sep(s[0]) && is_sep(s[1]) {
        lemma_comp_end(s, 2);
        let server_end = comp_end(s, 2);
        if server_end > 2 && server_end < s.len() {
            lemma_comp_end(s, server_end + 1);
        }
    }
}

pub proof fn lemma_run_start(s: Seq<char>, lo: int, hi: int)
    requires
        lo <= hi,
    ensures
        lo <= run_start(s, lo, hi) <= hi,
        forall|k: int| run_start(s, lo, hi) <= k < hi ==> !is_sep(s[k]),
        run_start(s, lo, hi) > lo ==> is_sep(s[run_start(s, lo, hi) - 1]),
    decreases hi - lo,
{
    if lo < hi && !is_sep(s[hi - 1]) {
        lemma_run_start(s, lo, hi - 1);
    }
}

pub proof fn lemma_trim_back(s: Seq<char>, lo: int, hi: int, kd: bool)
    requires
        lo <= hi,
    ensures
        lo <= trim_back(s, lo, hi, kd) <= hi,
        trim_back(s, lo, hi, kd) > lo ==> !is_sep(s[trim_back(s, lo, hi, kd) - 1]),
    decreases hi - lo,
{
    if hi <= lo {
    } else if is_sep(s[hi - 1]) {
        lemma_trim_back(s, lo, hi - 1, kd);
    } else {
        lemma_run_start(s, lo, hi);
        let st = run_start(s, lo, hi);
        if hi - st == 1 && s[st] == '.' && !(kd && st == lo) {
            lemma_trim_back(s, lo, st, kd);
        }
    }
}

/// The parent of a path is strictly shorter than the path.
pub proof fn lemma_parent_shorter(s: Seq<char>)
    ensures
        parent(s) matches Some(p) ==> p.len() < s.len(),
{
    lemma_prefix(s);
    let r = root_end(s);
    lemma_trim_back(s, r, s.len() as int, keeps_dot(s));
    let e = last_end(s);
    if e != r {
        lemma_run_start(s, r, e);
        let st = last_start(s);
        assert(st < e);
        lemma_trim_back(s, r, st, keeps_dot(s));
    }
}

/// `run_start` computed.
pub fn run_start_exec(s: &Vec<char>, lo: usize, hi: usize) -> (r: usize)
    requires
        lo <= hi <= s@.len(),
    ensures
        r as int == run_start(s@, lo as int, hi as int),
{
    let mut h = hi;
    while h > lo && !is_separator(s[h - 1])
        invariant
            lo <= h <= hi <= s@.len(),
            run_start(s@, lo as int, h as int) == run_start(s@, lo as int, hi as int),
        decreases h,
    {
        h = h - 1;
    }
    h
}

/// `trim_back` computed.
pub fn trim_back_exec(s: &Vec<char>, lo: usize, hi: usize, keep_dot: bool) -> (r: usize)
    requires
        lo <= hi <= s@.len(),
    ensures
        r as int == trim_back(s@, lo as int, hi as int, keep_dot),
{
    let mut h = hi;
    loop
        invariant
            lo <= h <= hi <= s@.len(),
            trim_back(s@, lo as int, h as int, keep_dot) == trim_back(
                s@,
                lo as int,
                hi as int,
                keep_dot,
            ),
        decreases h,
    {
        if h <= lo {
            return h;
        }
        if is_separator(s[h - 1]) {
            h = h - 1;
        } else {
            let st = run_start_exec(s, lo, h);
            proof {
                lemma_run_start(s@, lo as int, h as int);
            }
            if h - st == 1 && s[st] == '.' && !(keep_dot && st == lo) {
                h = st;
            } else {
                return h;
            }
        }
    }
}

fn comp_end_exec(s: &Vec<char>, i: usize) -> (r: usize)
    requires
        i <= s@.len(),
    ensures
        r as int == comp_end(s@, i as int),
{
    let mut k = i;
    while k < s.len() && !is_separator(s[k])
        invariant
            i <= k <= s@.len(),
            comp_end(s@, k as int) == comp_end(s@, i as int),
        decreases s@.len() - k,
    {
        k = k + 1;
    }
    k
}

pub fn prefix_len_exec(s: &Vec<char>) -> (r: usize)
    ensures
        r as int == prefix_len(s@),
{
    proof {
        lemma_prefix(s@);
    }
    if s.len() >= 2 && is_separator(s[0]) && is_separator(s[1]) {
        let server_end = comp_end_exec(s, 2);
        proof {
            lemma_comp_end(s@, 2);
        }
        if server_end > 2 && server_end < s.len() {
            let share_end = comp_end_exec(s, server_end + 1);
            if share_end > server_end + 1 {
                share_end
            } else {
                0
            }
        } else {
            0
        }
    } else if s.len() >= 2 && s[1] == ':' && (('a' <= s[0] && s[0] <= 'z') || ('A' <= s[0]
        && s[0] <= 'Z')) {
        2
    } else {
        0
    }
}

pub fn root_end_exec(s: &Vec<char>) -> (r: usize)
    ensures
        r as int == root_end(s@),
        r <= s@.len(),
{
    proof {
        lemma_prefix(s@);
    }
    let p = prefix_len_exec(s);
    if p < s.len() && is_separator(s[p]) {
        p + 1
    } else {
        p
    }
}

/// `Path::file_name` on Windows.
pub fn file_name_exec(s: &Vec<char>) -> (r: Option<Vec<char>>)
    ensures
        r matches Some(v) ==> file_name(s@) == Some(v@),
        r is None ==> file_name(s@) is None,
{
    proof {
        lemma_prefix(s@);
    }
    let p = prefix_len_exec(s);
    let r = root_end_exec(s);
    let e = trim_back_exec(s, r, s.len(), r == p);
    proof {
        lemma_trim_back(s@, r as int, s@.len() as int, r == p);
    }
    if e == r {
        return None;
    }
    let st = run_start_exec(s, r, e);
    proof {
        lemma_run_start(s@, r as int, e as int);
    }
    let comp = crate::text::slice_chars(s, st, e);
    if (comp.len() == 1 && comp[0] == '.') || (comp.len() == 2 && comp[0] == '.' && comp[1]
        == '.') {
        proof {
            if comp@.len() == 1 {
                assert(comp@ =~= seq!['.']);
            } else {
                assert(comp@ =~= seq!['.', '.']);
            }
        }
        None
    } else {
        proof {
            assert(comp@ != seq!['.']);
            assert(comp@ != seq!['.', '.']);
        }
        Some(comp)
    }
}

/// `Path::parent` on Windows.
pub fn parent_exec(s: &Vec<char>) -> (r: Option<Vec<char>>)
    ensures
        r matches Some(v) ==> parent(s@) == Some(v@),
        r is None ==> parent(s@) is None,
{
    proof {
        lemma_prefix(s@);
    }
    let p = prefix_len_exec(s);
    let r = root_end_exec(s);
    let e = trim_back_exec(s, r, s.len(), r == p);
    proof {
        lemma_trim_back(s@, r as int, s@.len() as int, r == p);
    }
    if e == r {
        return None;
    }
    let st = run_start_exec(s, r, e);
    proof {
        lemma_run_start(s@, r as int, e as int);
    }
    let pe = trim_back_exec(s, r, st, r == p);
    proof {
        lemma_trim_back(s@, r as int, st as int, r == p);
        assert(s@.subrange(0, pe as int) =~= s@.take(pe as int));
    }
    Some(crate::text::slice_chars(s, 0, pe))
}

/// Every ancestor of `s`, nearest first, stopping before an empty path.
pub open spec fn ancestors(s: Seq<char>) -> Seq<Seq<char>>
    decreases s.len(),
{
    match parent(s) {
        Some(p) => {
            if p.len() == 0 {
                Seq::empty()
            } else {
                proof {
                    lemma_parent_shorter(s);
                }
                seq![p] + ancestors(p)
            }
        },
        None => Seq::empty(),
    }
}

/// The position of the last `c` in `s`, or -1.
pub open spec fn last_index(s: Seq<char>, c: char) -> int
    decreases s.len(),
{
    if s.len() == 0 {
        -1
    } else if s.last() == c {
        s.len() - 1
    } else {
        last_index(s.drop_last(), c)
    }
}

pub proof fn lemma_last_index(s: Seq<char>, c: char)
    ensures
        -1 <= last_index(s, c) < s.len(),
        last_index(s, c) >= 0 ==> s[last_index(s, c)] == c,
        forall|j: int| last_index(s, c) < j < s.len() ==> s[j] != c,
    decreases s.len(),
{
    if s.len() > 0 && s.last() != c {
        lemma_last_index(s.drop_last(), c);
        assert forall|j: int| last_index(s, c) < j < s.len() implies s[j] != c by {
            if j < s.len() - 1 {
                assert(s[j] == s.drop_last()[j]);
            }
        }
    }
}

/// `Path::extension` of a file name: the text after its last `.`, unless
/// there is no dot or the only dot starts the name.
pub open spec fn name_extension(name: Seq<char>) -> Option<Seq<char>> {
    let i = last_index(name, '.');
    if i <= 0 {
        None
    } else {
        Some(name.skip(i + 1))
    }
}

/// `Path::extension`.
pub open spec fn extension(s: Seq<char>) -> Option<Seq<char>> {
    match file_name(s) {
        Some(n) => name_extension(n),
        None => None,
    }
}

/// `name_extension`, computed.
pub fn name_extension_exec(name: &Vec<char>) -> (r: Option<Vec<char>>)
    ensures
        r matches Some(v) ==> name_extension(name@) == Some(v@),
        r is None ==> name_extension(name@) is None,
{
    let mut i: usize = name.len();
    proof {
        assert(name@.take(i as int) =~= name@);
    }
    while i > 0
        invariant
            i <= name@.len(),
            last_index(name@, '.') == last_index(name@.take(i as int), '.'),
        decreases i,
    {
        if name[i - 1] == '.' {
            proof {
                assert(name@.take(i as int).last() == '.');
            }
            if i - 1 == 0 {
                return None;
            }
            proof {
                assert(name@.take(i as int).drop_last() =~= name@.take(i - 1));
            }
            let v = crate::text::slice_chars(name, i, name.len());
            proof {
                assert(v@ =~= name@.skip(i as int));
            }
            return Some(v);
        }
        proof {
            assert(name@.take(i as int).drop_last() =~= name@.take(i - 1));
        }
        i = i - 1;
    }
    proof {
        assert(name@.take(0) =~= Seq::<char>::empty());
    }
    None
}

/// The components of a path: the runs between separators (`\` or `/`),
/// read from position `i` on, with `cur` the run begun before it.
pub open spec fn components_from(s: Seq<char>, i: int, cur: Seq<char>) -> Seq<Seq<char>>
    decreases s.len() - i,
{
    if i >= s.len() {
        if cur.len() > 0 {
            seq![cur]
        } else {
            Seq::empty()
        }
    } else if is_sep(s[i]) {
        (if cur.len() > 0 {
            seq![cur]
        } else {
            Seq::empty()
        }) + components_from(s, i + 1, Seq::empty())
    } else {
        components_from(s, i + 1, cur.push(s[i]))
    }
}

/// The components of a path.
pub open spec fn components(s: Seq<char>) -> Seq<Seq<char>> {
    components_from(s, 0, Seq::empty())
}

/// Whether `base`'s components begin `path`'s: `path` is `base` or lies
/// below it.
pub open spec fn path_within(path: Seq<char>, base: Seq<char>) -> bool {
    let p = components(path);
    let b = components(base);
    b.len() <= p.len() && p.take(b.len() as int) == b
}

proof fn lemma_components_step(s: Seq<char>, i: int, cur: Seq<char>)
    requires
        0 <= i < s.len(),
    ensures
        components_from(s, i, cur) == if is_sep(s[i]) {
            (if cur.len() > 0 {
                seq![cur]
            } else {
                Seq::<Seq<char>>::empty()
            }) + components_from(s, i + 1, Seq::empty())
        } else {
            components_from(s, i + 1, cur.push(s[i]))
        },
{
}

/// The components of a path, in order.
fn path_components(s: &Vec<char>) -> (r: Vec<Vec<char>>)
    ensures
        r@.map_values(|c: Vec<char>| c@) == components(s@),
{
    let mut out: Vec<Vec<char>> = Vec::new();
    let mut cur: Vec<char> = Vec::new();
    let mut i: usize = 0;
    while i < s.len()
        invariant
            i <= s@.len(),
            out@.map_values(|c: Vec<char>| c@) + components_from(s@, i as int, cur@) == components(s@),
        decreases s@.len() - i,
    {
        proof {
            lemma_components_step(s@, i as int, cur@);
        }
        let c = s[i];
        if is_separator(c) {
            if cur.len() > 0 {
                let ghost before = out@.map_values(|c: Vec<char>| c@);
                let ghost piece = cur@;
                out.push(cur);
                proof {
                    assert(out@.map_values(|c: Vec<char>| c@) =~= before.push(piece));
                    assert(before.push(piece) + components_from(s@, i + 1, Seq::empty()) =~= before + (
                    seq![piece] + components_from(s@, i + 1, Seq::empty())));
                }
            } else {
                proof {
                    assert(Seq::<Seq<char>>::empty() + components_from(s@, i + 1, Seq::empty())
                        =~= components_from(s@, i + 1, Seq::empty()));
                }
            }
            cur = Vec::new();
            proof {
                assert(cur@ =~= Seq::<char>::empty());
            }
        } else {
            cur.push(c);
        }
        i = i + 1;
    }
    if cur.len() > 0 {
        let ghost before = out@.map_values(|c: Vec<char>| c@);
        let ghost piece = cur@;
        out.push(cur);
        proof {
            assert(out@.map_values(|c: Vec<char>| c@) =~= before.push(piece));
            assert(before + seq![piece] =~= before.push(piece));
        }
    } else {
        proof {
            assert(out@.map_values(|c: Vec<char>| c@) + Seq::<Seq<char>>::empty() =~= out@.map_values(|c: Vec<char>| c@));
        }
    }
    out
}

/// Whether `path` is `base` or lies below it, component by component.
pub fn path_starts_with(path: &str, base: &str) -> (b: bool)
    ensures
        b == path_within(path@, base@),
{
    let pc = chars_of(path);
    let qc = chars_of(base);
    let p = path_components(&pc);
    let q = path_components(&qc);
    let ghost pv = p@.map_values(|c: Vec<char>| c@);
    let ghost qv = q@.map_values(|c: Vec<char>| c@);
    if q.len() > p.len() {
        return false;
    }
    let mut i: usize = 0;
    while i < q.len()
        invariant
            i <= q@.len() <= p@.len(),
            pv == p@.map_values(|c: Vec<char>| c@),
            qv == q@.map_values(|c: Vec<char>| c@),
            pv == components(path@),
            qv == components(base@),
            forall|j: int| 0 <= j < i ==> pv[j] == qv[j],
        decreases q@.len() - i,
    {
        if !eq_chars(&p[i], &q[i]) {
            proof {
                assert(pv[i as int] == p@[i as int]@);
                assert(qv[i as int] == q@[i as int]@);
                assert(pv.take(qv.len() as int)[i as int] != qv[i as int]);
                assert(pv.take(qv.len() as int) != qv);
            }
            return false;
        }
        i = i + 1;
    }
    proof {
        assert(pv.take(qv.len() as int) =~= qv);
    }
    true
}

} // verus!
