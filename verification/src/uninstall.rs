//! Installed applications: how their names are matched on disk, how their
//! uninstall commands are read and launched, and the script that forces an
//! application off the machine when its own uninstaller cannot.
use vstd::prelude::*;
use crate::text::{
    ascii_lower, ascii_lower_char, chars_of, contains, contains_chars, eq_chars, is_ascii_alnum,
    find, find_chars, is_ascii_digit, is_white, is_whitespace, lemma_find_from_bounds, lowercase,
    push_str, slice_chars, string_of, to_lowercase, trim, trim_char, trim_char_chars, trim_chars,
    ends_with, ends_with_chars,
};
use crate::shell::path_is_file;
use crate::commands::{recycle_commands, recycle_item_script_commands, SCRIPT_HEADER};
use crate::text::{escape_quotes, escape_single_quotes};
use crate::winpath::{file_name, file_name_exec, last_index, lemma_last_index, name_extension, name_extension_exec, path_starts_with, path_within};
use crate::order::{order_desc, pick, stable_desc_order};
use crate::text::{starts_with, starts_with_chars};

verus! {

/// The characters of a name that identify it on disk: ASCII letters and
/// digits, lowercased (`Google Chrome` → `googlechrome`).
pub open spec fn norm_spec(s: Seq<char>) -> Seq<char>
    decreases s.len(),
{
    if s.len() == 0 {
        Seq::empty()
    } else {
        norm_spec(s.drop_last()) + if is_ascii_alnum(s.last()) {
            seq![ascii_lower(s.last())]
        } else {
            Seq::empty()
        }
    }
}

pub fn norm_chars(s: &Vec<char>) -> (r: Vec<char>)
    ensures
        r@ == norm_spec(s@),
{
    let mut out: Vec<char> = Vec::new();
    let mut i: usize = 0;
    while i < s.len()
        invariant
            i <= s@.len(),
            out@ == norm_spec(s@.take(i as int)),
        decreases s@.len() - i,
    {
        proof {
            assert(s@.take(i + 1).drop_last() =~= s@.take(i as int));
        }
        let c = s[i];
        if ('0' <= c && c <= '9') || ('a' <= c && c <= 'z') || ('A' <= c && c <= 'Z') {
            out.push(ascii_lower_char(c));
        }
        proof {
            assert(out@ =~= norm_spec(s@.take(i + 1)));
        }
        i = i + 1;
    }
    proof {
        assert(s@.take(s@.len() as int) =~= s@);
    }
    out
}

/// Normalises a name for matching: its ASCII letters and digits, lowercased.
pub fn norm(s: &str) -> (r: String)
    ensures
        r@ == norm_spec(s@),
{
    let v = chars_of(s);
    let n = norm_chars(&v);
    string_of(&n)
}

/// Splitting on whitespace: the words finished so far and the one in progress.
pub open spec fn word_split(s: Seq<char>) -> (Seq<Seq<char>>, Seq<char>)
    decreases s.len(),
{
    if s.len() == 0 {
        (Seq::empty(), Seq::empty())
    } else {
        let (done, cur) = word_split(s.drop_last());
        if is_white(s.last()) {
            if cur.len() > 0 {
                (done.push(cur), Seq::empty())
            } else {
                (done, Seq::empty())
            }
        } else {
            (done, cur.push(s.last()))
        }
    }
}

/// `str::split_whitespace`: the maximal runs of non-whitespace characters.
pub open spec fn words(s: Seq<char>) -> Seq<Seq<char>> {
    let (done, cur) = word_split(s);
    if cur.len() > 0 {
        done.push(cur)
    } else {
        done
    }
}

/// The words of `s` joined by single spaces.
pub open spec fn join_words(ws: Seq<Seq<char>>) -> Seq<char>
    decreases ws.len(),
{
    if ws.len() == 0 {
        Seq::empty()
    } else if ws.len() == 1 {
        ws[0]
    } else {
        join_words(ws.drop_last()) + seq![' '] + ws.last()
    }
}

pub open spec fn char_views(v: Seq<Vec<char>>) -> Seq<Seq<char>> {
    v.map_values(|w: Vec<char>| w@)
}

/// The words of `s`, computed.
pub fn words_of(s: &Vec<char>) -> (r: Vec<Vec<char>>)
    ensures
        char_views(r@) == words(s@),
{
    let mut done: Vec<Vec<char>> = Vec::new();
    let mut cur: Vec<char> = Vec::new();
    let mut i: usize = 0;
    while i < s.len()
        invariant
            i <= s@.len(),
            (char_views(done@), cur@) == word_split(s@.take(i as int)),
        decreases s@.len() - i,
    {
        proof {
            assert(s@.take(i + 1).drop_last() =~= s@.take(i as int));
            assert(s@.take(i + 1).last() == s@[i as int]);
        }
        let c = s[i];
        if is_whitespace(c) {
            if cur.len() > 0 {
                let ghost prev = done@;
                let w = cur;
                done.push(w);
                cur = Vec::new();
                proof {
                    assert(char_views(done@) =~= char_views(prev).push(w@));
                }
            }
        } else {
            cur.push(c);
        }
        i = i + 1;
    }
    proof {
        assert(s@.take(s@.len() as int) =~= s@);
    }
    if cur.len() > 0 {
        let ghost prev = done@;
        let w = cur;
        done.push(w);
        proof {
            assert(char_views(done@) =~= char_views(prev).push(w@));
        }
    }
    done
}

/// The words joined by single spaces, computed.
pub fn join_with_spaces(ws: &Vec<Vec<char>>) -> (r: Vec<char>)
    ensures
        r@ == join_words(char_views(ws@)),
{
    let mut out: Vec<char> = Vec::new();
    let mut i: usize = 0;
    while i < ws.len()
        invariant
            i <= ws@.len(),
            out@ == join_words(char_views(ws@).take(i as int)),
        decreases ws@.len() - i,
    {
        let ghost t = char_views(ws@).take(i + 1);
        proof {
            assert(t.drop_last() =~= char_views(ws@).take(i as int));
            assert(t.last() == ws@[i as int]@);
        }
        if i > 0 {
            out.push(' ');
        }
        let w = &ws[i];
        let mut k: usize = 0;
        let ghost before = out@;
        while k < w.len()
            invariant
                k <= w@.len(),
                out@ == before + w@.take(k as int),
            decreases w@.len() - k,
        {
            out.push(w[k]);
            proof {
                assert(w@.take(k + 1) =~= w@.take(k as int).push(w@[k as int]));
            }
            k = k + 1;
        }
        proof {
            assert(w@.take(w@.len() as int) =~= w@);
            if i == 0 {
                assert(t.len() == 1);
                assert(out@ =~= t[0]);
            } else {
                assert(out@ =~= join_words(t.drop_last()) + seq![' '] + t.last());
            }
        }
        i = i + 1;
    }
    proof {
        assert(char_views(ws@).take(ws@.len() as int) =~= char_views(ws@));
    }
    out
}

/// `trim_matches(|c| c == '(' || c == ')')`.
pub open spec fn strip_parens_start(s: Seq<char>) -> Seq<char>
    decreases s.len(),
{
    if s.len() > 0 && (s[0] == '(' || s[0] == ')') {
        strip_parens_start(s.drop_first())
    } else {
        s
    }
}

pub open spec fn strip_parens_end(s: Seq<char>) -> Seq<char>
    decreases s.len(),
{
    if s.len() > 0 && (s.last() == '(' || s.last() == ')') {
        strip_parens_end(s.drop_last())
    } else {
        s
    }
}

pub open spec fn strip_parens(s: Seq<char>) -> Seq<char> {
    strip_parens_end(strip_parens_start(s))
}

/// Only digits, dots and `v`/`V`, with at least one digit: a version.
pub open spec fn looks_like_version(t: Seq<char>) -> bool {
    (forall|i: int| 0 <= i < t.len() ==> (is_ascii_digit(#[trigger] t[i]) || t[i] == '.' || t[i] == 'v' || t[i] == 'V'))
        && (exists|i: int| 0 <= i < t.len() && is_ascii_digit(#[trigger] t[i]))
}

/// An architecture tag (compared lowercased).
pub open spec fn is_arch_tag(lower: Seq<char>) -> bool {
    lower == "x64"@ || lower == "x86"@ || lower == "64-bit"@ || lower == "32-bit"@
}

/// A word of an app name that is part of the name rather than a version or
/// architecture suffix.
pub open spec fn keeps_word(w: Seq<char>) -> bool {
    let t = strip_parens(w);
    !looks_like_version(t) && !is_arch_tag(lowercase(t))
}

pub open spec fn kept_words(ws: Seq<Seq<char>>) -> Seq<Seq<char>>
    decreases ws.len(),
{
    if ws.len() == 0 {
        Seq::empty()
    } else {
        kept_words(ws.drop_last()) + if keeps_word(ws.last()) {
            seq![ws.last()]
        } else {
            Seq::empty()
        }
    }
}

/// An app name without trailing version-like tokens
/// (`Foo 2.3.1 (x64)` → `Foo`).
pub open spec fn base_name_spec(name: Seq<char>) -> Seq<char> {
    join_words(kept_words(words(name)))
}

fn strip_parens_chars(w: &Vec<char>) -> (r: Vec<char>)
    ensures
        r@ == strip_parens(w@),
{
    let n = w.len();
    let mut lo: usize = 0;
    proof {
        assert(w@.skip(0) =~= w@);
    }
    while lo < n && (w[lo] == '(' || w[lo] == ')')
        invariant
            n == w@.len(),
            lo <= n,
            strip_parens_start(w@) == strip_parens_start(w@.skip(lo as int)),
        decreases n - lo,
    {
        proof {
            assert(w@.skip(lo as int).drop_first() =~= w@.skip(lo + 1));
        }
        lo = lo + 1;
    }
    let mut hi: usize = n;
    proof {
        assert(w@.skip(lo as int).len() == 0 || !(w@.skip(lo as int)[0] == '(' || w@.skip(lo as int)[0] == ')'));
        assert(strip_parens_start(w@) == w@.skip(lo as int));
        assert(w@.subrange(lo as int, hi as int) =~= w@.skip(lo as int));
    }
    while hi > lo && (w[hi - 1] == '(' || w[hi - 1] == ')')
        invariant
            n == w@.len(),
            lo <= hi <= n,
            strip_parens(w@) == strip_parens_end(w@.subrange(lo as int, hi as int)),
        decreases hi - lo,
    {
        proof {
            assert(w@.subrange(lo as int, hi as int).drop_last() =~= w@.subrange(lo as int, hi - 1));
        }
        hi = hi - 1;
    }
    crate::text::slice_chars(w, lo, hi)
}

fn looks_like_version_chars(t: &Vec<char>) -> (b: bool)
    ensures
        b == looks_like_version(t@),
{
    let mut all = true;
    let mut any = false;
    let mut i: usize = 0;
    while i < t.len()
        invariant
            i <= t@.len(),
            all == (forall|j: int| 0 <= j < i ==> (is_ascii_digit(#[trigger] t@[j]) || t@[j] == '.' || t@[j] == 'v' || t@[j] == 'V')),
            any == (exists|j: int| 0 <= j < i && is_ascii_digit(#[trigger] t@[j])),
        decreases t@.len() - i,
    {
        let c = t[i];
        let digit = '0' <= c && c <= '9';
        if !(digit || c == '.' || c == 'v' || c == 'V') {
            all = false;
        }
        if digit {
            any = true;
        }
        proof {
            if !all && (digit || c == '.' || c == 'v' || c == 'V') {
                let j = choose|j: int| 0 <= j < i && !(is_ascii_digit(#[trigger] t@[j]) || t@[j] == '.' || t@[j] == 'v' || t@[j] == 'V');
            }
            if any && !digit {
                let j = choose|j: int| 0 <= j < i && is_ascii_digit(#[trigger] t@[j]);
                assert(0 <= j < i + 1 && is_ascii_digit(t@[j]));
            }
            if digit {
                assert(is_ascii_digit(t@[i as int]));
            }
        }
        i = i + 1;
    }
    all && any
}

fn keeps_word_chars(w: &Vec<char>) -> (b: bool)
    ensures
        b == keeps_word(w@),
{
    let t = strip_parens_chars(w);
    if looks_like_version_chars(&t) {
        return false;
    }
    let ts = string_of(&t);
    let lower_s = to_lowercase(ts.as_str());
    let lower = chars_of(lower_s.as_str());
    let a = chars_of("x64");
    let b = chars_of("x86");
    let c = chars_of("64-bit");
    let d = chars_of("32-bit");
    !(eq_chars(&lower, &a) || eq_chars(&lower, &b) || eq_chars(&lower, &c) || eq_chars(&lower, &d))
}

fn base_words(name: &Vec<char>) -> (r: Vec<Vec<char>>)
    ensures
        char_views(r@) == kept_words(words(name@)),
{
    let ws = words_of(name);
    let mut out: Vec<Vec<char>> = Vec::new();
    let mut i: usize = 0;
    while i < ws.len()
        invariant
            i <= ws@.len(),
            char_views(out@) == kept_words(char_views(ws@).take(i as int)),
        decreases ws@.len() - i,
    {
        proof {
            let t = char_views(ws@).take(i + 1);
            assert(t.drop_last() =~= char_views(ws@).take(i as int));
            assert(t.last() == ws@[i as int]@);
        }
        if keeps_word_chars(&ws[i]) {
            let ghost prev = out@;
            let w = ws[i].clone();
            out.push(w);
            proof {
                assert(char_views(out@) =~= char_views(prev).push(ws@[i as int]@));
            }
        }
        i = i + 1;
    }
    proof {
        assert(char_views(ws@).take(ws@.len() as int) =~= char_views(ws@));
    }
    out
}

/// App name without trailing version-like tokens ("Foo 2.3.1 (x64)" → "Foo").
pub fn base_name(name: &str) -> (r: String)
    ensures
        r@ == base_name_spec(name@),
{
    let v = chars_of(name);
    let ws = base_words(&v);
    let j = join_with_spaces(&ws);
    string_of(&j)
}

/// Drops names shorter than three characters.
pub open spec fn long_enough(vs: Seq<Seq<char>>) -> Seq<Seq<char>>
    decreases vs.len(),
{
    if vs.len() == 0 {
        Seq::empty()
    } else {
        long_enough(vs.drop_last()) + if vs.last().len() >= 3 {
            seq![vs.last()]
        } else {
            Seq::empty()
        }
    }
}

/// Removes consecutive repeats (`Vec::dedup`).
pub open spec fn dedup<A>(s: Seq<A>) -> Seq<A>
    decreases s.len(),
{
    if s.len() == 0 {
        Seq::empty()
    } else {
        let d = dedup(s.drop_last());
        if d.len() > 0 && d.last() == s.last() {
            d
        } else {
            d.push(s.last())
        }
    }
}

/// The normalised first word of the publisher (empty when there is none).
pub open spec fn publisher_first(publisher: Seq<char>) -> Seq<char> {
    if words(publisher).len() > 0 {
        norm_spec(words(publisher)[0])
    } else {
        Seq::empty()
    }
}

/// The name forms before the short ones are dropped: the full name, the
/// name without version or architecture suffixes, and, when the name starts
/// with the publisher's first word ("Google Chrome" by Google), the rest of
/// the name ("Chrome").
pub open spec fn raw_variants(name: Seq<char>, publisher: Seq<char>) -> Seq<Seq<char>> {
    let base = base_name_spec(name);
    let toks = words(base);
    let pf = publisher_first(publisher);
    let two = seq![norm_spec(name), norm_spec(base)];
    if toks.len() >= 2 && pf.len() > 0 && norm_spec(toks[0]) == pf {
        two.push(norm_spec(join_words(toks.skip(1))))
    } else {
        two
    }
}

/// The normalised forms an app can plausibly appear under on disk, shared by
/// leftover-folder, shortcut and process matching so all three agree on
/// what counts as "this app". Every form is ASCII, so its length in
/// characters is its length in bytes.
pub open spec fn name_variants_spec(name: Seq<char>, publisher: Seq<char>) -> Seq<Seq<char>> {
    dedup(long_enough(raw_variants(name, publisher)))
}

pub open spec fn string_views(v: Seq<String>) -> Seq<Seq<char>> {
    v.map_values(|s: String| s@)
}

/// Normalized name forms an app can plausibly appear under on disk.
pub fn name_variants(name: &str, publisher: &str) -> (r: Vec<String>)
    ensures
        string_views(r@) == name_variants_spec(name@, publisher@),
{
    let name_chars = chars_of(name);
    let base_ws = base_words(&name_chars);
    let base = join_with_spaces(&base_ws);
    let toks = words_of(&base);
    let pub_chars = chars_of(publisher);
    let pub_words = words_of(&pub_chars);
    let pf: Vec<char> = if pub_words.len() > 0 {
        norm_chars(&pub_words[0])
    } else {
        Vec::new()
    };
    let mut raw: Vec<Vec<char>> = Vec::new();
    raw.push(norm_chars(&name_chars));
    raw.push(norm_chars(&base));
    let mut extra = false;
    if toks.len() >= 2 && pf.len() > 0 {
        let first = norm_chars(&toks[0]);
        if eq_chars(&first, &pf) {
            extra = true;
        }
    }
    if extra {
        let mut rest: Vec<Vec<char>> = Vec::new();
        let mut k: usize = 1;
        while k < toks.len()
            invariant
                1 <= k <= toks@.len(),
                char_views(rest@) == char_views(toks@).skip(1).take(k - 1),
            decreases toks@.len() - k,
        {
            let ghost prev = rest@;
            rest.push(toks[k].clone());
            proof {
                assert(char_views(rest@) =~= char_views(prev).push(toks@[k as int]@));
                assert(char_views(toks@).skip(1).take(k as int) =~= char_views(toks@).skip(1).take(
                    k - 1,
                ).push(toks@[k as int]@));
            }
            k = k + 1;
        }
        proof {
            assert(char_views(toks@).skip(1).take(toks@.len() - 1) =~= char_views(toks@).skip(1));
        }
        let joined = join_with_spaces(&rest);
        raw.push(norm_chars(&joined));
    }
    proof {
        assert(char_views(raw@) =~= raw_variants(name@, publisher@));
    }
    let mut out: Vec<String> = Vec::new();
    let mut i: usize = 0;
    while i < raw.len()
        invariant
            i <= raw@.len(),
            string_views(out@) == dedup(long_enough(char_views(raw@).take(i as int))),
        decreases raw@.len() - i,
    {
        let ghost t = char_views(raw@).take(i + 1);
        proof {
            assert(t.drop_last() =~= char_views(raw@).take(i as int));
            assert(t.last() == raw@[i as int]@);
        }
        let ghost before = string_views(out@);
        if raw[i].len() >= 3 {
            let dup = out.len() > 0 && {
                let last = chars_of(out[out.len() - 1].as_str());
                eq_chars(&last, &raw[i])
            };
            proof {
                let l = long_enough(t.drop_last());
                assert(long_enough(t) == l.push(t.last()));
                assert(l.push(t.last()).drop_last() =~= l);
                assert(l.push(t.last()).last() == t.last());
                assert(before == dedup(l));
                if out@.len() > 0 {
                    assert(before.last() == out@[out@.len() - 1]@);
                }
            }
            if !dup {
                let s = string_of(&raw[i]);
                out.push(s);
                proof {
                    assert(string_views(out@) =~= before.push(s@));
                }
            }
        } else {
            proof {
                assert(long_enough(t) == long_enough(t.drop_last()));
            }
        }
        i = i + 1;
    }
    proof {
        assert(char_views(raw@).take(raw@.len() as int) =~= char_views(raw@));
    }
    out
}

/// Only Microsoft Edge itself, not a product that merely mentions it.
pub open spec fn is_edge_spec(name: Seq<char>) -> bool {
    norm_spec(name) == "microsoftedge"@
}

pub fn is_edge(name: &str) -> (b: bool)
    ensures
        b == is_edge_spec(name@),
{
    let v = chars_of(name);
    let n = norm_chars(&v);
    let e = chars_of("microsoftedge");
    eq_chars(&n, &e)
}

/// The value of a run of decimal digits.
pub open spec fn digits_value(d: Seq<char>) -> int
    decreases d.len(),
{
    if d.len() == 0 {
        0
    } else {
        digits_value(d.drop_last()) * 10 + (d.last() as int - '0' as int)
    }
}

pub open spec fn all_digits(d: Seq<char>) -> bool {
    forall|i: int| 0 <= i < d.len() ==> is_ascii_digit(#[trigger] d[i])
}

/// `u32::from_str`: an optional `+` and at least one decimal digit, with a
/// value that fits.
pub open spec fn parse_u32_spec(p: Seq<char>) -> Option<u32> {
    let d = if p.len() > 0 && p[0] == '+' {
        p.drop_first()
    } else {
        p
    };
    if d.len() > 0 && all_digits(d) && digits_value(d) <= u32::MAX {
        Some(digits_value(d) as u32)
    } else {
        None
    }
}

proof fn lemma_digits_grow(d: Seq<char>, k: int)
    requires
        all_digits(d),
        0 <= k <= d.len(),
    ensures
        0 <= digits_value(d.take(k)) <= digits_value(d),
    decreases d.len() - k,
{
    if k < d.len() {
        lemma_digits_grow(d, k + 1);
        assert(d.take(k + 1).drop_last() =~= d.take(k));
        assert(d.take(k + 1).last() == d[k]);
        assert(is_ascii_digit(d[k]));
    } else {
        assert(d.take(k) =~= d);
    }
    lemma_digits_nonneg(d.take(k));
}

proof fn lemma_digits_nonneg(d: Seq<char>)
    requires
        all_digits(d),
    ensures
        digits_value(d) >= 0,
    decreases d.len(),
{
    if d.len() > 0 {
        assert(is_ascii_digit(d.last()));
        lemma_digits_nonneg(d.drop_last());
    }
}

fn parse_u32_chars(p: &Vec<char>) -> (r: Option<u32>)
    ensures
        r == parse_u32_spec(p@),
{
    let start: usize = if p.len() > 0 && p[0] == '+' {
        1
    } else {
        0
    };
    let ghost d = if p@.len() > 0 && p@[0] == '+' {
        p@.drop_first()
    } else {
        p@
    };
    proof {
        assert(d =~= p@.skip(start as int));
    }
    if start >= p.len() {
        return None;
    }
    let mut acc: u64 = 0;
    let mut i: usize = start;
    while i < p.len()
        invariant
            start <= i <= p@.len(),
            d == p@.skip(start as int),
            d == (if p@.len() > 0 && p@[0] == '+' {
                p@.drop_first()
            } else {
                p@
            }),
            d.len() > 0,
            all_digits(d.take(i - start)),
            acc as int == digits_value(d.take(i - start)),
            acc <= u32::MAX,
        decreases p@.len() - i,
    {
        let c = p[i];
        proof {
            assert(d[i - start] == c);
            assert(d.take(i - start + 1).drop_last() =~= d.take(i - start));
            assert(d.take(i - start + 1).last() == c);
        }
        if !('0' <= c && c <= '9') {
            proof {
                assert(!is_ascii_digit(d[i - start]));
                assert(!all_digits(d));
            }
            return None;
        }
        let digit: u64 = (c as u32 - '0' as u32) as u64;
        acc = acc * 10 + digit;
        proof {
            assert forall|j: int| 0 <= j < i - start + 1 implies is_ascii_digit(#[trigger] d.take(i - start + 1)[j]) by {
                if j < i - start {
                    assert(d.take(i - start + 1)[j] == d.take(i - start)[j]);
                }
            }
        }
        if acc > 0xffff_ffff {
            proof {
                if all_digits(d) {
                    lemma_digits_grow(d, i - start + 1);
                }
            }
            return None;
        }
        i = i + 1;
    }
    proof {
        assert(d.take(i - start) =~= d);
    }
    Some(acc as u32)
}

/// Splitting on a separator (`str::split`): always at least one piece.
pub open spec fn pieces(s: Seq<char>, sep: char) -> Seq<Seq<char>>
    decreases s.len(),
{
    if s.len() == 0 {
        seq![Seq::empty()]
    } else {
        let p = pieces(s.drop_last(), sep);
        if s.last() == sep {
            p.push(Seq::empty())
        } else {
            p.update(p.len() - 1, p.last().push(s.last()))
        }
    }
}

proof fn lemma_pieces_nonempty(s: Seq<char>, sep: char)
    ensures
        pieces(s, sep).len() >= 1,
    decreases s.len(),
{
    if s.len() > 0 {
        lemma_pieces_nonempty(s.drop_last(), sep);
    }
}

/// Every piece parsed, or `None` when one does not.
pub open spec fn parse_all(ps: Seq<Seq<char>>) -> Option<Seq<u32>>
    decreases ps.len(),
{
    if ps.len() == 0 {
        Some(Seq::empty())
    } else {
        match (parse_all(ps.drop_last()), parse_u32_spec(ps.last())) {
            (Some(v), Some(x)) => Some(v.push(x)),
            _ => None,
        }
    }
}

/// A dotted numeric version (`124.0.2478.51`).
pub open spec fn parse_version_spec(s: Seq<char>) -> Option<Seq<u32>> {
    match parse_all(pieces(s, '.')) {
        Some(v) => if v.len() > 0 {
            Some(v)
        } else {
            None
        },
        None => None,
    }
}

/// Reads a dotted numeric version; `None` unless every part is a number.
pub fn parse_version(s: &str) -> (r: Option<Vec<u32>>)
    ensures
        r matches Some(v) ==> parse_version_spec(s@) == Some(v@),
        r is None ==> parse_version_spec(s@) is None,
{
    let v = chars_of(s);
    let mut ps: Vec<Vec<char>> = Vec::new();
    ps.push(Vec::new());
    let mut i: usize = 0;
    proof {
        assert(char_views(ps@) =~= pieces(v@.take(0), '.'));
    }
    while i < v.len()
        invariant
            i <= v@.len(),
            ps@.len() >= 1,
            char_views(ps@) == pieces(v@.take(i as int), '.'),
        decreases v@.len() - i,
    {
        proof {
            assert(v@.take(i + 1).drop_last() =~= v@.take(i as int));
            assert(v@.take(i + 1).last() == v@[i as int]);
        }
        let ghost before = char_views(ps@);
        if v[i] == '.' {
            ps.push(Vec::new());
            proof {
                assert(char_views(ps@) =~= before.push(Seq::<char>::empty()));
            }
        } else {
            let last = ps.len() - 1;
            let mut cur = ps[last].clone();
            cur.push(v[i]);
            let ghost cv = cur@;
            ps.set(last, cur);
            proof {
                assert(char_views(ps@) =~= before.update(last as int, before.last().push(v@[i as int])));
            }
        }
        i = i + 1;
    }
    proof {
        assert(v@.take(v@.len() as int) =~= v@);
    }
    let mut out: Vec<u32> = Vec::new();
    let mut k: usize = 0;
    proof {
        assert(char_views(ps@).take(0) =~= Seq::<Seq<char>>::empty());
    }
    while k < ps.len()
        invariant
            k <= ps@.len(),
            char_views(ps@) == pieces(s@, '.'),
            parse_all(char_views(ps@).take(k as int)) == Some(out@),
        decreases ps@.len() - k,
    {
        proof {
            assert(char_views(ps@).take(k + 1).drop_last() =~= char_views(ps@).take(k as int));
            assert(char_views(ps@).take(k + 1).last() == ps@[k as int]@);
        }
        match parse_u32_chars(&ps[k]) {
            Some(x) => {
                out.push(x);
            },
            None => {
                proof {
                    lemma_parse_all_prefix_none(char_views(ps@), k + 1);
                    assert(char_views(ps@).take(ps@.len() as int) =~= char_views(ps@));
                }
                return None;
            },
        }
        k = k + 1;
    }
    proof {
        assert(char_views(ps@).take(ps@.len() as int) =~= char_views(ps@));
    }
    if out.len() == 0 {
        None
    } else {
        Some(out)
    }
}

/// Once a prefix fails to parse, so does everything longer.
proof fn lemma_parse_all_prefix_none(ps: Seq<Seq<char>>, k: int)
    requires
        0 <= k <= ps.len(),
        parse_all(ps.take(k)) is None,
    ensures
        parse_all(ps) is None,
    decreases ps.len() - k,
{
    if k < ps.len() {
        assert(ps.take(k + 1).drop_last() =~= ps.take(k));
        lemma_parse_all_prefix_none(ps, k + 1);
    } else {
        assert(ps.take(k) =~= ps);
    }
}

/// Background processes to stop that a plain install-folder match would
/// miss: updaters and helpers that run from a separate location.
pub open spec fn known_processes_spec(name: Seq<char>) -> Seq<Seq<char>> {
    let n = norm_spec(name);
    if contains(n, "microsoftedge"@) {
        seq!["msedge.exe"@, "msedgewebview2.exe"@, "identity_helper.exe"@, "MicrosoftEdgeUpdate.exe"@]
    } else if contains(n, "googlechrome"@) {
        seq!["chrome.exe"@, "GoogleUpdate.exe"@, "elevation_service.exe"@]
    } else if contains(n, "mozillafirefox"@) {
        seq!["firefox.exe"@]
    } else {
        Seq::empty()
    }
}

/// Background processes to stop that a plain install-folder match would miss.
pub fn known_process_names(name: &str) -> (r: Vec<String>)
    ensures
        string_views(r@) == known_processes_spec(name@),
{
    let v = chars_of(name);
    let n = norm_chars(&v);
    let mut out: Vec<String> = Vec::new();
    if contains_chars(&n, &chars_of("microsoftedge")) {
        out.push("msedge.exe".to_owned());
        out.push("msedgewebview2.exe".to_owned());
        out.push("identity_helper.exe".to_owned());
        out.push("MicrosoftEdgeUpdate.exe".to_owned());
    } else if contains_chars(&n, &chars_of("googlechrome")) {
        out.push("chrome.exe".to_owned());
        out.push("GoogleUpdate.exe".to_owned());
        out.push("elevation_service.exe".to_owned());
    } else if contains_chars(&n, &chars_of("mozillafirefox")) {
        out.push("firefox.exe".to_owned());
    }
    proof {
        assert(string_views(out@) =~= known_processes_spec(name@));
    }
    out
}

/// The program of an uninstall string names msiexec: its first word,
/// without quotes and lowercased, is `msiexec`, `msiexec.exe` or a path
/// ending in `\msiexec.exe`.
pub open spec fn runs_msiexec(s: Seq<char>) -> bool {
    words(s).len() > 0 && {
        let head = lowercase(trim_char(words(s)[0], '"'));
        head == "msiexec"@ || head == "msiexec.exe"@ || ends_with(head, "\\msiexec.exe"@)
    }
}

/// The `{GUID}` product code of an MsiExec uninstall string: from the first
/// `{` to the first `}` after it. Only when the program itself is msiexec;
/// bundle uninstallers whose path merely contains a GUID do not count.
pub open spec fn msi_product_code_spec(s: Seq<char>) -> Option<Seq<char>> {
    if !runs_msiexec(s) {
        None
    } else {
        match find(s, "{"@) {
            None => None,
            Some(start) => match find(s.skip(start), "}"@) {
                None => None,
                Some(off) => Some(s.subrange(start, start + off + 1)),
            },
        }
    }
}

/// Extracts the `{GUID}` product code from an MsiExec uninstall string.
pub fn msi_product_code(s: &str) -> (r: Option<String>)
    ensures
        r matches Some(c) ==> msi_product_code_spec(s@) == Some(c@),
        r is None ==> msi_product_code_spec(s@) is None,
{
    let v = chars_of(s);
    let ws = words_of(&v);
    if ws.len() == 0 {
        return None;
    }
    let head_chars = trim_char_chars(&ws[0], '"');
    let head_s = string_of(&head_chars);
    let lower_s = to_lowercase(head_s.as_str());
    let head = chars_of(lower_s.as_str());
    let ok = eq_chars(&head, &chars_of("msiexec")) || eq_chars(&head, &chars_of("msiexec.exe"))
        || ends_with_chars(&head, &chars_of("\\msiexec.exe"));
    if !ok {
        return None;
    }
    let open = chars_of("{");
    let close = chars_of("}");
    proof {
        reveal_strlit("{");
        reveal_strlit("}");
    }
    let start = match find_chars(&v, &open) {
        Some(i) => i,
        None => {
            return None;
        },
    };
    proof {
        lemma_find_from_bounds(v@, open@, 0);
    }
    let rest = slice_chars(&v, start, v.len());
    proof {
        assert(rest@ =~= v@.skip(start as int));
    }
    let off = match find_chars(&rest, &close) {
        Some(j) => j,
        None => {
            return None;
        },
    };
    proof {
        lemma_find_from_bounds(rest@, close@, 0);
    }
    let code = slice_chars(&v, start, start + off + 1);
    Some(string_of(&code))
}

/// `ext` occurs at `i` in `t`, ignoring ASCII case.
pub open spec fn ext_at(t: Seq<char>, ext: Seq<char>, i: int) -> bool {
    0 <= i && i + ext.len() <= t.len() && forall|k: int| 0 <= k < ext.len() ==> ascii_lower(#[trigger] t[i + k]) == ext[k]
}

/// The ends of the successive occurrences of `ext` in `t` from `i` on.
pub open spec fn ext_ends_from(t: Seq<char>, ext: Seq<char>, i: int) -> Seq<int>
    decreases t.len() + 1 - i,
{
    if i < 0 || ext.len() == 0 || i + ext.len() > t.len() {
        Seq::empty()
    } else if ext_at(t, ext, i) {
        seq![i + ext.len()] + ext_ends_from(t, ext, i + ext.len())
    } else {
        ext_ends_from(t, ext, i + 1)
    }
}

/// Where a program could end: after each occurrence of each executable
/// extension, by extension and then left to right.
pub open spec fn program_ends(t: Seq<char>) -> Seq<int> {
    ext_ends_from(t, ".exe"@, 0) + ext_ends_from(t, ".cmd"@, 0) + ext_ends_from(t, ".bat"@, 0)
        + ext_ends_from(t, ".com"@, 0)
}

/// The paths checked against the disk, in order: the whole (trimmed)
/// command, then each prefix ending at an executable extension.
pub open spec fn command_candidates_spec(s: Seq<char>) -> Seq<Seq<char>> {
    let t = trim(s);
    seq![t] + program_ends(t).map_values(|e: int| t.take(e))
}

/// A quoted program and the rest of the command.
pub open spec fn quoted_split(t: Seq<char>) -> Option<(Seq<char>, Seq<char>)> {
    if t.len() > 0 && t[0] == '"' {
        match find(t.drop_first(), "\""@) {
            Some(i) => Some((t.drop_first().take(i), trim(t.drop_first().skip(i + 1)))),
            None => None,
        }
    } else {
        None
    }
}

/// The first whitespace character of `t`, if any.
pub open spec fn first_white(t: Seq<char>) -> Option<int>
    decreases t.len(),
{
    if t.len() == 0 {
        None
    } else {
        match first_white(t.drop_last()) {
            Some(i) => Some(i),
            None => if is_white(t.last()) {
                Some(t.len() - 1)
            } else {
                None
            },
        }
    }
}

/// The first word is the program, the shell resolves it against PATH.
pub open spec fn first_word_split(t: Seq<char>) -> (Seq<char>, Seq<char>) {
    match first_white(t) {
        Some(i) => (t.take(i), trim(t.skip(i + 1))),
        None => (t, Seq::empty()),
    }
}

/// Splits a command line into (program, argument string), given which of
/// `command_candidates_spec` was chosen from the disk (`found`, see
/// `chosen_candidate`): a quoted program first; then the chosen candidate
/// (the whole command, or a prefix ending at an executable extension);
/// otherwise the first word.
pub open spec fn split_given(s: Seq<char>, found: Option<int>) -> (Seq<char>, Seq<char>) {
    let t = trim(s);
    match quoted_split(t) {
        Some(q) => q,
        None => match found {
            Some(j) => if j == 0 {
                (t, Seq::empty())
            } else if 1 <= j <= program_ends(t).len() {
                let e = program_ends(t)[j - 1];
                (t.take(e), trim(t.skip(e)))
            } else {
                first_word_split(t)
            },
            None => first_word_split(t),
        },
    }
}

fn ext_at_exec(t: &Vec<char>, ext: &Vec<char>, i: usize) -> (b: bool)
    ensures
        b == ext_at(t@, ext@, i as int),
{
    if i > t.len() || ext.len() > t.len() - i {
        return false;
    }
    let mut k: usize = 0;
    while k < ext.len()
        invariant
            i + ext@.len() <= t@.len(),
            t@.len() <= usize::MAX,
            k <= ext@.len(),
            forall|j: int| 0 <= j < k ==> ascii_lower(#[trigger] t@[i + j]) == ext@[j],
        decreases ext@.len() - k,
    {
        assert(i + k < t@.len());
        if ascii_lower_char(t[i + k]) != ext[k] {
            return false;
        }
        k = k + 1;
    }
    true
}

fn push_ext_ends(t: &Vec<char>, ext: &Vec<char>, out: &mut Vec<usize>)
    requires
        ext@.len() > 0,
    ensures
        final(out)@.map_values(|e: usize| e as int) == old(out)@.map_values(|e: usize| e as int)
            + ext_ends_from(t@, ext@, 0),
        forall|k: int| 0 <= k < final(out)@.len() ==> final(out)@[k] <= t@.len() || k < old(out)@.len(),
        forall|k: int| 0 <= k < old(out)@.len() ==> final(out)@[k] == old(out)@[k],
        old(out)@.len() <= final(out)@.len(),
{
    let ghost start = old(out)@.map_values(|e: usize| e as int);
    let ghost n0 = old(out)@.len();
    let mut i: usize = 0;
    while i <= t.len() && ext.len() <= t.len() - i
        invariant
            ext@.len() > 0,
            n0 <= out@.len(),
            forall|k: int| n0 <= k < out@.len() ==> out@[k] <= t@.len(),
            forall|k: int| 0 <= k < n0 ==> out@[k] == old(out)@[k],
            start == old(out)@.map_values(|e: usize| e as int),
            out@.map_values(|e: usize| e as int) + ext_ends_from(t@, ext@, i as int) == start
                + ext_ends_from(t@, ext@, 0),
        decreases t@.len() + 1 - i,
    {
        let ghost before = out@;
        if ext_at_exec(t, ext, i) {
            out.push(i + ext.len());
            proof {
                assert(out@.map_values(|e: usize| e as int) =~= before.map_values(|e: usize| e as int).push(
                    i + ext@.len(),
                ));
                assert(out@.map_values(|e: usize| e as int) + ext_ends_from(t@, ext@, i + ext@.len())
                    =~= before.map_values(|e: usize| e as int) + ext_ends_from(t@, ext@, i as int));
            }
            i = i + ext.len();
        } else {
            i = i + 1;
        }
    }
    proof {
        assert(ext_ends_from(t@, ext@, i as int) =~= Seq::<int>::empty());
        assert(out@.map_values(|e: usize| e as int) + Seq::<int>::empty() =~= out@.map_values(
            |e: usize| e as int,
        ));
    }
}

fn program_ends_exec(t: &Vec<char>) -> (r: Vec<usize>)
    ensures
        r@.map_values(|e: usize| e as int) == program_ends(t@),
        forall|k: int| 0 <= k < r@.len() ==> r@[k] <= t@.len(),
{
    let mut out: Vec<usize> = Vec::new();
    let e1 = chars_of(".exe");
    let e2 = chars_of(".cmd");
    let e3 = chars_of(".bat");
    let e4 = chars_of(".com");
    proof {
        reveal_strlit(".exe");
        reveal_strlit(".cmd");
        reveal_strlit(".bat");
        reveal_strlit(".com");
        assert(out@.map_values(|e: usize| e as int) =~= Seq::<int>::empty());
    }
    push_ext_ends(t, &e1, &mut out);
    push_ext_ends(t, &e2, &mut out);
    push_ext_ends(t, &e3, &mut out);
    push_ext_ends(t, &e4, &mut out);
    out
}

/// The paths an uninstall command's program could be, in the order they
/// are checked against the disk.
pub fn command_candidates(s: &str) -> (r: Vec<String>)
    ensures
        string_views(r@) == command_candidates_spec(s@),
{
    let v = chars_of(s);
    let t = trim_chars(&v);
    let ends = program_ends_exec(&t);
    let mut out: Vec<String> = Vec::new();
    out.push(string_of(&t));
    let mut k: usize = 0;
    while k < ends.len()
        invariant
            k <= ends@.len(),
            t@ == trim(s@),
            ends@.map_values(|e: usize| e as int) == program_ends(t@),
            forall|x: int| 0 <= x < ends@.len() ==> ends@[x] <= t@.len(),
            string_views(out@) == seq![t@] + program_ends(t@).take(k as int).map_values(|e: int| t@.take(e)),
        decreases ends@.len() - k,
    {
        let prefix = slice_chars(&t, 0, ends[k]);
        let ghost before = string_views(out@);
        let p = string_of(&prefix);
        out.push(p);
        proof {
            assert(program_ends(t@)[k as int] == ends@[k as int] as int);
            assert(prefix@ =~= t@.take(ends@[k as int] as int));
            assert(string_views(out@) =~= before.push(p@));
            assert(program_ends(t@).take(k + 1).map_values(|e: int| t@.take(e)) =~= program_ends(t@).take(
                k as int,
            ).map_values(|e: int| t@.take(e)).push(t@.take(program_ends(t@)[k as int])));
        }
        k = k + 1;
    }
    proof {
        assert(program_ends(t@).take(ends@.len() as int) =~= program_ends(t@));
    }
    out
}

fn first_word_split_exec(t: &Vec<char>) -> (r: (Vec<char>, Vec<char>))
    ensures
        (r.0@, r.1@) == first_word_split(t@),
{
    let mut i: usize = 0;
    while i < t.len()
        invariant
            i <= t@.len(),
            first_white(t@.take(i as int)) is None,
        decreases t@.len() - i,
    {
        proof {
            assert(t@.take(i + 1).drop_last() =~= t@.take(i as int));
            assert(t@.take(i + 1).last() == t@[i as int]);
        }
        if is_whitespace(t[i]) {
            proof {
                lemma_first_white_prefix(t@, i + 1);
            }
            let before = slice_chars(t, 0, i);
            let after = slice_chars(t, i + 1, t.len());
            let args = trim_chars(&after);
            proof {
                assert(before@ =~= t@.take(i as int));
                assert(after@ =~= t@.skip(i + 1));
            }
            return (before, args);
        }
        i = i + 1;
    }
    proof {
        assert(t@.take(t@.len() as int) =~= t@);
    }
    (t.clone(), Vec::new())
}

/// `first_white` of a longer text agrees with a prefix that already has one.
proof fn lemma_first_white_prefix(t: Seq<char>, k: int)
    requires
        0 <= k <= t.len(),
        first_white(t.take(k)) is Some,
    ensures
        first_white(t) == first_white(t.take(k)),
    decreases t.len() - k,
{
    if k < t.len() {
        assert(t.take(k + 1).drop_last() =~= t.take(k));
        lemma_first_white_prefix(t, k + 1);
    } else {
        assert(t.take(k) =~= t);
    }
}

/// Splits a command line into (program, argument string) given which
/// candidate of `command_candidates` (if any) is the first that exists.
pub fn split_command_line_given(s: &str, found: Option<usize>) -> (r: (String, String))
    ensures
        (r.0@, r.1@) == split_given(s@, match found {
            Some(j) => Some(j as int),
            None => None,
        }),
{
    let v = chars_of(s);
    let t = trim_chars(&v);
    if t.len() > 0 && t[0] == '"' {
        let rest = slice_chars(&t, 1, t.len());
        proof {
            assert(rest@ =~= t@.drop_first());
        }
        let q = chars_of("\"");
        proof {
            reveal_strlit("\"");
        }
        match find_chars(&rest, &q) {
            Some(i) => {
                proof {
                    lemma_find_from_bounds(rest@, q@, 0);
                }
                let program = slice_chars(&rest, 0, i);
                let after = slice_chars(&rest, i + 1, rest.len());
                let args = trim_chars(&after);
                proof {
                    assert(program@ =~= rest@.take(i as int));
                    assert(after@ =~= rest@.skip(i + 1));
                }
                return (string_of(&program), string_of(&args));
            },
            None => {},
        }
    }
    let fallback = match found {
        Some(0) => {
            return (string_of(&t), String::new());
        },
        Some(j) => {
            let ends = program_ends_exec(&t);
            if 1 <= j && j <= ends.len() {
                let e = ends[j - 1];
                proof {
                    assert(program_ends(t@)[j - 1] == e as int);
                }
                let program = slice_chars(&t, 0, e);
                let after = slice_chars(&t, e, t.len());
                let args = trim_chars(&after);
                proof {
                    assert(program@ =~= t@.take(e as int));
                    assert(after@ =~= t@.skip(e as int));
                }
                return (string_of(&program), string_of(&args));
            }
            first_word_split_exec(&t)
        },
        None => first_word_split_exec(&t),
    };
    (string_of(&fallback.0), string_of(&fallback.1))
}

/// The candidate the disk's answers choose, where `exists[j]` says whether
/// candidate `j` of `command_candidates_spec` is a file: the whole command
/// when it is one; otherwise the longest prefix ending at an executable
/// extension that is one; otherwise none.
pub open spec fn chosen_candidate(t: Seq<char>, exists: Seq<bool>) -> Option<int> {
    if exists.len() > 0 && exists[0] {
        Some(0)
    } else {
        longest_existing(t, exists, exists.len() as int)
    }
}

/// Of candidates `1` to `n - 1`, the file whose prefix is longest (the first
/// of them where two are equally long).
pub open spec fn longest_existing(t: Seq<char>, exists: Seq<bool>, n: int) -> Option<int>
    decreases n,
{
    if n <= 1 {
        None
    } else {
        let prev = longest_existing(t, exists, n - 1);
        let j = n - 1;
        if exists[j] && match prev {
            Some(b) => program_ends(t)[j - 1] > program_ends(t)[b - 1],
            None => true,
        } {
            Some(j)
        } else {
            prev
        }
    }
}

pub open spec fn index_option(o: Option<usize>) -> Option<int> {
    match o {
        Some(j) => Some(j as int),
        None => None,
    }
}

/// The candidate chosen by the disk's answers for a command line: `exists`
/// holds one answer per candidate of `command_candidates`.
pub fn choose_candidate(s: &str, exists: &Vec<bool>) -> (r: Option<usize>)
    requires
        exists@.len() == command_candidates_spec(s@).len(),
    ensures
        index_option(r) == chosen_candidate(trim(s@), exists@),
        r matches Some(j) ==> j < exists@.len(),
{
    let v = chars_of(s);
    let t = trim_chars(&v);
    let ends = program_ends_exec(&t);
    proof {
        assert(ends@.len() == program_ends(t@).len());
    }
    if exists[0] {
        return Some(0);
    }
    let mut best: Option<usize> = None;
    let mut best_end: usize = 0;
    let mut j: usize = 1;
    while j < exists.len()
        invariant
            1 <= j <= exists@.len(),
            exists@.len() == ends@.len() + 1,
            t@ == trim(s@),
            ends@.map_values(|e: usize| e as int) == program_ends(t@),
            !exists@[0],
            index_option(best) == longest_existing(t@, exists@, j as int),
            best matches Some(b) ==> 1 <= b < j && best_end as int == program_ends(t@)[b - 1],
        decreases exists@.len() - j,
    {
        proof {
            assert(program_ends(t@)[j - 1] == ends@[j - 1] as int);
        }
        if exists[j] && (best.is_none() || ends[j - 1] > best_end) {
            best = Some(j);
            best_end = ends[j - 1];
        }
        j = j + 1;
    }
    best
}

/// Splits a command line as the disk's answers for its candidates decide
/// (see `chosen_candidate` and `split_given`).
pub fn split_command_line_probed(s: &str, exists: &Vec<bool>) -> (r: (String, String))
    requires
        exists@.len() == command_candidates_spec(s@).len(),
    ensures
        (r.0@, r.1@) == split_given(s@, chosen_candidate(trim(s@), exists@)),
{
    let found = choose_candidate(s, exists);
    split_command_line_given(s, found)
}

/// Asks the disk whether each candidate program of a command is a file.
fn probe_candidates(s: &str) -> (r: Vec<bool>)
    ensures
        r@.len() == command_candidates_spec(s@).len(),
{
    let cands = command_candidates(s);
    let mut answers: Vec<bool> = Vec::new();
    let mut k: usize = 0;
    while k < cands.len()
        invariant
            k <= cands@.len(),
            answers@.len() == k,
            string_views(cands@) == command_candidates_spec(s@),
        decreases cands@.len() - k,
    {
        answers.push(path_is_file(cands[k].as_str()));
        k = k + 1;
    }
    answers
}

/// Splits a Windows command line into (program, raw argument string).
///
/// Registry uninstall strings come in every shape: quoted paths, unquoted
/// paths containing spaces, and bare commands resolved through PATH, so the
/// candidate programs are checked against the disk. What the disk answers
/// is not known here; whatever it answers, the result is the split those
/// answers choose (`split_command_line_probed`).
pub fn split_command_line(s: &str) -> (r: (String, String))
    ensures
        exists|answers: Seq<bool>|
            answers.len() == command_candidates_spec(s@).len() && (r.0@, r.1@) == #[trigger] split_given(
                s@,
                chosen_candidate(trim(s@), answers),
            ),
{
    let answers = probe_candidates(s);
    let r = split_command_line_probed(s, &answers);
    proof {
        assert(split_given(s@, chosen_candidate(trim(s@), answers@)) == (r.0@, r.1@));
    }
    r
}

/// The `%NAME%` references of a command, in order: each `%` opens a name
/// that runs to the next `%`; a `%` with no partner ends the scan.
pub open spec fn env_refs_spec(s: Seq<char>) -> Seq<Seq<char>>
    decreases s.len(),
{
    match find(s, seq!['%']) {
        None => Seq::empty(),
        Some(i) => {
            let after = s.skip(i + 1);
            match find(after, seq!['%']) {
                None => Seq::empty(),
                Some(j) => {
                    proof {
                        lemma_find_from_bounds(s, seq!['%'], 0);
                        lemma_find_from_bounds(after, seq!['%'], 0);
                    }
                    seq![after.take(j)] + env_refs_spec(after.skip(j + 1))
                },
            }
        },
    }
}

/// `%NAME%` references replaced by their values: `values[k]` holds, for the
/// `k`-th reference, the variable's value if it is set. A reference with an
/// empty name or no value (a literal `%` in a path) is kept as written.
pub open spec fn expand_spec(s: Seq<char>, values: Seq<Option<Seq<char>>>, k: int) -> Seq<char>
    decreases s.len(),
{
    match find(s, seq!['%']) {
        None => s,
        Some(i) => {
            let after = s.skip(i + 1);
            match find(after, seq!['%']) {
                None => s,
                Some(j) => {
                    proof {
                        lemma_find_from_bounds(s, seq!['%'], 0);
                        lemma_find_from_bounds(after, seq!['%'], 0);
                    }
                    let name = after.take(j);
                    let value = if name.len() > 0 && 0 <= k < values.len() && values[k] is Some {
                        values[k]->0
                    } else {
                        seq!['%'] + name + seq!['%']
                    };
                    s.take(i) + value + expand_spec(after.skip(j + 1), values, k + 1)
                },
            }
        },
    }
}

fn percent() -> (r: Vec<char>)
    ensures
        r@ == seq!['%'],
{
    let mut v: Vec<char> = Vec::new();
    v.push('%');
    proof {
        assert(v@ =~= seq!['%']);
    }
    v
}

/// The names of the environment variables a command refers to, in order.
pub fn env_refs(s: &str) -> (r: Vec<String>)
    ensures
        string_views(r@) == env_refs_spec(s@),
{
    let mut rest = chars_of(s);
    let pct = percent();
    let mut out: Vec<String> = Vec::new();
    proof {
        assert(string_views(out@) + env_refs_spec(rest@) =~= env_refs_spec(s@));
    }
    loop
        invariant
            pct@ == seq!['%'],
            string_views(out@) + env_refs_spec(rest@) == env_refs_spec(s@),
        decreases rest@.len(),
    {
        let ghost r0 = rest@;
        let i = match find_chars(&rest, &pct) {
            Some(i) => i,
            None => {
                proof {
                    assert(string_views(out@) + Seq::<Seq<char>>::empty() =~= string_views(out@));
                }
                return out;
            },
        };
        proof {
            lemma_find_from_bounds(rest@, pct@, 0);
        }
        let rest_len = rest.len();
        let after = slice_chars(&rest, i + 1, rest_len);
        proof {
            assert(after@ =~= rest@.skip(i + 1));
        }
        let j = match find_chars(&after, &pct) {
            Some(j) => j,
            None => {
                proof {
                    assert(string_views(out@) + Seq::<Seq<char>>::empty() =~= string_views(out@));
                }
                return out;
            },
        };
        proof {
            lemma_find_from_bounds(after@, pct@, 0);
        }
        let name = slice_chars(&after, 0, j);
        let next = slice_chars(&after, j + 1, after.len());
        let ghost prev = out@;
        let ns = string_of(&name);
        out.push(ns);
        proof {
            assert(name@ =~= after@.take(j as int));
            assert(next@ =~= after@.skip(j + 1));
            assert(string_views(out@) =~= string_views(prev).push(name@));
            assert(env_refs_spec(r0) == seq![name@] + env_refs_spec(next@));
            assert(string_views(out@) + env_refs_spec(next@) =~= string_views(prev) + env_refs_spec(r0));
        }
        rest = next;
    }
}

pub open spec fn opt_views(v: Seq<Option<String>>) -> Seq<Option<Seq<char>>> {
    v.map_values(|o: Option<String>| match o {
        Some(x) => Some(x@),
        None => None,
    })
}

fn append_chars(out: &mut Vec<char>, src: &Vec<char>, lo: usize, hi: usize)
    requires
        lo <= hi <= src@.len(),
    ensures
        final(out)@ == old(out)@ + src@.subrange(lo as int, hi as int),
{
    let ghost base = out@;
    let mut m: usize = lo;
    while m < hi
        invariant
            lo <= m <= hi,
            hi <= src@.len(),
            out@ == base + src@.subrange(lo as int, m as int),
        decreases hi - m,
    {
        out.push(src[m]);
        proof {
            assert(src@.subrange(lo as int, m + 1) =~= src@.subrange(lo as int, m as int).push(src@[m as int]));
        }
        m = m + 1;
    }
}

/// Expands `%VAR%` references, given the value of each reference in order
/// (`None` when the variable is not set).
pub fn expand_env_vars_with(s: &str, values: &Vec<Option<String>>) -> (r: String)
    ensures
        r@ == expand_spec(s@, opt_views(values@), 0),
{
    let mut rest = chars_of(s);
    let total = rest.len();
    let pct = percent();
    let mut out: Vec<char> = Vec::new();
    let mut k: usize = 0;
    proof {
        assert(out@ + expand_spec(rest@, opt_views(values@), 0) =~= expand_spec(s@, opt_views(values@), 0));
    }
    loop
        invariant
            pct@ == seq!['%'],
            total == s@.len(),
            rest@.len() + 2 * k <= total,
            out@ + expand_spec(rest@, opt_views(values@), k as int) == expand_spec(s@, opt_views(values@), 0),
        decreases rest@.len(),
    {
        let ghost r0 = rest@;
        let ghost vals = opt_views(values@);
        let i = match find_chars(&rest, &pct) {
            Some(i) => i,
            None => {
                append_chars(&mut out, &rest, 0, rest.len());
                proof {
                    assert(rest@.subrange(0, rest@.len() as int) =~= rest@);
                }
                return string_of(&out);
            },
        };
        proof {
            lemma_find_from_bounds(rest@, pct@, 0);
        }
        let rest_len = rest.len();
        let after = slice_chars(&rest, i + 1, rest_len);
        proof {
            assert(after@ =~= rest@.skip(i + 1));
        }
        let j = match find_chars(&after, &pct) {
            Some(j) => j,
            None => {
                append_chars(&mut out, &rest, 0, rest.len());
                proof {
                    assert(rest@.subrange(0, rest@.len() as int) =~= rest@);
                }
                return string_of(&out);
            },
        };
        proof {
            lemma_find_from_bounds(after@, pct@, 0);
        }
        let name = slice_chars(&after, 0, j);
        let ghost base = out@;
        append_chars(&mut out, &rest, 0, i);
        let ghost mid = out@;
        let mut piece: Vec<char> = Vec::new();
        let mut found = false;
        if name.len() > 0 && k < values.len() {
            match &values[k] {
                Some(v) => {
                    piece = chars_of(v.as_str());
                    found = true;
                },
                None => {},
            }
        }
        if !found {
            piece.push('%');
            append_chars(&mut piece, &name, 0, name.len());
            piece.push('%');
        }
        append_chars(&mut out, &piece, 0, piece.len());
        let next = slice_chars(&after, j + 1, after.len());
        proof {
            assert(name@ =~= after@.take(j as int));
            assert(next@ =~= after@.skip(j + 1));
            assert(rest@.subrange(0, i as int) =~= rest@.take(i as int));
            assert(piece@.subrange(0, piece@.len() as int) =~= piece@);
            assert(name@.subrange(0, name@.len() as int) =~= name@);
            let expected = if name@.len() > 0 && 0 <= k < vals.len() && vals[k as int] is Some {
                vals[k as int]->0
            } else {
                seq!['%'] + name@ + seq!['%']
            };
            assert(piece@ =~= expected);
            assert(expand_spec(r0, vals, k as int) == rest@.take(i as int) + expected + expand_spec(next@, vals, k + 1));
            assert(out@ + expand_spec(next@, vals, k + 1) =~= base + expand_spec(r0, vals, k as int));
        }
        rest = next;
        k = k + 1;
    }
}

/// The error when an application records no uninstall command.
pub const NO_UNINSTALLER: &'static str = "This application does not provide an uninstaller command.";
/// The error when no program can be read from the uninstall command.
pub const UNPARSEABLE_UNINSTALLER: &'static str = "Could not parse the uninstaller command.";

/// The error for an uninstaller that is no longer on disk, quoting the
/// command Windows still lists.
pub open spec fn stale_uninstaller_message(command: Seq<char>) -> Seq<char> {
    "The uninstaller is no longer on disk. Windows still lists this command:\n"@ + command
        + "\n\nRemove it from Settings → Apps instead."@
}

/// A program given by a full path (drive or network), as opposed to a bare
/// command the shell looks up.
pub open spec fn rooted(program: Seq<char>) -> bool {
    contains(program, ":\\"@) || starts_with(program, "\\\\"@)
}

/// `msiexec.exe /x {code}`: uninstall an MSI product regardless of whether
/// its stored command modifies (`/I`) or removes (`/X`) it.
pub open spec fn msi_uninstall_args(code: Seq<char>) -> Seq<char> {
    "/x "@ + code
}

/// The program and arguments that uninstall an application, from its
/// (already expanded) uninstall command, given which candidate program
/// exists on disk (`found`, see `command_candidates`) and whether the split
/// program is a file (`program_exists`).
pub open spec fn uninstall_command_spec(
    command: Seq<char>,
    found: Option<int>,
    program_exists: bool,
) -> Result<(Seq<char>, Seq<char>), Seq<char>> {
    let s = trim(command);
    if s.len() == 0 {
        Err(NO_UNINSTALLER@)
    } else {
        match msi_product_code_spec(s) {
            Some(code) => Ok(("msiexec.exe"@, msi_uninstall_args(code))),
            None => {
                let (program, args) = split_given(s, found);
                if program.len() == 0 {
                    Err(UNPARSEABLE_UNINSTALLER@)
                } else if rooted(program) && !program_exists {
                    Err(stale_uninstaller_message(s))
                } else {
                    Ok((program, args))
                }
            },
        }
    }
}

fn stale_message(command: &str) -> (r: String)
    ensures
        r@ == stale_uninstaller_message(command@),
{
    let mut m = "The uninstaller is no longer on disk. Windows still lists this command:\n".to_owned();
    push_str(&mut m, command);
    push_str(&mut m, "\n\nRemove it from Settings → Apps instead.");
    m
}

fn is_rooted(program: &str) -> (b: bool)
    ensures
        b == rooted(program@),
{
    let v = chars_of(program);
    contains_chars(&v, &chars_of(":\\")) || starts_with_chars(&v, &chars_of("\\\\"))
}

pub open spec fn command_result_view(r: Result<(String, String), String>) -> Result<
    (Seq<char>, Seq<char>),
    Seq<char>,
> {
    match r {
        Ok((p, a)) => Ok((p@, a@)),
        Err(e) => Err(e@),
    }
}

/// What launching an uninstaller runs, given what the disk answered: which
/// candidate program was chosen (`found`, see `chosen_candidate`) and
/// whether the split program is a file (`program_exists`). `command` is the
/// uninstall string with its environment references already expanded.
pub fn uninstall_command_given(command: &str, found: Option<usize>, program_exists: bool) -> (r: Result<
    (String, String),
    String,
>)
    ensures
        command_result_view(r) == uninstall_command_spec(command@, index_option(found), program_exists),
{
    let v = chars_of(command);
    let t = trim_chars(&v);
    let s = string_of(&t);
    let ghost gfound = index_option(found);
    if t.len() == 0 {
        let e = NO_UNINSTALLER.to_owned();
        return Err(e);
    }
    match msi_product_code(s.as_str()) {
        Some(code) => {
            let mut args = "/x ".to_owned();
            push_str(&mut args, code.as_str());
            let program = "msiexec.exe".to_owned();
            return Ok((program, args));
        },
        None => {},
    }
    let (program, args) = split_command_line_given(s.as_str(), found);
    if chars_of(program.as_str()).len() == 0 {
        let e = UNPARSEABLE_UNINSTALLER.to_owned();
        return Err(e);
    }
    if is_rooted(program.as_str()) && !program_exists {
        let e = stale_message(s.as_str());
        return Err(e);
    }
    proof {
        assert(uninstall_command_spec(command@, gfound, program_exists) == Ok::<(Seq<char>, Seq<char>), Seq<char>>((program@, args@)));
    }
    Ok((program, args))
}

/// What launching an uninstaller runs: the program and its arguments, or
/// why nothing can be run. `command` is the uninstall string with its
/// environment references already expanded. The candidate programs and the
/// split program are checked against the disk; whatever it answers, the
/// result is `uninstall_command_given` for those answers.
pub fn uninstall_command(command: &str) -> (r: Result<(String, String), String>)
    ensures
        exists|answers: Seq<bool>, program_exists: bool|
            answers.len() == command_candidates_spec(trim(command@)).len() && command_result_view(r)
                == #[trigger] uninstall_command_spec(command@, chosen_candidate(trim(command@), answers), program_exists),
{
    let v = chars_of(command);
    let t = trim_chars(&v);
    let s = string_of(&t);
    proof {
        crate::text::lemma_trim_idempotent(command@);
    }
    let answers = probe_candidates(s.as_str());
    let found = choose_candidate(s.as_str(), &answers);
    let (program, _) = split_command_line_given(s.as_str(), found);
    let program_exists = path_is_file(program.as_str());
    let r = uninstall_command_given(command, found, program_exists);
    proof {
        assert(uninstall_command_spec(command@, chosen_candidate(trim(command@), answers@), program_exists)
            == command_result_view(r));
    }
    r
}

/// An installed application, as Settings → Apps lists it.
pub struct InstalledApp {
    pub name: String,
    pub version: String,
    pub publisher: String,
    pub install_location: Option<String>,
    pub estimated_bytes: u64,
    pub uninstall_string: Option<String>,
    /// Where the app's logo lives; may carry a trailing `,<index>`.
    pub display_icon: Option<String>,
}

pub struct InstalledAppView {
    pub name: Seq<char>,
    pub version: Seq<char>,
    pub publisher: Seq<char>,
    pub install_location: Option<Seq<char>>,
    pub estimated_bytes: u64,
    pub uninstall_string: Option<Seq<char>>,
    pub display_icon: Option<Seq<char>>,
}

pub open spec fn opt_str(o: Option<String>) -> Option<Seq<char>> {
    match o {
        Some(x) => Some(x@),
        None => None,
    }
}

impl View for InstalledApp {
    type V = InstalledAppView;

    open spec fn view(&self) -> InstalledAppView {
        InstalledAppView {
            name: self.name@,
            version: self.version@,
            publisher: self.publisher@,
            install_location: opt_str(self.install_location),
            estimated_bytes: self.estimated_bytes,
            uninstall_string: opt_str(self.uninstall_string),
            display_icon: opt_str(self.display_icon),
        }
    }
}

fn copy_opt(o: &Option<String>) -> (r: Option<String>)
    ensures
        opt_str(r) == opt_str(*o),
{
    match o {
        Some(x) => Some(x.clone()),
        None => None,
    }
}

impl InstalledApp {
    pub fn duplicate(&self) -> (r: InstalledApp)
        ensures
            r@ == self@,
    {
        InstalledApp {
            name: self.name.clone(),
            version: self.version.clone(),
            publisher: self.publisher.clone(),
            install_location: copy_opt(&self.install_location),
            estimated_bytes: self.estimated_bytes,
            uninstall_string: copy_opt(&self.uninstall_string),
            display_icon: copy_opt(&self.display_icon),
        }
    }
}

pub open spec fn app_views(s: Seq<InstalledApp>) -> Seq<InstalledAppView> {
    s.map_values(|a: InstalledApp| a@)
}

/// The values of one registry Uninstall subkey (`None` where a value is
/// missing or of another type).
pub struct UninstallEntry {
    pub display_name: Option<String>,
    pub system_component: Option<u32>,
    pub has_parent_key: bool,
    pub release_type: Option<String>,
    pub display_version: Option<String>,
    pub publisher: Option<String>,
    pub install_location: Option<String>,
    pub estimated_size_kb: Option<u32>,
    pub uninstall_string: Option<String>,
    pub display_icon: Option<String>,
}

/// A text value that is present and not blank.
pub open spec fn non_blank(o: Option<String>) -> Option<Seq<char>> {
    match o {
        Some(x) => if trim(x@).len() > 0 {
            Some(x@)
        } else {
            None
        },
        None => None,
    }
}

pub open spec fn or_empty(o: Option<String>) -> Seq<char> {
    match o {
        Some(x) => x@,
        None => Seq::empty(),
    }
}

/// The app an Uninstall subkey describes: none without a (non-blank) display
/// name, and none for system components, patches and updates.
pub open spec fn installed_app_spec(e: UninstallEntry) -> Option<InstalledAppView> {
    match e.display_name {
        None => None,
        Some(raw) => {
            let name = trim(raw@);
            let release = or_empty(e.release_type);
            if name.len() == 0 {
                None
            } else if e.system_component == Some(1u32) {
                None
            } else if e.has_parent_key {
                None
            } else if contains(release, "Update"@) || starts_with(name, "Security Update"@) || starts_with(
                name,
                "Update for"@,
            ) {
                None
            } else {
                Some(
                    InstalledAppView {
                        name,
                        version: or_empty(e.display_version),
                        publisher: or_empty(e.publisher),
                        install_location: non_blank(e.install_location),
                        estimated_bytes: (match e.estimated_size_kb {
                            Some(k) => k as int,
                            None => 0,
                        } * 1024) as u64,
                        uninstall_string: non_blank(e.uninstall_string),
                        display_icon: non_blank(e.display_icon),
                    },
                )
            }
        },
    }
}

fn non_blank_exec(o: &Option<String>) -> (r: Option<String>)
    ensures
        opt_str(r) == non_blank(*o),
{
    match o {
        Some(x) => {
            let t = trim_chars(&chars_of(x.as_str()));
            if t.len() > 0 {
                Some(x.clone())
            } else {
                None
            }
        },
        None => None,
    }
}

fn or_empty_exec(o: &Option<String>) -> (r: String)
    ensures
        r@ == or_empty(*o),
{
    match o {
        Some(x) => x.clone(),
        None => String::new(),
    }
}

/// Reads an installed application from its Uninstall subkey, leaving out
/// system components, patches and updates.
pub fn installed_app_from(e: &UninstallEntry) -> (r: Option<InstalledApp>)
    ensures
        r matches Some(a) ==> installed_app_spec(*e) == Some(a@),
        r is None ==> installed_app_spec(*e) is None,
        e.system_component == Some(1u32) ==> r is None,
        e.has_parent_key ==> r is None,
{
    let raw = match &e.display_name {
        Some(x) => x,
        None => {
            return None;
        },
    };
    let name_chars = trim_chars(&chars_of(raw.as_str()));
    if name_chars.len() == 0 {
        return None;
    }
    match e.system_component {
        Some(v) => {
            if v == 1 {
                return None;
            }
        },
        None => {},
    }
    if e.has_parent_key {
        return None;
    }
    let release = chars_of(or_empty_exec(&e.release_type).as_str());
    if contains_chars(&release, &chars_of("Update")) || starts_with_chars(&name_chars, &chars_of("Security Update"))
        || starts_with_chars(&name_chars, &chars_of("Update for")) {
        return None;
    }
    let kb: u64 = match e.estimated_size_kb {
        Some(k) => k as u64,
        None => 0,
    };
    let app = InstalledApp {
        name: string_of(&name_chars),
        version: or_empty_exec(&e.display_version),
        publisher: or_empty_exec(&e.publisher),
        install_location: non_blank_exec(&e.install_location),
        estimated_bytes: kb * 1024,
        uninstall_string: non_blank_exec(&e.uninstall_string),
        display_icon: non_blank_exec(&e.display_icon),
    };
    Some(app)
}

/// `a` sorts no later than `b` in `str`'s order (characters compared by
/// code point, which is also the order of their UTF-8 bytes).
pub open spec fn text_le(a: Seq<char>, b: Seq<char>) -> bool
    decreases a.len(),
{
    if a.len() == 0 {
        true
    } else if b.len() == 0 {
        false
    } else if a[0] != b[0] {
        a[0] < b[0]
    } else {
        text_le(a.drop_first(), b.drop_first())
    }
}

pub fn text_le_exec(a: &Vec<char>, b: &Vec<char>) -> (r: bool)
    ensures
        r == text_le(a@, b@),
{
    let mut i: usize = 0;
    proof {
        assert(a@.skip(0) =~= a@);
        assert(b@.skip(0) =~= b@);
    }
    while i < a.len() && i < b.len() && a[i] == b[i]
        invariant
            i <= a@.len(),
            i <= b@.len(),
            text_le(a@, b@) == text_le(a@.skip(i as int), b@.skip(i as int)),
        decreases a@.len() - i,
    {
        proof {
            assert(a@.skip(i as int).drop_first() =~= a@.skip(i + 1));
            assert(b@.skip(i as int).drop_first() =~= b@.skip(i + 1));
        }
        i = i + 1;
    }
    if i == a.len() {
        true
    } else if i == b.len() {
        false
    } else {
        a[i] < b[i]
    }
}

/// The order of the app list: largest first, then by name.
pub open spec fn app_before(a: InstalledAppView, b: InstalledAppView) -> bool {
    a.estimated_bytes > b.estimated_bytes || (a.estimated_bytes == b.estimated_bytes && text_le(a.name, b.name))
}

/// Adding `a` to the apps seen so far: a later entry with the same name
/// replaces an earlier one, unless the earlier one has an uninstall command
/// and is at least as large.
pub open spec fn merge_one(list: Seq<InstalledAppView>, a: InstalledAppView) -> Seq<InstalledAppView> {
    if exists|i: int| 0 <= i < list.len() && (#[trigger] list[i]).name == a.name {
        let i = choose|i: int| 0 <= i < list.len() && (#[trigger] list[i]).name == a.name;
        if list[i].uninstall_string is Some && list[i].estimated_bytes >= a.estimated_bytes {
            list
        } else {
            list.update(i, a)
        }
    } else {
        list.push(a)
    }
}

pub open spec fn merge_all(apps: Seq<InstalledAppView>) -> Seq<InstalledAppView>
    decreases apps.len(),
{
    if apps.len() == 0 {
        Seq::empty()
    } else {
        merge_one(merge_all(apps.drop_last()), apps.last())
    }
}

pub open spec fn names_distinct(list: Seq<InstalledAppView>) -> bool {
    forall|i: int, j: int| 0 <= i < j < list.len() ==> (#[trigger] list[i]).name != (#[trigger] list[j]).name
}

pub open spec fn apps_sorted(list: Seq<InstalledAppView>) -> bool {
    forall|i: int, j: int| 0 <= i < j < list.len() ==> app_before(#[trigger] list[i], #[trigger] list[j])
}

/// `str`'s order, stated directly: `a` sorts no later than `b` exactly when
/// `a` is a prefix of `b`, or at the first position where they differ `a`
/// has the smaller character.
pub proof fn lemma_text_le_is_str_order(a: Seq<char>, b: Seq<char>)
    ensures
        text_le(a, b) <==> ((a.len() <= b.len() && b.take(a.len() as int) == a) || exists|k: int|
            0 <= k < a.len() && k < b.len() && a.take(k) == b.take(k) && #[trigger] a[k] < b[k]),
    decreases a.len(),
{
    if a.len() == 0 {
        assert(b.take(0) =~= a);
    } else if b.len() == 0 {
    } else if a[0] != b[0] {
        if a.len() <= b.len() && b.take(a.len() as int) == a {
            assert(b.take(a.len() as int)[0] == b[0]);
        }
        if exists|k: int| 0 <= k < a.len() && k < b.len() && a.take(k) == b.take(k) && #[trigger] a[k] < b[k] {
            let k = choose|k: int| 0 <= k < a.len() && k < b.len() && a.take(k) == b.take(k) && #[trigger] a[k] < b[k];
            if k > 0 {
                assert(a.take(k)[0] == b.take(k)[0]);
            }
        }
        if a[0] < b[0] {
            assert(a.take(0) =~= b.take(0));
            assert(a[0] < b[0]);
        }
    } else {
        let a1 = a.drop_first();
        let b1 = b.drop_first();
        lemma_text_le_is_str_order(a1, b1);
        // prefix
        if a.len() <= b.len() && b.take(a.len() as int) == a {
            assert(b1.take(a1.len() as int) =~= a1) by {
                assert forall|i: int| 0 <= i < a1.len() implies #[trigger] b1.take(a1.len() as int)[i] == a1[i] by {
                    assert(b.take(a.len() as int)[i + 1] == a[i + 1]);
                }
            }
        }
        if a1.len() <= b1.len() && b1.take(a1.len() as int) == a1 {
            assert(b.take(a.len() as int) =~= a) by {
                assert forall|i: int| 0 <= i < a.len() implies #[trigger] b.take(a.len() as int)[i] == a[i] by {
                    if i > 0 {
                        assert(b1.take(a1.len() as int)[i - 1] == a1[i - 1]);
                    }
                }
            }
        }
        // a differing position
        if exists|k: int| 0 <= k < a.len() && k < b.len() && a.take(k) == b.take(k) && #[trigger] a[k] < b[k] {
            let k = choose|k: int| 0 <= k < a.len() && k < b.len() && a.take(k) == b.take(k) && #[trigger] a[k] < b[k];
            assert(k > 0);
            assert(a1.take(k - 1) =~= b1.take(k - 1)) by {
                assert forall|i: int| 0 <= i < k - 1 implies #[trigger] a1.take(k - 1)[i] == b1.take(k - 1)[i] by {
                    assert(a.take(k)[i + 1] == b.take(k)[i + 1]);
                }
            }
            assert(a1[k - 1] < b1[k - 1]);
        }
        if exists|k: int| 0 <= k < a1.len() && k < b1.len() && a1.take(k) == b1.take(k) && #[trigger] a1[k] < b1[k] {
            let k = choose|k: int| 0 <= k < a1.len() && k < b1.len() && a1.take(k) == b1.take(k) && #[trigger] a1[k] < b1[k];
            assert(a.take(k + 1) =~= b.take(k + 1)) by {
                assert forall|i: int| 0 <= i < k + 1 implies #[trigger] a.take(k + 1)[i] == b.take(k + 1)[i] by {
                    if i > 0 {
                        assert(a1.take(k)[i - 1] == b1.take(k)[i - 1]);
                    }
                }
            }
            assert(a[k + 1] < b[k + 1]);
        }
    }
}

pub proof fn lemma_text_le_total(a: Seq<char>, b: Seq<char>)
    ensures
        text_le(a, b) || text_le(b, a),
    decreases a.len(),
{
    if a.len() > 0 && b.len() > 0 && a[0] == b[0] {
        lemma_text_le_total(a.drop_first(), b.drop_first());
    }
}

pub proof fn lemma_text_le_trans(a: Seq<char>, b: Seq<char>, c: Seq<char>)
    requires
        text_le(a, b),
        text_le(b, c),
    ensures
        text_le(a, c),
    decreases a.len(),
{
    if a.len() > 0 && b.len() > 0 && c.len() > 0 && a[0] == b[0] && b[0] == c[0] {
        lemma_text_le_trans(a.drop_first(), b.drop_first(), c.drop_first());
    }
}

proof fn lemma_app_before_total(a: InstalledAppView, b: InstalledAppView)
    ensures
        app_before(a, b) || app_before(b, a),
{
    lemma_text_le_total(a.name, b.name);
}

proof fn lemma_app_before_trans(a: InstalledAppView, b: InstalledAppView, c: InstalledAppView)
    requires
        app_before(a, b),
        app_before(b, c),
    ensures
        app_before(a, c),
{
    if a.estimated_bytes == b.estimated_bytes && b.estimated_bytes == c.estimated_bytes {
        lemma_text_le_trans(a.name, b.name, c.name);
    }
}

/// The apps the Uninstall subkeys describe, in order.
pub open spec fn apps_of(entries: Seq<UninstallEntry>) -> Seq<InstalledAppView>
    decreases entries.len(),
{
    if entries.len() == 0 {
        Seq::empty()
    } else {
        apps_of(entries.drop_last()) + match installed_app_spec(entries.last()) {
            Some(a) => seq![a],
            None => Seq::empty(),
        }
    }
}

/// Which Uninstall entries give no app: those without a non-blank display
/// name, system components (`SystemComponent` = 1), entries with a parent
/// key (patches), and updates.
pub proof fn lemma_entries_left_out(e: UninstallEntry)
    ensures
        e.system_component == Some(1u32) ==> installed_app_spec(e) is None,
        e.has_parent_key ==> installed_app_spec(e) is None,
        e.display_name is None ==> installed_app_spec(e) is None,
        (e.display_name matches Some(raw) && trim(raw@).len() == 0) ==> installed_app_spec(e) is None,
        contains(or_empty(e.release_type), "Update"@) ==> installed_app_spec(e) is None,
        (e.display_name matches Some(raw) && (starts_with(trim(raw@), "Security Update"@) || starts_with(
            trim(raw@),
            "Update for"@,
        ))) ==> installed_app_spec(e) is None,
        installed_app_spec(e) matches Some(a) ==> e.display_name matches Some(raw) && a.name == trim(raw@)
            && a.name.len() > 0,
{
}

/// `a` is the app of one of the entries, one that is not a system
/// component and has no parent key.
pub open spec fn from_kept_entry(entries: Seq<UninstallEntry>, a: InstalledAppView) -> bool {
    exists|j: int|
        0 <= j < entries.len() && entries[j].system_component != Some(1u32) && !entries[j].has_parent_key
            && installed_app_spec(#[trigger] entries[j]) == Some(a)
}

/// Every app of `apps_of(entries)` is the app of one of the entries.
proof fn lemma_apps_of_from_entries(entries: Seq<UninstallEntry>)
    ensures
        forall|k: int|
            0 <= k < apps_of(entries).len() ==> exists|j: int|
                0 <= j < entries.len() && installed_app_spec(#[trigger] entries[j]) == Some(
                    #[trigger] apps_of(entries)[k],
                ),
    decreases entries.len(),
{
    if entries.len() > 0 {
        let prev = entries.drop_last();
        lemma_apps_of_from_entries(prev);
        let cur = apps_of(entries);
        assert forall|k: int| 0 <= k < cur.len() implies exists|j: int|
            0 <= j < entries.len() && installed_app_spec(#[trigger] entries[j]) == Some(#[trigger] cur[k]) by {
            if k < apps_of(prev).len() {
                assert(cur[k] == apps_of(prev)[k]);
                let j = choose|j: int| 0 <= j < prev.len() && installed_app_spec(#[trigger] prev[j]) == Some(
                    apps_of(prev)[k],
                );
                assert(entries[j] == prev[j]);
            } else {
                assert(installed_app_spec(entries[entries.len() - 1]) == Some(cur[k]));
            }
        }
    }
}

/// Merging keeps only apps that were given.
proof fn lemma_merge_all_from(apps: Seq<InstalledAppView>)
    ensures
        forall|k: int|
            0 <= k < merge_all(apps).len() ==> exists|m: int|
                0 <= m < apps.len() && #[trigger] merge_all(apps)[k] == #[trigger] apps[m],
    decreases apps.len(),
{
    if apps.len() > 0 {
        let prev = apps.drop_last();
        lemma_merge_all_from(prev);
        let before = merge_all(prev);
        let a = apps.last();
        let cur = merge_all(apps);
        assert forall|k: int| 0 <= k < cur.len() implies exists|m: int|
            0 <= m < apps.len() && #[trigger] cur[k] == #[trigger] apps[m] by {
            if k < before.len() && cur[k] == before[k] {
                let m = choose|m: int| 0 <= m < prev.len() && #[trigger] before[k] == #[trigger] prev[m];
                assert(apps[m] == prev[m]);
            } else {
                assert(cur[k] == a);
                assert(apps[apps.len() - 1] == a);
            }
        }
    }
}

/// No app listed comes from an entry the list leaves out: each is the app
/// of an entry that is not a system component and has no parent key.
pub proof fn lemma_listed_apps_from_kept_entries(entries: Seq<UninstallEntry>)
    ensures
        forall|k: int|
            0 <= k < merge_all(apps_of(entries)).len() ==> exists|j: int|
                0 <= j < entries.len() && entries[j].system_component != Some(1u32) && !entries[j].has_parent_key
                    && installed_app_spec(#[trigger] entries[j]) == Some(
                    #[trigger] merge_all(apps_of(entries))[k],
                ),
{
    let apps = apps_of(entries);
    lemma_apps_of_from_entries(entries);
    lemma_merge_all_from(apps);
    assert forall|k: int| 0 <= k < merge_all(apps).len() implies exists|j: int|
        0 <= j < entries.len() && entries[j].system_component != Some(1u32) && !entries[j].has_parent_key
            && installed_app_spec(#[trigger] entries[j]) == Some(#[trigger] merge_all(apps)[k]) by {
        let m = choose|m: int| 0 <= m < apps.len() && #[trigger] merge_all(apps)[k] == #[trigger] apps[m];
        let j = choose|j: int| 0 <= j < entries.len() && installed_app_spec(#[trigger] entries[j]) == Some(
            #[trigger] apps[m],
        );
        lemma_entries_left_out(entries[j]);
    }
}

proof fn lemma_merge_one_distinct(list: Seq<InstalledAppView>, a: InstalledAppView)
    requires
        names_distinct(list),
    ensures
        names_distinct(merge_one(list, a)),
{
    if exists|i: int| 0 <= i < list.len() && (#[trigger] list[i]).name == a.name {
        let i = choose|i: int| 0 <= i < list.len() && (#[trigger] list[i]).name == a.name;
        let r = merge_one(list, a);
        assert forall|x: int, y: int| 0 <= x < y < r.len() implies (#[trigger] r[x]).name != (#[trigger] r[y]).name by {
            if x != i && y != i {
                assert(r[x] == list[x] && r[y] == list[y]);
            }
        }
    } else {
        let r = merge_one(list, a);
        assert forall|x: int, y: int| 0 <= x < y < r.len() implies (#[trigger] r[x]).name != (#[trigger] r[y]).name by {
            if y == list.len() {
                assert(r[y] == a);
                assert(r[x] == list[x]);
            }
        }
    }
}

fn insert_sorted(out: &mut Vec<InstalledApp>, a: InstalledApp)
    requires
        apps_sorted(app_views(old(out)@)),
    ensures
        apps_sorted(app_views(final(out)@)),
        app_views(final(out)@).to_multiset() == app_views(old(out)@).to_multiset().insert(a@),
{
    let ghost before = app_views(out@);
    let mut p: usize = 0;
    let mut done = false;
    let name = chars_of(a.name.as_str());
    while p < out.len() && !done
        invariant
            p <= out@.len(),
            before == app_views(out@),
            name@ == a.name@,
            done ==> p < out@.len() && app_before(a@, before[p as int]),
            forall|q: int| 0 <= q < p ==> !app_before(a@, #[trigger] before[q]),
        decreases out@.len() - p, if done { 0int } else { 1int },
    {
        let other = chars_of(out[p].name.as_str());
        let ahead = a.estimated_bytes > out[p].estimated_bytes || (a.estimated_bytes == out[p].estimated_bytes
            && text_le_exec(&name, &other));
        if ahead {
            done = true;
        } else {
            p = p + 1;
        }
    }
    let ghost item = a@;
    out.insert(p, a);
    proof {
        let after = app_views(out@);
        assert(after =~= before.insert(p as int, item));
        vstd::seq_lib::to_multiset_insert(before, p as int, item);
        assert forall|i: int, j: int| 0 <= i < j < after.len() implies app_before(#[trigger] after[i], #[trigger] after[j]) by {
            if i < p && j < p {
                assert(after[i] == before[i] && after[j] == before[j]);
            } else if i < p && j == p {
                lemma_app_before_total(item, before[i]);
            } else if i < p && j > p {
                assert(after[i] == before[i] && after[j] == before[j - 1]);
            } else if i == p {
                assert(after[j] == before[j - 1]);
                assert(done);
                if j - 1 > p {
                    assert(app_before(before[p as int], before[j - 1]));
                    lemma_app_before_trans(item, before[p as int], before[j - 1]);
                }
            } else {
                assert(after[i] == before[i - 1] && after[j] == before[j - 1]);
            }
        }
    }
}

/// Installed applications from the registry Uninstall subkeys (read in
/// order): one per display name, a later entry replacing an earlier one
/// unless the earlier has an uninstall command and is at least as large,
/// listed largest first and then by name.
pub fn list_installed_from(entries: &Vec<UninstallEntry>) -> (r: Vec<InstalledApp>)
    ensures
        app_views(r@).to_multiset() == merge_all(apps_of(entries@)).to_multiset(),
        apps_sorted(app_views(r@)),
        forall|k: int| 0 <= k < r@.len() ==> from_kept_entry(entries@, (#[trigger] r@[k])@),
{
    let mut list: Vec<InstalledApp> = Vec::new();
    let mut i: usize = 0;
    proof {
        assert(entries@.take(0) =~= Seq::<UninstallEntry>::empty());
        assert(app_views(list@) =~= Seq::<InstalledAppView>::empty());
    }
    while i < entries.len()
        invariant
            i <= entries@.len(),
            app_views(list@) == merge_all(apps_of(entries@.take(i as int))),
            names_distinct(app_views(list@)),
        decreases entries@.len() - i,
    {
        proof {
            assert(entries@.take(i + 1).drop_last() =~= entries@.take(i as int));
            assert(entries@.take(i + 1).last() == entries@[i as int]);
        }
        let ghost lv = app_views(list@);
        match installed_app_from(&entries[i]) {
            Some(a) => {
                let name = chars_of(a.name.as_str());
                let mut j: usize = 0;
                let mut at: Option<usize> = None;
                while j < list.len() && at.is_none()
                    invariant
                        j <= list@.len(),
                        lv == app_views(list@),
                        name@ == a.name@,
                        at matches Some(x) ==> x < list@.len() && lv[x as int].name == a@.name,
                        at is None ==> forall|q: int| 0 <= q < j ==> lv[q].name != a@.name,
                    decreases list@.len() - j,
                {
                    let other = chars_of(list[j].name.as_str());
                    if eq_chars(&other, &name) {
                        at = Some(j);
                    }
                    j = j + 1;
                }
                let ghost av = a@;
                proof {
                    let aps = apps_of(entries@.take(i + 1));
                    assert(aps == apps_of(entries@.take(i as int)).push(av));
                    assert(aps.drop_last() =~= apps_of(entries@.take(i as int)));
                    assert(merge_all(aps) == merge_one(lv, av));
                    lemma_merge_one_distinct(lv, av);
                }
                match at {
                    Some(x) => {
                        proof {
                            let c = choose|c: int| 0 <= c < lv.len() && (#[trigger] lv[c]).name == av.name;
                            assert(lv[x as int].name == av.name);
                            if c != x {
                                if c < x {
                                    assert(lv[c].name != lv[x as int].name);
                                } else {
                                    assert(lv[x as int].name != lv[c].name);
                                }
                            }
                        }
                        if list[x].uninstall_string.is_some() && list[x].estimated_bytes >= a.estimated_bytes {
                        } else {
                            list.set(x, a);
                            proof {
                                assert(app_views(list@) =~= lv.update(x as int, av));
                            }
                        }
                    },
                    None => {
                        list.push(a);
                        proof {
                            assert(app_views(list@) =~= lv.push(av));
                        }
                    },
                }
            },
            None => {
                proof {
                    assert(apps_of(entries@.take(i + 1)) =~= apps_of(entries@.take(i as int)));
                }
            },
        }
        i = i + 1;
    }
    proof {
        assert(entries@.take(entries@.len() as int) =~= entries@);
    }
    let ghost merged = app_views(list@);
    let mut out: Vec<InstalledApp> = Vec::new();
    let mut k: usize = 0;
    proof {
        assert(app_views(out@) =~= Seq::<InstalledAppView>::empty());
        assert(merged.take(0) =~= Seq::<InstalledAppView>::empty());
    }
    while k < list.len()
        invariant
            k <= list@.len(),
            merged == app_views(list@),
            apps_sorted(app_views(out@)),
            app_views(out@).to_multiset() == merged.take(k as int).to_multiset(),
        decreases list@.len() - k,
    {
        let a = list[k].duplicate();
        insert_sorted(&mut out, a);
        proof {
            assert(merged.take(k + 1) =~= merged.take(k as int).push(merged[k as int]));
            vstd::seq_lib::to_multiset_build(merged.take(k as int), merged[k as int]);
        }
        k = k + 1;
    }
    proof {
        assert(merged.take(list@.len() as int) =~= merged);
        lemma_listed_apps_from_kept_entries(entries@);
        let ov = app_views(out@);
        assert forall|k: int| 0 <= k < out@.len() implies from_kept_entry(entries@, (#[trigger] out@[k])@) by {
            assert(ov[k] == out@[k]@);
            assert(ov.contains(ov[k]));
            vstd::seq_lib::to_multiset_contains(ov, ov[k]);
            vstd::seq_lib::to_multiset_contains(merged, ov[k]);
            let m = choose|m: int| 0 <= m < merged.len() && merged[m] == ov[k];
            let j = choose|j: int|
                0 <= j < entries@.len() && entries@[j].system_component != Some(1u32) && !entries@[j].has_parent_key
                    && installed_app_spec(#[trigger] entries@[j]) == Some(#[trigger] merge_all(apps_of(entries@))[m]);
        }
    }
    out
}

/// The install folder of an app: its recorded location, trimmed and
/// unquoted, when that leaves anything.
pub open spec fn install_dir_spec(location: Option<Seq<char>>) -> Option<Seq<char>> {
    match location {
        Some(l) => {
            let d = trim_char(trim(l), '"');
            if d.len() > 0 {
                Some(d)
            } else {
                None
            }
        },
        None => None,
    }
}

/// The app's install folder, if it records a usable one.
pub fn install_dir_of(app: &InstalledApp) -> (r: Option<String>)
    ensures
        opt_str(r) == install_dir_spec(app@.install_location),
{
    match &app.install_location {
        Some(l) => {
            let t = trim_chars(&chars_of(l.as_str()));
            let d = trim_char_chars(&t, '"');
            if d.len() > 0 {
                Some(string_of(&d))
            } else {
                None
            }
        },
        None => None,
    }
}

/// A process name with any `.exe` endings removed (`trim_end_matches`).
pub open spec fn strip_exe(s: Seq<char>) -> Seq<char>
    decreases s.len(),
{
    if s.len() >= 4 && s.skip(s.len() - 4) == ".exe"@ {
        strip_exe(s.take(s.len() - 4))
    } else {
        s
    }
}

fn strip_exe_chars(v: &Vec<char>) -> (r: Vec<char>)
    ensures
        r@ == strip_exe(v@),
{
    let ext = chars_of(".exe");
    proof {
        reveal_strlit(".exe");
    }
    let mut n = v.len();
    proof {
        assert(v@.take(n as int) =~= v@);
    }
    let mut more = n >= 4 && eq_chars(&slice_chars(v, n - 4, n), &ext);
    while more
        invariant
            n <= v@.len(),
            ext@ == ".exe"@,
            ext@.len() == 4,
            strip_exe(v@) == strip_exe(v@.take(n as int)),
            more == (n >= 4 && v@.subrange(n - 4, n as int) == ext@),
        decreases n,
    {
        proof {
            assert(v@.take(n as int).skip(n - 4) =~= v@.subrange(n - 4, n as int));
            assert(v@.take(n as int).take(n - 4) =~= v@.take(n - 4));
        }
        n = n - 4;
        more = n >= 4 && eq_chars(&slice_chars(v, n - 4, n), &ext);
    }
    proof {
        if n >= 4 {
            assert(v@.take(n as int).skip(n - 4) =~= v@.subrange(n - 4, n as int));
        }
    }
    slice_chars(v, 0, n)
}

/// A registry key an app is listed under: its hive (`HKLM` for the machine,
/// anything else for the user) and its path.
pub struct UninstallKey {
    pub hive: String,
    pub path: String,
}

/// What is on the machine for an app being forced off it, as found before
/// the elevated pass: Edge's own machine-wide uninstaller (when the app is
/// Edge and one was found), the folders still there, its registry keys and
/// its shortcuts.
pub struct ForceTargets {
    pub edge_setup: Option<String>,
    pub remaining_paths: Vec<String>,
    pub uninstall_keys: Vec<UninstallKey>,
    pub shortcuts: Vec<String>,
}

pub open spec fn stop_by_name(names: Seq<Seq<char>>) -> Seq<char>
    decreases names.len(),
{
    if names.len() == 0 {
        Seq::empty()
    } else {
        stop_by_name(names.drop_last()) + "Stop-Process -Name '"@ + escape_quotes(strip_exe(names.last()))
            + "' -Force -ErrorAction SilentlyContinue\n"@
    }
}

pub open spec fn recycle_all(paths: Seq<Seq<char>>) -> Seq<char>
    decreases paths.len(),
{
    if paths.len() == 0 {
        Seq::empty()
    } else {
        recycle_all(paths.drop_last()) + recycle_commands(escape_quotes(paths.last()))
    }
}

pub open spec fn hive_root(hive: Seq<char>) -> Seq<char> {
    if hive == "HKLM"@ {
        "HKEY_LOCAL_MACHINE"@
    } else {
        "HKEY_CURRENT_USER"@
    }
}

pub struct UninstallKeyView {
    pub hive: Seq<char>,
    pub path: Seq<char>,
}

pub open spec fn key_views(s: Seq<UninstallKey>) -> Seq<UninstallKeyView> {
    s.map_values(|k: UninstallKey| UninstallKeyView { hive: k.hive@, path: k.path@ })
}

pub open spec fn remove_keys(keys: Seq<UninstallKeyView>) -> Seq<char>
    decreases keys.len(),
{
    if keys.len() == 0 {
        Seq::empty()
    } else {
        remove_keys(keys.drop_last()) + "Remove-Item -Path 'Registry::"@ + hive_root(keys.last().hive) + "\\"@
            + escape_quotes(keys.last().path) + "' -Recurse -Force -ErrorAction SilentlyContinue\n"@
    }
}

/// Whether the elevated pass runs Edge's own machine-wide uninstaller:
/// only for Microsoft Edge itself, and only when it was found.
pub open spec fn runs_edge_uninstaller(app: InstalledAppView, edge_setup: Option<Seq<char>>) -> bool {
    is_edge_spec(app.name) && edge_setup is Some
}

/// The elevated force-uninstall script: stop the app's known helper
/// processes and anything running from its install folder, wait, run Edge's
/// own machine-wide uninstaller if this is Edge, then send the remaining
/// folders to the Recycle Bin, remove its registry keys and recycle its
/// shortcuts.
pub open spec fn force_uninstall_script_spec(
    app: InstalledAppView,
    edge_setup: Option<Seq<char>>,
    remaining: Seq<Seq<char>>,
    keys: Seq<UninstallKeyView>,
    shortcuts: Seq<Seq<char>>,
) -> Seq<char> {
    SCRIPT_HEADER@ + stop_by_name(known_processes_spec(app.name)) + match install_dir_spec(app.install_location) {
        Some(d) => "Get-Process | Where-Object { $_.Path -like '"@ + escape_quotes(d)
            + "\\*' } | Stop-Process -Force -ErrorAction SilentlyContinue\n"@,
        None => Seq::empty(),
    } + "Start-Sleep -Milliseconds 500\n"@ + (if runs_edge_uninstaller(app, edge_setup) {
        "try { Start-Process -FilePath '"@ + escape_quotes(edge_setup->0)
            + "' -ArgumentList '--uninstall','--system-level','--verbose-logging','--force-uninstall' -Wait -ErrorAction SilentlyContinue } catch { }\n"@
    } else {
        Seq::empty()
    }) + recycle_all(remaining) + remove_keys(keys) + recycle_all(shortcuts)
}

fn push_recycle_all(script: &mut String, paths: &Vec<String>)
    ensures
        final(script)@ == old(script)@ + recycle_all(string_views(paths@)),
{
    let ghost start = script@;
    let mut i: usize = 0;
    while i < paths.len()
        invariant
            i <= paths@.len(),
            script@ == start + recycle_all(string_views(paths@.take(i as int))),
        decreases paths@.len() - i,
    {
        let esc = escape_single_quotes(paths[i].as_str());
        let item = recycle_item_script_commands(esc.as_str());
        push_str(script, item.as_str());
        proof {
            assert(string_views(paths@.take(i + 1)).drop_last() =~= string_views(paths@.take(i as int)));
            assert(string_views(paths@.take(i + 1)).last() == paths@[i as int]@);
        }
        i = i + 1;
    }
    proof {
        assert(paths@.take(paths@.len() as int) =~= paths@);
    }
}

/// Assembles the PowerShell script that finishes whatever a forced
/// uninstall could not do without administrator rights, together with
/// whether it attempts Edge's own uninstaller, so the step report can
/// match. Runs nothing itself.
pub fn build_force_uninstall_script(app: &InstalledApp, targets: &ForceTargets) -> (r: (String, bool))
    ensures
        r.0@ == force_uninstall_script_spec(
            app@,
            opt_str(targets.edge_setup),
            string_views(targets.remaining_paths@),
            key_views(targets.uninstall_keys@),
            string_views(targets.shortcuts@),
        ),
        r.1 == runs_edge_uninstaller(app@, opt_str(targets.edge_setup)),
{
    let mut script = SCRIPT_HEADER.to_owned();
    let names = known_process_names(app.name.as_str());
    let mut i: usize = 0;
    let ghost s0 = script@;
    while i < names.len()
        invariant
            i <= names@.len(),
            script@ == s0 + stop_by_name(string_views(names@.take(i as int))),
        decreases names@.len() - i,
    {
        let base = strip_exe_chars(&chars_of(names[i].as_str()));
        let bs = string_of(&base);
        let esc = escape_single_quotes(bs.as_str());
        push_str(&mut script, "Stop-Process -Name '");
        push_str(&mut script, esc.as_str());
        push_str(&mut script, "' -Force -ErrorAction SilentlyContinue\n");
        proof {
            assert(string_views(names@.take(i + 1)).drop_last() =~= string_views(names@.take(i as int)));
            assert(string_views(names@.take(i + 1)).last() == names@[i as int]@);
        }
        i = i + 1;
    }
    proof {
        assert(names@.take(names@.len() as int) =~= names@);
    }
    match install_dir_of(app) {
        Some(dir) => {
            let esc = escape_single_quotes(dir.as_str());
            push_str(&mut script, "Get-Process | Where-Object { $_.Path -like '");
            push_str(&mut script, esc.as_str());
            push_str(&mut script, "\\*' } | Stop-Process -Force -ErrorAction SilentlyContinue\n");
        },
        None => {},
    }
    push_str(&mut script, "Start-Sleep -Milliseconds 500\n");
    let mut attempted_edge = false;
    if is_edge(app.name.as_str()) {
        match &targets.edge_setup {
            Some(setup) => {
                attempted_edge = true;
                let esc = escape_single_quotes(setup.as_str());
                push_str(&mut script, "try { Start-Process -FilePath '");
                push_str(&mut script, esc.as_str());
                push_str(
                    &mut script,
                    "' -ArgumentList '--uninstall','--system-level','--verbose-logging','--force-uninstall' -Wait -ErrorAction SilentlyContinue } catch { }\n",
                );
            },
            None => {},
        }
    }
    push_recycle_all(&mut script, &targets.remaining_paths);
    let keys = &targets.uninstall_keys;
    let mut k: usize = 0;
    let ghost s1 = script@;
    while k < keys.len()
        invariant
            k <= keys@.len(),
            script@ == s1 + remove_keys(key_views(keys@.take(k as int))),
        decreases keys@.len() - k,
    {
        let key = &keys[k];
        let hive = chars_of(key.hive.as_str());
        let root = if eq_chars(&hive, &chars_of("HKLM")) {
            "HKEY_LOCAL_MACHINE"
        } else {
            "HKEY_CURRENT_USER"
        };
        let esc = escape_single_quotes(key.path.as_str());
        push_str(&mut script, "Remove-Item -Path 'Registry::");
        push_str(&mut script, root);
        push_str(&mut script, "\\");
        push_str(&mut script, esc.as_str());
        push_str(&mut script, "' -Recurse -Force -ErrorAction SilentlyContinue\n");
        proof {
            assert(key_views(keys@.take(k + 1)).drop_last() =~= key_views(keys@.take(k as int)));
            assert(key_views(keys@.take(k + 1)).last() == UninstallKeyView { hive: key.hive@, path: key.path@ });
        }
        k = k + 1;
    }
    proof {
        assert(keys@.take(keys@.len() as int) =~= keys@);
    }
    push_recycle_all(&mut script, &targets.shortcuts);
    (script, attempted_edge)
}

/// One line of a forced uninstall's report.
pub struct ForceStep {
    pub label: String,
    pub ok: bool,
}

/// What a forced uninstall achieved, checked against the machine afterward.
pub struct ForceUninstallReport {
    pub steps: Vec<ForceStep>,
    /// No registry entry and no install folder left: the practical
    /// definition of "actually uninstalled now".
    pub complete: bool,
}

/// What was found on the machine after a forced uninstall.
pub struct ForceChecks {
    /// A process of the app is still running.
    pub processes_running: bool,
    /// Edge's own uninstaller is still there.
    pub edge_setup_present: bool,
    /// Nothing is left of the install folder or the leftovers.
    pub files_gone: bool,
    /// No Uninstall key for the app is left.
    pub registry_gone: bool,
    /// No shortcut for the app is left.
    pub shortcuts_gone: bool,
    /// The app's install folder (if it records one) still exists.
    pub install_dir_exists: bool,
}

pub const STEP_PROCESSES: &'static str = "Closed running processes";
pub const STEP_EDGE: &'static str = "Ran Microsoft Edge's own uninstaller";
pub const STEP_FILES: &'static str = "Removed the program's files";
pub const STEP_REGISTRY: &'static str = "Removed it from Installed Apps";
pub const STEP_SHORTCUTS: &'static str = "Removed shortcuts";

pub struct ForceStepView {
    pub label: Seq<char>,
    pub ok: bool,
}

pub open spec fn step_views(s: Seq<ForceStep>) -> Seq<ForceStepView> {
    s.map_values(|st: ForceStep| ForceStepView { label: st.label@, ok: st.ok })
}

/// The report: processes closed; Edge's uninstaller gone (only when this
/// pass tried it); files, registry entry and shortcuts removed. Complete
/// when the registry entry and the install folder are both gone.
pub open spec fn force_report_spec(c: ForceChecks, attempted_edge: bool) -> (Seq<ForceStepView>, bool) {
    let first = seq![ForceStepView { label: STEP_PROCESSES@, ok: !c.processes_running }];
    let edge = if attempted_edge {
        seq![ForceStepView { label: STEP_EDGE@, ok: !c.edge_setup_present }]
    } else {
        Seq::empty()
    };
    (
        first + edge + seq![
            ForceStepView { label: STEP_FILES@, ok: c.files_gone },
            ForceStepView { label: STEP_REGISTRY@, ok: c.registry_gone },
            ForceStepView { label: STEP_SHORTCUTS@, ok: c.shortcuts_gone },
        ],
        c.registry_gone && !c.install_dir_exists,
    )
}

/// Builds the step report of a forced uninstall from what is actually on
/// the machine now, never from what a removal attempt claimed.
pub fn force_report(c: &ForceChecks, attempted_edge: bool) -> (r: ForceUninstallReport)
    ensures
        (step_views(r.steps@), r.complete) == force_report_spec(*c, attempted_edge),
{
    let mut steps: Vec<ForceStep> = Vec::new();
    steps.push(ForceStep { label: STEP_PROCESSES.to_owned(), ok: !c.processes_running });
    if attempted_edge {
        steps.push(ForceStep { label: STEP_EDGE.to_owned(), ok: !c.edge_setup_present });
    }
    steps.push(ForceStep { label: STEP_FILES.to_owned(), ok: c.files_gone });
    steps.push(ForceStep { label: STEP_REGISTRY.to_owned(), ok: c.registry_gone });
    steps.push(ForceStep { label: STEP_SHORTCUTS.to_owned(), ok: c.shortcuts_gone });
    proof {
        assert(step_views(steps@) =~= force_report_spec(*c, attempted_edge).0);
    }
    ForceUninstallReport { steps, complete: c.registry_gone && !c.install_dir_exists }
}

/// `a < b` in the order of `Vec<u32>`: lexicographic, a proper prefix first.
pub open spec fn version_lt(a: Seq<u32>, b: Seq<u32>) -> bool
    decreases a.len(),
{
    if b.len() == 0 {
        false
    } else if a.len() == 0 {
        true
    } else if a[0] != b[0] {
        a[0] < b[0]
    } else {
        version_lt(a.drop_first(), b.drop_first())
    }
}

fn version_lt_exec(a: &Vec<u32>, b: &Vec<u32>) -> (r: bool)
    ensures
        r == version_lt(a@, b@),
{
    let mut i: usize = 0;
    proof {
        assert(a@.skip(0) =~= a@);
        assert(b@.skip(0) =~= b@);
    }
    while i < a.len() && i < b.len() && a[i] == b[i]
        invariant
            i <= a@.len(),
            i <= b@.len(),
            version_lt(a@, b@) == version_lt(a@.skip(i as int), b@.skip(i as int)),
        decreases a@.len() - i,
    {
        proof {
            assert(a@.skip(i as int).drop_first() =~= a@.skip(i + 1));
            assert(b@.skip(i as int).drop_first() =~= b@.skip(i + 1));
        }
        i = i + 1;
    }
    if i == b.len() {
        false
    } else if i == a.len() {
        true
    } else {
        a[i] < b[i]
    }
}

/// The entry (among the first `n`) holding the newest version that has an
/// uninstaller: a later entry wins only with a strictly newer version.
pub open spec fn newest_upto(names: Seq<Seq<char>>, has_setup: Seq<bool>, n: int) -> Option<int>
    decreases n,
{
    if n <= 0 {
        None
    } else {
        let best = newest_upto(names, has_setup, n - 1);
        let i = n - 1;
        match parse_version_spec(names[i]) {
            Some(v) => if has_setup[i] && match best {
                Some(b) => version_lt(parse_version_spec(names[b])->0, v),
                None => true,
            } {
                Some(i)
            } else {
                best
            },
            None => best,
        }
    }
}

/// Among Edge's version folders (their names, and whether each holds
/// `Installer\setup.exe`), the one with the highest version: the one still
/// valid to run, since Edge leaves old version folders behind.
pub fn newest_version(names: &Vec<String>, has_setup: &Vec<bool>) -> (r: Option<usize>)
    requires
        has_setup@.len() == names@.len(),
    ensures
        match r {
            Some(i) => newest_upto(string_views(names@), has_setup@, names@.len() as int) == Some(i as int),
            None => newest_upto(string_views(names@), has_setup@, names@.len() as int) is None,
        },
{
    let mut best: Option<usize> = None;
    let mut best_version: Vec<u32> = Vec::new();
    let mut i: usize = 0;
    while i < names.len()
        invariant
            i <= names@.len(),
            has_setup@.len() == names@.len(),
            match best {
                Some(b) => b < i && newest_upto(string_views(names@), has_setup@, i as int) == Some(b as int)
                    && parse_version_spec(names@[b as int]@) == Some(best_version@),
                None => newest_upto(string_views(names@), has_setup@, i as int) is None,
            },
        decreases names@.len() - i,
    {
        proof {
            assert(string_views(names@)[i as int] == names@[i as int]@);
            if best is Some {
                assert(string_views(names@)[best->0 as int] == names@[best->0 as int]@);
            }
        }
        match parse_version(names[i].as_str()) {
            Some(v) => {
                if has_setup[i] {
                    let newer = match best {
                        Some(_) => version_lt_exec(&best_version, &v),
                        None => true,
                    };
                    if newer {
                        best = Some(i);
                        best_version = v;
                    }
                }
            },
            None => {},
        }
        i = i + 1;
    }
    best
}

/// Whether a file name ends in the extension `ext`, ignoring ASCII case.
pub open spec fn ext_is(name: Seq<char>, ext: Seq<char>) -> bool {
    match name_extension(name) {
        Some(x) => x.len() == ext.len() && forall|k: int| 0 <= k < x.len() ==> ascii_lower(#[trigger] x[k]) == ext[k],
        None => false,
    }
}

/// `Path::file_stem` of a file name: the part before its last `.`, unless
/// there is no dot or the only dot starts the name.
pub open spec fn name_stem(name: Seq<char>) -> Seq<char> {
    let i = last_index(name, '.');
    if i <= 0 {
        name
    } else {
        name.take(i)
    }
}

/// A Start Menu or Desktop shortcut (`.lnk` or `.url`) whose name is
/// exactly one of the app's name forms. Explorer names a shortcut after the
/// app, and a fuzzy match would risk catching an unrelated shortcut.
pub open spec fn shortcut_matches_spec(path: Seq<char>, variants: Seq<Seq<char>>) -> bool {
    match file_name(path) {
        Some(n) => (ext_is(n, "lnk"@) || ext_is(n, "url"@)) && variants.contains(norm_spec(name_stem(n))),
        None => false,
    }
}

pub fn ext_is_exec(name: &Vec<char>, ext: &str) -> (b: bool)
    ensures
        b == ext_is(name@, ext@),
{
    let e = chars_of(ext);
    match name_extension_exec(name) {
        Some(x) => {
            if x.len() != e.len() {
                return false;
            }
            let mut k: usize = 0;
            while k < x.len()
                invariant
                    k <= x@.len(),
                    x@.len() == e@.len(),
                    e@ == ext@,
                    name_extension(name@) == Some(x@),
                    forall|j: int| 0 <= j < k ==> ascii_lower(#[trigger] x@[j]) == e@[j],
                decreases x@.len() - k,
            {
                if ascii_lower_char(x[k]) != e[k] {
                    return false;
                }
                k = k + 1;
            }
            true
        },
        None => false,
    }
}

pub fn name_stem_exec(name: &Vec<char>) -> (r: Vec<char>)
    ensures
        r@ == name_stem(name@),
{
    proof {
        lemma_last_index(name@, '.');
    }
    let mut i: usize = name.len();
    while i > 0 && name[i - 1] != '.'
        invariant
            i <= name@.len(),
            forall|j: int| i <= j < name@.len() ==> name@[j] != '.',
        decreases i,
    {
        i = i - 1;
    }
    proof {
        if i > 0 {
            assert(last_index(name@, '.') == i - 1);
        } else {
            assert(last_index(name@, '.') == -1);
        }
    }
    if i <= 1 {
        name.clone()
    } else {
        slice_chars(name, 0, i - 1)
    }
}

fn contains_text(list: &Vec<String>, v: &Vec<char>) -> (b: bool)
    ensures
        b == string_views(list@).contains(v@),
{
    let mut i: usize = 0;
    while i < list.len()
        invariant
            i <= list@.len(),
            forall|j: int| 0 <= j < i ==> list@[j]@ != v@,
        decreases list@.len() - i,
    {
        let w = chars_of(list[i].as_str());
        if eq_chars(&w, v) {
            proof {
                assert(string_views(list@)[i as int] == v@);
            }
            return true;
        }
        i = i + 1;
    }
    proof {
        if string_views(list@).contains(v@) {
            let j = choose|j: int| 0 <= j < string_views(list@).len() && string_views(list@)[j] == v@;
            assert(list@[j]@ == v@);
        }
    }
    false
}

/// Whether a file is a shortcut to the app (see `shortcut_matches_spec`).
pub fn shortcut_matches(path: &str, variants: &Vec<String>) -> (b: bool)
    ensures
        b == shortcut_matches_spec(path@, string_views(variants@)),
{
    let p = chars_of(path);
    match file_name_exec(&p) {
        Some(n) => {
            if !(ext_is_exec(&n, "lnk") || ext_is_exec(&n, "url")) {
                return false;
            }
            let stem = name_stem_exec(&n);
            let key = norm_chars(&stem);
            contains_text(variants, &key)
        },
        None => false,
    }
}

/// ASCII-case-insensitive equality of two names (`eq_ignore_ascii_case`).
pub open spec fn same_ignoring_ascii_case(a: Seq<char>, b: Seq<char>) -> bool {
    a.len() == b.len() && forall|k: int| 0 <= k < a.len() ==> ascii_lower(#[trigger] a[k]) == ascii_lower(b[k])
}

/// A running process is one of the app's known helpers.
pub fn is_known_process(process_name: &str, known: &Vec<String>) -> (b: bool)
    ensures
        b == exists|i: int| 0 <= i < known@.len() && same_ignoring_ascii_case(#[trigger] known@[i]@, process_name@),
{
    let p = chars_of(process_name);
    let mut i: usize = 0;
    while i < known.len()
        invariant
            i <= known@.len(),
            p@ == process_name@,
            forall|j: int| 0 <= j < i ==> !same_ignoring_ascii_case(#[trigger] known@[j]@, process_name@),
        decreases known@.len() - i,
    {
        let k = chars_of(known[i].as_str());
        let mut same = k.len() == p.len();
        let mut m: usize = 0;
        while same && m < k.len()
            invariant
                m <= k@.len(),
                same ==> k@.len() == p@.len(),
                same == (k@.len() == p@.len() && forall|x: int| 0 <= x < m ==> ascii_lower(#[trigger] k@[x]) == ascii_lower(p@[x])),
            decreases k@.len() - m,
        {
            if ascii_lower_char(k[m]) != ascii_lower_char(p[m]) {
                same = false;
            }
            m = m + 1;
        }
        if same {
            return true;
        }
        i = i + 1;
    }
    false
}

/// How an app's leftover folders are recognised: by one of its name forms,
/// or as `<Publisher>\<App>` below a publisher folder (never a bare
/// publisher folder, which may hold other apps' data).
pub struct LeftoverRules {
    pub variants: Vec<String>,
    /// The publisher's normalised name and first word, where at least
    /// three characters long.
    pub publisher_names: Vec<String>,
    /// The normalised last word of the app's base name (empty when none).
    pub last_token: String,
}

pub open spec fn publisher_names_spec(publisher: Seq<char>) -> Seq<Seq<char>> {
    long_enough(seq![norm_spec(publisher), publisher_first(publisher)])
}

pub open spec fn last_token_spec(name: Seq<char>) -> Seq<char> {
    let toks = words(base_name_spec(name));
    if toks.len() > 0 {
        norm_spec(toks.last())
    } else {
        Seq::empty()
    }
}

/// The rules for finding what an app (named `name`, published by
/// `publisher`) left behind.
pub fn leftover_rules(name: &str, publisher: &str) -> (r: LeftoverRules)
    ensures
        string_views(r.variants@) == name_variants_spec(name@, publisher@),
        string_views(r.publisher_names@) == publisher_names_spec(publisher@),
        r.last_token@ == last_token_spec(name@),
{
    let variants = name_variants(name, publisher);
    let pub_chars = chars_of(publisher);
    let whole = norm_chars(&pub_chars);
    let pub_words = words_of(&pub_chars);
    let first: Vec<char> = if pub_words.len() > 0 {
        norm_chars(&pub_words[0])
    } else {
        Vec::new()
    };
    let mut names: Vec<String> = Vec::new();
    if whole.len() >= 3 {
        names.push(string_of(&whole));
    }
    if first.len() >= 3 {
        names.push(string_of(&first));
    }
    proof {
        reveal_with_fuel(long_enough, 3);
        if pub_words@.len() > 0 {
            assert(char_views(pub_words@)[0] == pub_words@[0]@);
        }
        assert(first@ == publisher_first(publisher@));
        let raw = seq![norm_spec(publisher@), publisher_first(publisher@)];
        assert(raw.drop_last() =~= seq![norm_spec(publisher@)]);
        assert(raw.drop_last().drop_last() =~= Seq::<Seq<char>>::empty());
        assert(string_views(names@) =~= publisher_names_spec(publisher@));
    }
    let name_chars = chars_of(name);
    let base_ws = base_words(&name_chars);
    let base = join_with_spaces(&base_ws);
    let toks = words_of(&base);
    let last: Vec<char> = if toks.len() > 0 {
        norm_chars(&toks[toks.len() - 1])
    } else {
        Vec::new()
    };
    proof {
        if toks@.len() > 0 {
            assert(char_views(toks@).last() == toks@[toks@.len() - 1]@);
        }
    }
    LeftoverRules { variants, publisher_names: names, last_token: string_of(&last) }
}

/// A folder named for the app itself.
pub fn is_app_folder(rules: &LeftoverRules, folder_name: &str) -> (b: bool)
    ensures
        b == string_views(rules.variants@).contains(norm_spec(folder_name@)),
{
    let key = norm_chars(&chars_of(folder_name));
    contains_text(&rules.variants, &key)
}

/// A folder named for the app's publisher, to be looked into.
pub fn is_publisher_folder(rules: &LeftoverRules, folder_name: &str) -> (b: bool)
    ensures
        b == string_views(rules.publisher_names@).contains(norm_spec(folder_name@)),
{
    let key = norm_chars(&chars_of(folder_name));
    contains_text(&rules.publisher_names, &key)
}

/// A folder inside a publisher folder that belongs to the app: named for
/// it, or for the last word of its name when that is long enough.
pub fn is_app_subfolder(rules: &LeftoverRules, folder_name: &str) -> (b: bool)
    ensures
        b == (string_views(rules.variants@).contains(norm_spec(folder_name@)) || (rules.last_token@.len() >= 3
            && norm_spec(folder_name@) == rules.last_token@)),
{
    let key = norm_chars(&chars_of(folder_name));
    let last = chars_of(rules.last_token.as_str());
    contains_text(&rules.variants, &key) || (last.len() >= 3 && eq_chars(&key, &last))
}


/// Whether path `a` comes before path `b` in std's order on paths.
pub uninterp spec fn path_less(a: Seq<char>, b: Seq<char>) -> bool;

/// Whether path `a` comes before path `b` in std's order on paths: `<` on
/// `std::path::Path`, which compares the paths component by component.
/// The contract names the answer, a function of the two texts alone.
#[verifier::external_body]
fn path_precedes(a: &str, b: &str) -> (r: bool)
    ensures
        r == path_less(a@, b@),
{
    std::path::Path::new(a) < std::path::Path::new(b)
}

/// Where `x` goes in `s` from position `k` on: before the first path that
/// it precedes, so after those it does not.
pub open spec fn insert_pos(s: Seq<Seq<char>>, x: Seq<char>, k: int) -> int
    decreases s.len() - k,
{
    if k >= s.len() {
        s.len() as int
    } else if path_less(x, s[k]) {
        k
    } else {
        insert_pos(s, x, k + 1)
    }
}

/// The paths in path order, those no path precedes keeping their order
/// (a stable sort by `path_less`, one path inserted after another).
pub open spec fn path_sorted(s: Seq<Seq<char>>) -> Seq<Seq<char>>
    decreases s.len(),
{
    if s.len() == 0 {
        s
    } else {
        let t = path_sorted(s.drop_last());
        t.insert(insert_pos(t, s.last(), 0), s.last())
    }
}

proof fn lemma_insert_pos_bounds(s: Seq<Seq<char>>, x: Seq<char>, k: int)
    requires
        0 <= k <= s.len(),
    ensures
        k <= insert_pos(s, x, k) <= s.len(),
    decreases s.len() - k,
{
    if k < s.len() && !path_less(x, s[k]) {
        lemma_insert_pos_bounds(s, x, k + 1);
    }
}

proof fn lemma_path_sorted_len(s: Seq<Seq<char>>)
    ensures
        path_sorted(s).len() == s.len(),
    decreases s.len(),
{
    if s.len() > 0 {
        lemma_path_sorted_len(s.drop_last());
        lemma_insert_pos_bounds(path_sorted(s.drop_last()), s.last(), 0);
    }
}

/// The leftover candidates in path order (std's stable sort of paths), so
/// that leftovers of equal size come in that order.
pub fn in_path_order(paths: &Vec<String>) -> (r: Vec<String>)
    ensures
        string_views(r@) == path_sorted(string_views(paths@)),
{
    let ghost sv = string_views(paths@);
    let mut out: Vec<String> = Vec::new();
    let mut i: usize = 0;
    while i < paths.len()
        invariant
            i <= paths@.len(),
            sv == string_views(paths@),
            string_views(out@) == path_sorted(sv.take(i as int)),
        decreases paths@.len() - i,
    {
        let x = paths[i].clone();
        let ghost ov = string_views(out@);
        let mut j: usize = 0;
        loop
            invariant
                j <= out@.len(),
                ov == string_views(out@),
                i < sv.len(),
                x@ == sv[i as int],
                insert_pos(ov, x@, 0) == insert_pos(ov, x@, j as int),
            ensures
                j <= out@.len(),
                ov == string_views(out@),
                insert_pos(ov, x@, 0) == insert_pos(ov, x@, j as int),
                j == out@.len() || path_less(x@, ov[j as int]),
            decreases out@.len() - j,
        {
            if j == out.len() {
                break;
            }
            if path_precedes(x.as_str(), out[j].as_str()) {
                break;
            }
            j = j + 1;
        }
        proof {
            lemma_path_sorted_len(sv.take(i as int));
            assert(sv.take(i + 1).drop_last() =~= sv.take(i as int));
            assert(sv.take(i + 1).last() == x@);
            assert(insert_pos(ov, x@, j as int) == j);
        }
        out.insert(j, x);
        proof {
            assert(string_views(out@) =~= ov.insert(j as int, sv[i as int]));
        }
        i = i + 1;
    }
    proof {
        assert(sv.take(paths@.len() as int) =~= sv);
    }
    out
}

/// Two paths name the same place: each lies within the other, component by
/// component.
pub open spec fn same_place(a: Seq<char>, b: Seq<char>) -> bool {
    path_within(a, b) && path_within(b, a)
}

/// Whether candidate `i` is kept: no earlier candidate names the same
/// place, and it lies within no other candidate.
pub open spec fn outermost_at(cands: Seq<Seq<char>>, i: int) -> bool {
    &&& forall|j: int| 0 <= j < i ==> !same_place(cands[i], #[trigger] cands[j])
    &&& forall|j: int|
        0 <= j < cands.len() ==> !(path_within(cands[i], #[trigger] cands[j]) && !same_place(cands[i], cands[j]))
}

/// The kept candidates among the first `n`, in order.
pub open spec fn outermost_upto(cands: Seq<Seq<char>>, n: int) -> Seq<Seq<char>>
    decreases n,
{
    if n <= 0 {
        Seq::empty()
    } else {
        outermost_upto(cands, n - 1) + if outermost_at(cands, n - 1) {
            seq![cands[n - 1]]
        } else {
            Seq::empty()
        }
    }
}

/// The leftover folders to report from those found: each place once, and
/// none that lies within another.
pub fn outermost_paths(cands: &Vec<String>) -> (r: Vec<String>)
    ensures
        string_views(r@) == outermost_upto(string_views(cands@), cands@.len() as int),
{
    let ghost cv = string_views(cands@);
    let mut out: Vec<String> = Vec::new();
    let mut i: usize = 0;
    while i < cands.len()
        invariant
            i <= cands@.len(),
            cv == string_views(cands@),
            string_views(out@) == outermost_upto(cv, i as int),
        decreases cands@.len() - i,
    {
        let c = cands[i].as_str();
        let mut keep = true;
        let mut j: usize = 0;
        while j < cands.len()
            invariant
                j <= cands@.len(),
                i < cands@.len(),
                c@ == cv[i as int],
                cv == string_views(cands@),
                keep == ((forall|k: int| 0 <= k < j && k < i ==> !same_place(cv[i as int], #[trigger] cv[k]))
                    && (forall|k: int|
                    0 <= k < j ==> !(path_within(cv[i as int], #[trigger] cv[k]) && !same_place(cv[i as int], cv[k])))),
            decreases cands@.len() - j,
        {
            let o = cands[j].as_str();
            let inside = path_starts_with(c, o);
            let holds = path_starts_with(o, c);
            let same = inside && holds;
            proof {
                assert(cv[j as int] == o@);
            }
            if (j < i && same) || (inside && !same) {
                keep = false;
            }
            j = j + 1;
        }
        let ghost prev = string_views(out@);
        if keep {
            out.push(cands[i].clone());
            proof {
                assert(string_views(out@) =~= prev.push(cv[i as int]));
            }
        }
        proof {
            assert(keep == outermost_at(cv, i as int));
        }
        i = i + 1;
    }
    out
}

/// A folder an app left behind, and the bytes below it.
pub struct Leftover {
    pub path: String,
    pub size_bytes: u64,
}

pub open spec fn leftover_sizes(s: Seq<Leftover>) -> Seq<u64> {
    s.map_values(|l: Leftover| l.size_bytes)
}

pub open spec fn leftover_views(s: Seq<Leftover>) -> Seq<(Seq<char>, u64)> {
    s.map_values(|l: Leftover| (l.path@, l.size_bytes))
}

/// The leftovers, largest first.
pub fn largest_leftovers_first(found: Vec<Leftover>) -> (r: Vec<Leftover>)
    ensures
        exists|order: Seq<usize>|
            stable_desc_order(leftover_sizes(found@), order) && #[trigger] leftover_views(r@) == pick(
                leftover_views(found@),
                order,
            ),
{
    let mut sizes: Vec<u64> = Vec::new();
    let mut i: usize = 0;
    while i < found.len()
        invariant
            i <= found@.len(),
            sizes@ == leftover_sizes(found@).take(i as int),
        decreases found@.len() - i,
    {
        sizes.push(found[i].size_bytes);
        proof {
            assert(sizes@ =~= leftover_sizes(found@).take(i + 1));
        }
        i = i + 1;
    }
    proof {
        assert(sizes@ =~= leftover_sizes(found@));
    }
    let order = order_desc(&sizes);
    let mut out: Vec<Leftover> = Vec::new();
    let mut k: usize = 0;
    while k < order.len()
        invariant
            k <= order@.len(),
            order@.len() == found@.len(),
            sizes@ == leftover_sizes(found@),
            stable_desc_order(sizes@, order@),
            leftover_views(out@) == pick(leftover_views(found@), order@.take(k as int)),
        decreases order@.len() - k,
    {
        let at = order[k];
        let l = &found[at];
        out.push(Leftover { path: l.path.clone(), size_bytes: l.size_bytes });
        proof {
            assert(pick(leftover_views(found@), order@.take(k + 1)) =~= pick(
                leftover_views(found@),
                order@.take(k as int),
            ).push(leftover_views(found@)[at as int]));
            assert(leftover_views(out@) =~= pick(leftover_views(found@), order@.take(k + 1)));
        }
        k = k + 1;
    }
    proof {
        assert(order@.take(order@.len() as int) =~= order@);
    }
    out
}

} // verus!
