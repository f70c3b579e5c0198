//! Duplicate files: which files can be duplicates (same size), how hashes
//! split them into groups of identical copies, and how the groups are
//! ranked by wasted space.
use vstd::prelude::*;
use sha2::Digest;
use std::collections::HashMap;
use crate::order::{capped, largest_first, largest_positions, lemma_pick_largest, pick, stable_desc_order};
use crate::text::{chars_of, eq_chars, string_of};
use crate::uninstall::text_le;

verus! {

/// Files below this size are not considered; 1 byte means every non-empty
/// file is eligible (empty files are trivially identical and only noise).
pub const MIN_SIZE: u64 = 1;
/// First-pass hash length; only prefix collisions get a full hash.
pub const PREFIX_LEN: u64 = 128 * 1024;
/// At most this many groups are reported.
pub const MAX_GROUPS: usize = 500;

/// The positions (below `n`) whose key is `k`.
pub open spec fn positions_of<K>(keys: Seq<Option<K>>, k: K, n: int) -> Seq<int>
    decreases n,
{
    if n <= 0 {
        Seq::empty()
    } else {
        positions_of(keys, k, n - 1) + if keys[n - 1] == Some(k) {
            seq![n - 1]
        } else {
            Seq::empty()
        }
    }
}

/// Position `i` is the first with its key.
pub open spec fn first_with_key<K>(keys: Seq<Option<K>>, i: int) -> bool {
    forall|j: int| 0 <= j < i ==> keys[j] != keys[i]
}

/// Positions sharing a key, one group per key held by at least two
/// positions, in the order the keys first appear; positions without a key
/// (`None`) belong to no group.
pub open spec fn key_groups_upto<K>(keys: Seq<Option<K>>, n: int) -> Seq<Seq<int>>
    decreases n,
{
    if n <= 0 {
        Seq::empty()
    } else {
        let i = n - 1;
        key_groups_upto(keys, n - 1) + match keys[i] {
            Some(k) => if first_with_key(keys, i) && positions_of(keys, k, keys.len() as int).len() >= 2 {
                seq![positions_of(keys, k, keys.len() as int)]
            } else {
                Seq::empty()
            },
            None => Seq::empty(),
        }
    }
}

pub open spec fn key_groups<K>(keys: Seq<Option<K>>) -> Seq<Seq<int>> {
    key_groups_upto(keys, keys.len() as int)
}

/// The sizes by which files can be duplicates: every file of at least
/// `MIN_SIZE` bytes.
pub open spec fn size_keys(sizes: Seq<u64>) -> Seq<Option<u64>> {
    sizes.map_values(|s: u64| if s >= MIN_SIZE { Some(s) } else { None })
}

pub open spec fn index_views(g: Seq<Vec<usize>>) -> Seq<Seq<int>> {
    g.map_values(|v: Vec<usize>| v@.map_values(|x: usize| x as int))
}

/// The keys in the order they first appear (each once).
pub open spec fn first_keys_upto<K>(keys: Seq<Option<K>>, n: int) -> Seq<K>
    decreases n,
{
    if n <= 0 {
        Seq::empty()
    } else {
        first_keys_upto(keys, n - 1) + match keys[n - 1] {
            Some(k) => if first_with_key(keys, n - 1) {
                seq![k]
            } else {
                Seq::empty()
            },
            None => Seq::empty(),
        }
    }
}

/// For each of `firsts` in turn, the positions holding it, where at least
/// two do.
pub open spec fn groups_of_firsts<K>(firsts: Seq<K>, keys: Seq<Option<K>>) -> Seq<Seq<int>>
    decreases firsts.len(),
{
    if firsts.len() == 0 {
        Seq::empty()
    } else {
        let p = positions_of(keys, firsts.last(), keys.len() as int);
        groups_of_firsts(firsts.drop_last(), keys) + if p.len() >= 2 {
            seq![p]
        } else {
            Seq::empty()
        }
    }
}

/// The key groups are those of the keys taken in first-appearance order.
proof fn lemma_key_groups_by_firsts<K>(keys: Seq<Option<K>>, m: int)
    requires
        0 <= m <= keys.len(),
    ensures
        key_groups_upto(keys, m) == groups_of_firsts(first_keys_upto(keys, m), keys),
    decreases m,
{
    if m > 0 {
        lemma_key_groups_by_firsts(keys, m - 1);
        let prev = first_keys_upto(keys, m - 1);
        match keys[m - 1] {
            Some(k) => if first_with_key(keys, m - 1) {
                assert(first_keys_upto(keys, m).drop_last() =~= prev);
            } else {
                assert(first_keys_upto(keys, m) =~= prev);
            },
            None => {
                assert(first_keys_upto(keys, m) =~= prev);
            },
        }
    }
}

/// The first-appearance keys are distinct, and are exactly the keys held
/// below `i`.
proof fn lemma_first_keys<K>(keys: Seq<Option<K>>, i: int)
    requires
        0 <= i <= keys.len(),
    ensures
        forall|k: K| #[trigger] first_keys_upto(keys, i).contains(k) <==> exists|x: int| 0 <= x < i && keys[x] == Some(k),
        forall|a: int, b: int|
            0 <= a < b < first_keys_upto(keys, i).len() ==> first_keys_upto(keys, i)[a] != first_keys_upto(keys, i)[b],
    decreases i,
{
    if i > 0 {
        lemma_first_keys(keys, i - 1);
        let prev = first_keys_upto(keys, i - 1);
        let cur = first_keys_upto(keys, i);
        assert forall|k: K| #[trigger] cur.contains(k) <==> exists|x: int| 0 <= x < i && keys[x] == Some(k) by {
            if cur.contains(k) {
                let a = choose|a: int| 0 <= a < cur.len() && cur[a] == k;
                if a < prev.len() {
                    assert(prev[a] == k);
                    assert(prev.contains(k));
                } else {
                    assert(keys[i - 1] == Some(k));
                }
            }
            if exists|x: int| 0 <= x < i && keys[x] == Some(k) {
                let x = choose|x: int| 0 <= x < i && keys[x] == Some(k);
                if x < i - 1 {
                    assert(prev.contains(k));
                    let a = choose|a: int| 0 <= a < prev.len() && prev[a] == k;
                    assert(cur[a] == k);
                } else {
                    if first_with_key(keys, i - 1) {
                        assert(cur[cur.len() - 1] == k);
                    } else {
                        let y = choose|y: int| 0 <= y < i - 1 && #[trigger] keys[y] == keys[i - 1];
                        assert(prev.contains(k));
                        let a = choose|a: int| 0 <= a < prev.len() && prev[a] == k;
                        assert(cur[a] == k);
                    }
                }
            }
        }
        assert forall|a: int, b: int| 0 <= a < b < cur.len() implies cur[a] != cur[b] by {
            if b >= prev.len() {
                assert(prev[a] == cur[a]);
                assert(prev.contains(cur[a]));
                let x = choose|x: int| 0 <= x < i - 1 && keys[x] == Some(cur[a]);
                assert(keys[i - 1] == Some(cur[b]));
            }
        }
    }
}

/// A key held nowhere below `i` has no positions below `i`.
proof fn lemma_no_positions<K>(keys: Seq<Option<K>>, k: K, i: int)
    requires
        0 <= i <= keys.len(),
        forall|x: int| 0 <= x < i ==> keys[x] != Some(k),
    ensures
        positions_of(keys, k, i) == Seq::<int>::empty(),
    decreases i,
{
    if i > 0 {
        lemma_no_positions(keys, k, i - 1);
    }
}

/// Only files sharing an exact size can be duplicates: the positions of
/// the files of each size held by at least two of them (files under
/// `MIN_SIZE` left out), in the order the sizes first appear. Each size is
/// looked up in a `HashMap` from size to its group.
pub fn size_groups(sizes: &Vec<u64>) -> (r: Vec<Vec<usize>>)
    ensures
        index_views(r@) == key_groups(size_keys(sizes@)),
{
    broadcast use vstd::std_specs::hash::group_hash_axioms;
    let ghost keys = size_keys(sizes@);
    let mut all: Vec<Vec<usize>> = Vec::new();
    let mut slot: HashMap<u64, usize> = HashMap::new();
    let mut i: usize = 0;
    while i < sizes.len()
        invariant
            i <= sizes@.len(),
            keys == size_keys(sizes@),
            all@.len() == first_keys_upto(keys, i as int).len(),
            forall|t: int|
                0 <= t < all@.len() ==> (#[trigger] all@[t])@.map_values(|x: usize| x as int) == positions_of(
                    keys,
                    first_keys_upto(keys, i as int)[t],
                    i as int,
                ),
            forall|k: u64| #[trigger] slot@.contains_key(k) <==> first_keys_upto(keys, i as int).contains(k),
            forall|k: u64|
                #[trigger] slot@.contains_key(k) ==> slot@[k] < all@.len() && first_keys_upto(keys, i as int)[slot@[k] as int]
                    == k,
        decreases sizes@.len() - i,
    {
        let v = sizes[i];
        let ghost fk = first_keys_upto(keys, i as int);
        let ghost before = all@;
        proof {
            assert(keys[i as int] == (if v >= MIN_SIZE { Some(v) } else { None }));
            lemma_first_keys(keys, i as int);
            lemma_first_keys(keys, i + 1);
        }
        if v >= MIN_SIZE {
            match slot.get(&v) {
                Some(t_ref) => {
                    let t = *t_ref;
                    proof {
                        assert(fk.contains(v));
                        let x = choose|x: int| 0 <= x < i && keys[x] == Some(v);
                        assert(!first_with_key(keys, i as int));
                        assert(first_keys_upto(keys, i + 1) =~= fk);
                    }
                    all[t].push(i);
                    proof {
                        assert forall|u: int| 0 <= u < all@.len() implies (#[trigger] all@[u])@.map_values(
                            |x: usize| x as int,
                        ) == positions_of(keys, first_keys_upto(keys, i + 1)[u], i + 1) by {
                            if u == t {
                                assert(all@[u]@.map_values(|x: usize| x as int) =~= before[u]@.map_values(
                                    |x: usize| x as int,
                                ).push(i as int));
                            } else {
                                assert(all@[u] == before[u]);
                                assert(fk[u] != fk[t as int]);
                            }
                        }
                    }
                },
                None => {
                    proof {
                        assert(!fk.contains(v));
                        assert(first_with_key(keys, i as int));
                        assert(first_keys_upto(keys, i + 1) =~= fk.push(v));
                        lemma_no_positions(keys, v, i as int);
                    }
                    let t = all.len();
                    let mut g: Vec<usize> = Vec::new();
                    g.push(i);
                    all.push(g);
                    slot.insert(v, t);
                    proof {
                        let nk = first_keys_upto(keys, i + 1);
                        assert forall|u: int| 0 <= u < all@.len() implies (#[trigger] all@[u])@.map_values(
                            |x: usize| x as int,
                        ) == positions_of(keys, nk[u], i + 1) by {
                            if u == t {
                                assert(all@[u]@.map_values(|x: usize| x as int) =~= seq![i as int]);
                                assert(positions_of(keys, v, i + 1) =~= seq![i as int]);
                            } else {
                                assert(all@[u] == before[u]);
                                assert(nk[u] == fk[u]);
                                assert(fk.contains(fk[u]));
                            }
                        }
                        assert forall|k: u64| #[trigger] slot@.contains_key(k) <==> nk.contains(k) by {
                            if k == v {
                                assert(nk[nk.len() - 1] == v);
                            } else if nk.contains(k) {
                                let a = choose|a: int| 0 <= a < nk.len() && nk[a] == k;
                                assert(fk[a] == k);
                                assert(fk.contains(k));
                            } else if fk.contains(k) {
                                let a = choose|a: int| 0 <= a < fk.len() && fk[a] == k;
                                assert(nk[a] == k);
                            }
                        }
                    }
                },
            }
        } else {
            proof {
                assert(first_keys_upto(keys, i + 1) =~= fk);
                assert forall|u: int| 0 <= u < all@.len() implies (#[trigger] all@[u])@.map_values(
                    |x: usize| x as int,
                ) == positions_of(keys, first_keys_upto(keys, i + 1)[u], i + 1) by {
                    assert(positions_of(keys, fk[u], i + 1) == positions_of(keys, fk[u], i as int));
                }
            }
        }
        i = i + 1;
    }
    let ghost fk = first_keys_upto(keys, keys.len() as int);
    let mut out: Vec<Vec<usize>> = Vec::new();
    let mut t: usize = 0;
    while t < all.len()
        invariant
            t <= all@.len(),
            all@.len() == fk.len(),
            keys == size_keys(sizes@),
            fk == first_keys_upto(keys, keys.len() as int),
            forall|u: int|
                0 <= u < all@.len() ==> (#[trigger] all@[u])@.map_values(|x: usize| x as int) == positions_of(
                    keys,
                    fk[u],
                    keys.len() as int,
                ),
            index_views(out@) == groups_of_firsts(fk.take(t as int), keys),
        decreases all@.len() - t,
    {
        proof {
            assert(fk.take(t + 1).drop_last() =~= fk.take(t as int));
            assert(fk.take(t + 1).last() == fk[t as int]);
        }
        if all[t].len() >= 2 {
            out.push(all[t].clone());
            proof {
                assert(index_views(out@) =~= index_views(out@.drop_last()).push(
                    positions_of(keys, fk[t as int], keys.len() as int),
                ));
            }
        }
        proof {
            assert(index_views(out@) =~= groups_of_firsts(fk.take(t + 1), keys));
        }
        t = t + 1;
    }
    proof {
        assert(fk.take(fk.len() as int) =~= fk);
        lemma_key_groups_by_firsts(keys, keys.len() as int);
    }
    out
}

pub open spec fn hash_keys(hashes: Seq<Option<String>>) -> Seq<Option<Seq<char>>> {
    hashes.map_values(|h: Option<String>| match h {
        Some(x) => Some(x@),
        None => None,
    })
}

fn same_hash(a: &Option<String>, b: &Option<String>) -> (r: bool)
    ensures
        r == (hash_keys(seq![*a])[0] == hash_keys(seq![*b])[0] && a is Some),
{
    match (a, b) {
        (Some(x), Some(y)) => eq_chars(&chars_of(x.as_str()), &chars_of(y.as_str())),
        _ => false,
    }
}

/// Files of one size split by a hash of their contents (`None` where the
/// file could not be read): the positions of each hash held by at least two
/// files, in the order the hashes first appear.
pub fn hash_groups(hashes: &Vec<Option<String>>) -> (r: Vec<Vec<usize>>)
    ensures
        index_views(r@) == key_groups(hash_keys(hashes@)),
{
    let ghost keys = hash_keys(hashes@);
    let mut out: Vec<Vec<usize>> = Vec::new();
    let mut i: usize = 0;
    while i < hashes.len()
        invariant
            i <= hashes@.len(),
            keys == hash_keys(hashes@),
            index_views(out@) == key_groups_upto(keys, i as int),
        decreases hashes@.len() - i,
    {
        let ghost before = out@;
        proof {
            assert(hash_keys(seq![hashes@[i as int]])[0] == keys[i as int]);
        }
        if hashes[i].is_some() {
            let mut first = true;
            let mut j: usize = 0;
            while j < i
                invariant
                    j <= i < hashes@.len(),
                    keys == hash_keys(hashes@),
                    keys[i as int] is Some,
                    first == forall|x: int| 0 <= x < j ==> keys[x] != keys[i as int],
                decreases i - j,
            {
                proof {
                    assert(hash_keys(seq![hashes@[j as int]])[0] == keys[j as int]);
                    assert(hash_keys(seq![hashes@[i as int]])[0] == keys[i as int]);
                }
                if same_hash(&hashes[j], &hashes[i]) {
                    first = false;
                }
                j = j + 1;
            }
            if first {
                let ghost k = keys[i as int]->0;
                let mut members: Vec<usize> = Vec::new();
                let mut m: usize = 0;
                while m < hashes.len()
                    invariant
                        m <= hashes@.len(),
                        keys == hash_keys(hashes@),
                        keys[i as int] == Some(k),
                        i < hashes@.len(),
                        members@.map_values(|x: usize| x as int) == positions_of(keys, k, m as int),
                    decreases hashes@.len() - m,
                {
                    proof {
                        assert(hash_keys(seq![hashes@[m as int]])[0] == keys[m as int]);
                        assert(hash_keys(seq![hashes@[i as int]])[0] == keys[i as int]);
                    }
                    if same_hash(&hashes[m], &hashes[i]) {
                        members.push(m);
                    }
                    proof {
                        assert(members@.map_values(|x: usize| x as int) =~= positions_of(keys, k, m + 1));
                    }
                    m = m + 1;
                }
                if members.len() >= 2 {
                    out.push(members);
                    proof {
                        assert(index_views(out@) =~= index_views(before).push(positions_of(keys, k, keys.len() as int)));
                    }
                }
            }
        }
        proof {
            assert(index_views(out@) =~= key_groups_upto(keys, i + 1));
        }
        i = i + 1;
    }
    out
}

/// Whether files of this size need a full hash after their prefix hashes
/// matched: only when the prefix did not already cover the whole file.
pub fn needs_full_hash(size: u64) -> (b: bool)
    ensures
        b == (size > PREFIX_LEN),
{
    size > PREFIX_LEN
}

/// What becomes of one group of files whose hashes matched.
pub enum HashOutcome {
    /// Identical copies: their hash and their positions.
    Identical { hash: String, members: Vec<usize> },
    /// The prefix hashes matched but did not cover the files: these
    /// positions are to be hashed in full.
    HashInFull { members: Vec<usize> },
}

pub enum HashOutcomeView {
    Identical { hash: Seq<char>, members: Seq<int> },
    HashInFull { members: Seq<int> },
}

pub open spec fn hash_outcome_view(o: HashOutcome) -> HashOutcomeView {
    match o {
        HashOutcome::Identical { hash, members } => HashOutcomeView::Identical {
            hash: hash@,
            members: members@.map_values(|x: usize| x as int),
        },
        HashOutcome::HashInFull { members } => HashOutcomeView::HashInFull {
            members: members@.map_values(|x: usize| x as int),
        },
    }
}

/// The outcome for a group of positions whose hashes matched: after a
/// prefix pass on files longer than the prefix, a full hash; otherwise
/// identical copies under their (common) hash.
pub open spec fn outcome_of(
    size: u64,
    prefix_pass: bool,
    keys: Seq<Option<Seq<char>>>,
    group: Seq<int>,
) -> HashOutcomeView {
    if prefix_pass && size > PREFIX_LEN {
        HashOutcomeView::HashInFull { members: group }
    } else {
        HashOutcomeView::Identical {
            hash: match keys[group[0]] {
                Some(h) => h,
                None => Seq::empty(),
            },
            members: group,
        }
    }
}

/// Every position of `k` below `n` lies below `n`.
proof fn lemma_positions_below<K>(keys: Seq<Option<K>>, k: K, n: int)
    requires
        0 <= n <= keys.len(),
    ensures
        forall|a: int| 0 <= a < positions_of(keys, k, n).len() ==> 0 <= #[trigger] positions_of(keys, k, n)[a] < n,
    decreases n,
{
    if n > 0 {
        lemma_positions_below(keys, k, n - 1);
        let prev = positions_of(keys, k, n - 1);
        let cur = positions_of(keys, k, n);
        assert forall|a: int| 0 <= a < cur.len() implies 0 <= #[trigger] cur[a] < n by {
            if a < prev.len() {
                assert(cur[a] == prev[a]);
            }
        }
    }
}

/// Every key group holds at least two positions, each a position of the
/// keys.
proof fn lemma_key_groups_members<K>(keys: Seq<Option<K>>, m: int)
    requires
        0 <= m <= keys.len(),
    ensures
        forall|t: int|
            0 <= t < key_groups_upto(keys, m).len() ==> (#[trigger] key_groups_upto(keys, m)[t]).len() >= 2
                && forall|a: int|
                0 <= a < key_groups_upto(keys, m)[t].len() ==> 0 <= #[trigger] key_groups_upto(keys, m)[t][a]
                    < keys.len(),
    decreases m,
{
    if m > 0 {
        lemma_key_groups_members(keys, m - 1);
        let prev = key_groups_upto(keys, m - 1);
        let cur = key_groups_upto(keys, m);
        match keys[m - 1] {
            Some(k) => lemma_positions_below(keys, k, keys.len() as int),
            None => {},
        }
        assert forall|t: int| 0 <= t < cur.len() implies (#[trigger] cur[t]).len() >= 2 && forall|a: int|
            0 <= a < cur[t].len() ==> 0 <= #[trigger] cur[t][a] < keys.len() by {
            if t < prev.len() {
                assert(cur[t] == prev[t]);
            } else {
                let k = keys[m - 1]->0;
                assert(cur[t] == positions_of(keys, k, keys.len() as int));
            }
        }
    }
}

/// One step of the duplicate search: the files (of one size) have been
/// hashed, by their first `PREFIX_LEN` bytes when `prefix_pass` and in
/// full otherwise (`None` where a file could not be read). Each group of
/// matching hashes (see `hash_groups`), in order, either is a set of
/// identical copies or, after a prefix pass on files longer than the
/// prefix, is to be hashed in full.
pub fn after_hashing(size: u64, prefix_pass: bool, hashes: &Vec<Option<String>>) -> (r: Vec<HashOutcome>)
    ensures
        r@.len() == key_groups(hash_keys(hashes@)).len(),
        forall|t: int|
            0 <= t < r@.len() ==> hash_outcome_view(#[trigger] r@[t]) == outcome_of(
                size,
                prefix_pass,
                hash_keys(hashes@),
                key_groups(hash_keys(hashes@))[t],
            ),
{
    let ghost keys = hash_keys(hashes@);
    let groups = hash_groups(hashes);
    proof {
        lemma_key_groups_members(keys, keys.len() as int);
    }
    let full = prefix_pass && needs_full_hash(size);
    let mut out: Vec<HashOutcome> = Vec::new();
    let mut t: usize = 0;
    while t < groups.len()
        invariant
            t <= groups@.len(),
            keys == hash_keys(hashes@),
            index_views(groups@) == key_groups(keys),
            full == (prefix_pass && size > PREFIX_LEN),
            forall|u: int|
                0 <= u < key_groups(keys).len() ==> (#[trigger] key_groups(keys)[u]).len() >= 2 && forall|a: int|
                    0 <= a < key_groups(keys)[u].len() ==> 0 <= #[trigger] key_groups(keys)[u][a] < keys.len(),
            out@.len() == t,
            forall|u: int|
                0 <= u < t ==> hash_outcome_view(#[trigger] out@[u]) == outcome_of(
                    size,
                    prefix_pass,
                    keys,
                    key_groups(keys)[u],
                ),
        decreases groups@.len() - t,
    {
        let members = groups[t].clone();
        proof {
            assert(index_views(groups@)[t as int] == groups@[t as int]@.map_values(|x: usize| x as int));
            assert(members@.map_values(|x: usize| x as int) == key_groups(keys)[t as int]);
        }
        if full {
            out.push(HashOutcome::HashInFull { members });
        } else {
            proof {
                assert(members@.len() >= 2);
                assert(members@.map_values(|x: usize| x as int)[0] == members@[0] as int);
                assert(members@[0] < hashes@.len());
                assert(hash_keys(hashes@)[members@[0] as int] == match hashes@[members@[0] as int] {
                    Some(x) => Some(x@),
                    None => None,
                });
            }
            let hash = match &hashes[members[0]] {
                Some(h) => h.clone(),
                None => String::new(),
            };
            out.push(HashOutcome::Identical { hash, members });
        }
        t = t + 1;
    }
    out
}

/// Files of one size waiting to be hashed: by their first `PREFIX_LEN`
/// bytes (`prefix_pass`) or in full. `files` are positions in the list of
/// files found.
pub struct HashJob {
    pub size: u64,
    pub prefix_pass: bool,
    pub files: Vec<usize>,
}

pub struct HashJobView {
    pub size: u64,
    pub prefix_pass: bool,
    pub files: Seq<int>,
}

impl View for HashJob {
    type V = HashJobView;

    open spec fn view(&self) -> HashJobView {
        HashJobView { size: self.size, prefix_pass: self.prefix_pass, files: self.files@.map_values(|x: usize| x as int) }
    }
}

/// Identical files found: their hash, their size and their positions in
/// the list of files found.
pub struct FoundGroup {
    pub hash: String,
    pub size: u64,
    pub files: Vec<usize>,
}

pub struct FoundGroupView {
    pub hash: Seq<char>,
    pub size: u64,
    pub files: Seq<int>,
}

impl View for FoundGroup {
    type V = FoundGroupView;

    open spec fn view(&self) -> FoundGroupView {
        FoundGroupView { hash: self.hash@, size: self.size, files: self.files@.map_values(|x: usize| x as int) }
    }
}

pub open spec fn job_views(v: Seq<HashJob>) -> Seq<HashJobView> {
    v.map_values(|j: HashJob| j@)
}

pub open spec fn found_views(v: Seq<FoundGroup>) -> Seq<FoundGroupView> {
    v.map_values(|g: FoundGroup| g@)
}

/// The first jobs of a duplicate search over files of these sizes: each
/// group of equal sizes (see `size_groups`), to be hashed by its prefix.
pub open spec fn first_jobs_spec(sizes: Seq<u64>) -> Seq<HashJobView> {
    key_groups(size_keys(sizes)).map_values(
        |g: Seq<int>| HashJobView { size: sizes[g[0]], prefix_pass: true, files: g },
    )
}

/// The outcomes of the first `m` hash groups of a job, as further jobs and
/// groups found; positions within the job become positions of the files.
pub open spec fn job_step_upto(
    job: HashJobView,
    keys: Seq<Option<Seq<char>>>,
    m: int,
) -> (Seq<HashJobView>, Seq<FoundGroupView>)
    decreases m,
{
    if m <= 0 {
        (Seq::empty(), Seq::empty())
    } else {
        let prev = job_step_upto(job, keys, m - 1);
        match outcome_of(job.size, job.prefix_pass, keys, key_groups(keys)[m - 1]) {
            HashOutcomeView::HashInFull { members } => (
                prev.0.push(
                    HashJobView {
                        size: job.size,
                        prefix_pass: false,
                        files: members.map_values(|x: int| job.files[x]),
                    },
                ),
                prev.1,
            ),
            HashOutcomeView::Identical { hash, members } => (
                prev.0,
                prev.1.push(
                    FoundGroupView { hash, size: job.size, files: members.map_values(|x: int| job.files[x]) },
                ),
            ),
        }
    }
}

/// What a job's hashes (one per file, in order) lead to: the jobs still to
/// do and the groups of identical files found (see `after_hashing`).
pub open spec fn job_step(job: HashJobView, keys: Seq<Option<Seq<char>>>) -> (Seq<HashJobView>, Seq<FoundGroupView>) {
    job_step_upto(job, keys, key_groups(keys).len() as int)
}

/// The first jobs of a duplicate search: every group of files sharing a
/// size of at least `MIN_SIZE` bytes, to be hashed by its prefix.
pub fn first_jobs(sizes: &Vec<u64>) -> (r: Vec<HashJob>)
    ensures
        job_views(r@) == first_jobs_spec(sizes@),
{
    let groups = size_groups(sizes);
    let ghost keys = size_keys(sizes@);
    proof {
        lemma_key_groups_members(keys, keys.len() as int);
    }
    let mut out: Vec<HashJob> = Vec::new();
    let mut t: usize = 0;
    while t < groups.len()
        invariant
            t <= groups@.len(),
            keys == size_keys(sizes@),
            index_views(groups@) == key_groups(keys),
            forall|u: int|
                0 <= u < key_groups(keys).len() ==> (#[trigger] key_groups(keys)[u]).len() >= 2 && forall|a: int|
                    0 <= a < key_groups(keys)[u].len() ==> 0 <= #[trigger] key_groups(keys)[u][a] < keys.len(),
            job_views(out@) == first_jobs_spec(sizes@).take(t as int),
        decreases groups@.len() - t,
    {
        let files = groups[t].clone();
        proof {
            assert(index_views(groups@)[t as int] == groups@[t as int]@.map_values(|x: usize| x as int));
            assert(files@.map_values(|x: usize| x as int)[0] == files@[0] as int);
        }
        let size = sizes[files[0]];
        let ghost g = key_groups(keys)[t as int];
        let ghost before = out@;
        out.push(HashJob { size, prefix_pass: true, files });
        proof {
            assert(out@.last()@.files == g);
            assert(g[0] == out@.last().files@[0] as int);
            assert(out@.last()@ == first_jobs_spec(sizes@)[t as int]);
            assert(job_views(out@) =~= job_views(before).push(out@.last()@));
            assert(job_views(out@) =~= first_jobs_spec(sizes@).take(t + 1));
        }
        t = t + 1;
    }
    proof {
        assert(first_jobs_spec(sizes@).take(groups@.len() as int) =~= first_jobs_spec(sizes@));
    }
    out
}

fn files_at(files: &Vec<usize>, members: &Vec<usize>) -> (r: Vec<usize>)
    requires
        forall|a: int| 0 <= a < members@.len() ==> #[trigger] members@[a] < files@.len(),
    ensures
        r@.map_values(|x: usize| x as int) == members@.map_values(|x: usize| x as int).map_values(
            |x: int| files@.map_values(|y: usize| y as int)[x],
        ),
{
    let mut out: Vec<usize> = Vec::new();
    let mut a: usize = 0;
    while a < members.len()
        invariant
            a <= members@.len(),
            forall|b: int| 0 <= b < members@.len() ==> #[trigger] members@[b] < files@.len(),
            out@.len() == a,
            forall|b: int| 0 <= b < a ==> #[trigger] out@[b] == files@[members@[b] as int],
        decreases members@.len() - a,
    {
        out.push(files[members[a]]);
        a = a + 1;
    }
    proof {
        assert(out@.map_values(|x: usize| x as int) =~= members@.map_values(|x: usize| x as int).map_values(
            |x: int| files@.map_values(|y: usize| y as int)[x],
        ));
    }
    out
}

/// One step of a duplicate search: `hashes` are the hashes of the job's
/// files, in order (`None` where one could not be read). The result is the
/// jobs this leads to (full hashes after a prefix pass on files longer than
/// the prefix) and the groups of identical files found, in the order of
/// the hash groups.
pub fn hashed_job(job: &HashJob, hashes: &Vec<Option<String>>) -> (r: (Vec<HashJob>, Vec<FoundGroup>))
    requires
        hashes@.len() == job.files@.len(),
    ensures
        (job_views(r.0@), found_views(r.1@)) == job_step(job@, hash_keys(hashes@)),
{
    let ghost keys = hash_keys(hashes@);
    let outcomes = after_hashing(job.size, job.prefix_pass, hashes);
    proof {
        lemma_key_groups_members(keys, keys.len() as int);
    }
    let mut jobs: Vec<HashJob> = Vec::new();
    let mut found: Vec<FoundGroup> = Vec::new();
    let mut t: usize = 0;
    while t < outcomes.len()
        invariant
            t <= outcomes@.len(),
            keys == hash_keys(hashes@),
            hashes@.len() == job.files@.len(),
            outcomes@.len() == key_groups(keys).len(),
            forall|u: int|
                0 <= u < outcomes@.len() ==> hash_outcome_view(#[trigger] outcomes@[u]) == outcome_of(
                    job.size,
                    job.prefix_pass,
                    keys,
                    key_groups(keys)[u],
                ),
            forall|u: int|
                0 <= u < key_groups(keys).len() ==> (#[trigger] key_groups(keys)[u]).len() >= 2 && forall|a: int|
                    0 <= a < key_groups(keys)[u].len() ==> 0 <= #[trigger] key_groups(keys)[u][a] < keys.len(),
            (job_views(jobs@), found_views(found@)) == job_step_upto(job@, keys, t as int),
        decreases outcomes@.len() - t,
    {
        let ghost g = key_groups(keys)[t as int];
        let ghost o = hash_outcome_view(outcomes@[t as int]);
        match &outcomes[t] {
            HashOutcome::HashInFull { members } => {
                proof {
                    assert(members@.map_values(|x: usize| x as int) == g);
                    assert forall|a: int| 0 <= a < members@.len() implies #[trigger] members@[a] < job.files@.len() by {
                        assert(g[a] == members@[a] as int);
                    }
                }
                let files = files_at(&job.files, members);
                jobs.push(HashJob { size: job.size, prefix_pass: false, files });
                proof {
                    assert(job_views(jobs@) =~= job_step_upto(job@, keys, t + 1).0);
                    assert(found_views(found@) =~= job_step_upto(job@, keys, t + 1).1);
                }
            },
            HashOutcome::Identical { hash, members } => {
                proof {
                    assert(members@.map_values(|x: usize| x as int) == g);
                    assert forall|a: int| 0 <= a < members@.len() implies #[trigger] members@[a] < job.files@.len() by {
                        assert(g[a] == members@[a] as int);
                    }
                }
                let files = files_at(&job.files, members);
                found.push(FoundGroup { hash: hash.clone(), size: job.size, files });
                proof {
                    assert(job_views(jobs@) =~= job_step_upto(job@, keys, t + 1).0);
                    assert(found_views(found@) =~= job_step_upto(job@, keys, t + 1).1);
                }
            },
        }
        t = t + 1;
    }
    (jobs, found)
}

/// A running SHA-256 (the `sha2` crate's `Sha256`) of a file's contents,
/// fed chunk by chunk.
#[verifier::external_body]
pub struct ContentHasher {
    state: sha2::Sha256,
}

/// The SHA-256 digest of `bytes`, as the `sha2` crate computes it.
pub uninterp spec fn sha256_digest(bytes: Seq<u8>) -> Seq<u8>;

/// The bytes a hasher has been fed so far.
pub uninterp spec fn sha256_fed(h: ContentHasher) -> Seq<u8>;

impl ContentHasher {
    /// `Sha256::new`: a hasher that has been fed nothing.
    #[verifier::external_body]
    fn start() -> (r: ContentHasher)
        ensures
            sha256_fed(r) == Seq::<u8>::empty(),
    {
        ContentHasher { state: sha2::Sha256::new() }
    }

    /// `Digest::update`: feeds the next chunk after what came before.
    #[verifier::external_body]
    fn feed(&mut self, chunk: &[u8])
        ensures
            sha256_fed(*final(self)) == sha256_fed(*old(self)) + chunk@,
    {
        self.state.update(chunk);
    }

    /// A hasher that has been fed nothing.
    pub fn new() -> (r: ContentHasher)
        ensures
            sha256_fed(r) == Seq::<u8>::empty(),
    {
        ContentHasher::start()
    }

    /// Feeds the next chunk of the file, after what came before.
    pub fn update(&mut self, chunk: &[u8])
        ensures
            sha256_fed(*final(self)) == sha256_fed(*old(self)) + chunk@,
    {
        self.feed(chunk);
    }

    /// `Digest::finalize`: the 32-byte digest of everything fed.
    #[verifier::external_body]
    fn digest(self) -> (r: Vec<u8>)
        ensures
            r@ == sha256_digest(sha256_fed(self)),
            r@.len() == 32,
    {
        self.state.finalize().to_vec()
    }

    /// The lowercase hex digest of everything fed (`format!("{:x}", ..)`).
    pub fn finish(self) -> (r: String)
        ensures
            r@ == hex_spec(sha256_digest(sha256_fed(self))),
    {
        let d = self.digest();
        hex(&d)
    }
}

pub open spec fn hex_digit(n: int) -> char {
    if n < 10 {
        ((n + 48) as u32) as char
    } else {
        ((n + 87) as u32) as char
    }
}

/// Lowercase hexadecimal, two digits per byte.
pub open spec fn hex_spec(bytes: Seq<u8>) -> Seq<char>
    decreases bytes.len(),
{
    if bytes.len() == 0 {
        Seq::empty()
    } else {
        hex_spec(bytes.drop_last()) + seq![hex_digit(bytes.last() as int / 16), hex_digit(bytes.last() as int % 16)]
    }
}

fn hex_char(n: u8) -> (c: char)
    requires
        n < 16,
    ensures
        c == hex_digit(n as int),
{
    let table: [char; 16] = ['0', '1', '2', '3', '4', '5', '6', '7', '8', '9', 'a', 'b', 'c', 'd', 'e', 'f'];
    proof {
        assert(table@[n as int] == hex_digit(n as int)) by {
            reveal_with_fuel(hex_digit, 1);
        }
    }
    table[n as usize]
}

/// Bytes as lowercase hexadecimal.
pub fn hex(bytes: &Vec<u8>) -> (r: String)
    ensures
        r@ == hex_spec(bytes@),
{
    let mut out: Vec<char> = Vec::new();
    let mut i: usize = 0;
    while i < bytes.len()
        invariant
            i <= bytes@.len(),
            out@ == hex_spec(bytes@.take(i as int)),
        decreases bytes@.len() - i,
    {
        proof {
            assert(bytes@.take(i + 1).drop_last() =~= bytes@.take(i as int));
            assert(bytes@.take(i + 1).last() == bytes@[i as int]);
        }
        let b = bytes[i];
        out.push(hex_char(b / 16));
        out.push(hex_char(b % 16));
        proof {
            assert(out@ =~= hex_spec(bytes@.take(i + 1)));
        }
        i = i + 1;
    }
    proof {
        assert(bytes@.take(bytes@.len() as int) =~= bytes@);
    }
    string_of(&out)
}

/// One copy of a duplicated file.
pub struct DupeFile {
    pub path: String,
    pub modified_at: String,
}

pub struct DupeFileView {
    pub path: Seq<char>,
    pub modified: Seq<char>,
}

impl View for DupeFile {
    type V = DupeFileView;

    open spec fn view(&self) -> DupeFileView {
        DupeFileView { path: self.path@, modified: self.modified_at@ }
    }
}

impl DupeFile {
    pub fn duplicate(&self) -> (r: DupeFile)
        ensures
            r@ == self@,
    {
        DupeFile { path: self.path.clone(), modified_at: self.modified_at.clone() }
    }
}

pub open spec fn file_views(s: Seq<DupeFile>) -> Seq<DupeFileView> {
    s.map_values(|f: DupeFile| f@)
}

/// Identical files: a short form of their hash, their size, and the copies,
/// oldest first.
pub struct DupeGroup {
    pub hash: String,
    pub size_bytes: u64,
    pub files: Vec<DupeFile>,
}

pub struct DupeGroupView {
    pub hash: Seq<char>,
    pub size: u64,
    pub files: Seq<DupeFileView>,
}

impl View for DupeGroup {
    type V = DupeGroupView;

    open spec fn view(&self) -> DupeGroupView {
        DupeGroupView { hash: self.hash@, size: self.size_bytes, files: file_views(self.files@) }
    }
}

fn copy_files(files: &Vec<DupeFile>) -> (r: Vec<DupeFile>)
    ensures
        file_views(r@) == file_views(files@),
{
    let mut out: Vec<DupeFile> = Vec::new();
    let mut i: usize = 0;
    while i < files.len()
        invariant
            i <= files@.len(),
            file_views(out@) == file_views(files@).take(i as int),
        decreases files@.len() - i,
    {
        let f = files[i].duplicate();
        let ghost prev = out@;
        out.push(f);
        proof {
            assert(file_views(out@) =~= file_views(prev).push(f@));
            assert(file_views(files@).take(i + 1) =~= file_views(files@).take(i as int).push(files@[i as int]@));
        }
        i = i + 1;
    }
    proof {
        assert(file_views(files@).take(files@.len() as int) =~= file_views(files@));
    }
    out
}

impl DupeGroup {
    pub fn duplicate(&self) -> (r: DupeGroup)
        ensures
            r@ == self@,
    {
        DupeGroup { hash: self.hash.clone(), size_bytes: self.size_bytes, files: copy_files(&self.files) }
    }
}

pub open spec fn group_views(s: Seq<DupeGroup>) -> Seq<DupeGroupView> {
    s.map_values(|g: DupeGroup| g@)
}

proof fn lemma_text_le_antisym(a: Seq<char>, b: Seq<char>)
    requires
        text_le(a, b),
        text_le(b, a),
    ensures
        a == b,
    decreases a.len(),
{
    if a.len() > 0 && b.len() > 0 {
        lemma_text_le_antisym(a.drop_first(), b.drop_first());
        assert(a =~= seq![a[0]] + a.drop_first());
        assert(b =~= seq![b[0]] + b.drop_first());
    }
}

/// `order` lists the positions of `keys` sorted by key, equal keys keeping
/// the order they were given in (a stable sort).
pub open spec fn stable_sorted(keys: Seq<Seq<char>>, order: Seq<usize>) -> bool {
    forall|i: int, j: int|
        0 <= i < j < order.len() ==> text_le(keys[#[trigger] order[i] as int], keys[#[trigger] order[j] as int]) && (
        keys[order[i] as int] == keys[order[j] as int] ==> order[i] < order[j])
}

fn stable_order(keys: &Vec<Vec<char>>) -> (order: Vec<usize>)
    ensures
        order@.to_multiset() == crate::order::positions(keys@.len()).to_multiset(),
        forall|k: int| 0 <= k < order@.len() ==> order@[k] < keys@.len(),
        stable_sorted(char_views(keys@), order@),
{
    let ghost kv = char_views(keys@);
    let mut order: Vec<usize> = Vec::new();
    let mut x: usize = 0;
    proof {
        assert(crate::order::positions(0) =~= Seq::<usize>::empty());
    }
    while x < keys.len()
        invariant
            x <= keys@.len(),
            kv == char_views(keys@),
            order@.to_multiset() == crate::order::positions(x as nat).to_multiset(),
            forall|k: int| 0 <= k < order@.len() ==> order@[k] < x,
            stable_sorted(kv, order@),
        decreases keys@.len() - x,
    {
        let mut p: usize = 0;
        let mut done = false;
        let ghost before = order@;
        proof {
            assert(order@.len() == x) by {
                broadcast use vstd::seq_lib::group_to_multiset_ensures;
                assert(order@.to_multiset().len() == crate::order::positions(x as nat).to_multiset().len());
            }
        }
        while p < order.len() && !done
            invariant
                p <= order@.len(),
                order@ == before,
                kv == char_views(keys@),
                x < keys@.len(),
                forall|k: int| 0 <= k < order@.len() ==> order@[k] < x,
                done ==> p < order@.len() && !text_le(kv[order@[p as int] as int], kv[x as int]),
                forall|q: int| 0 <= q < p ==> text_le(#[trigger] kv[order@[q] as int], kv[x as int]),
            decreases order@.len() - p, if done { 0int } else { 1int },
        {
            proof {
                assert(kv[order@[p as int] as int] == keys@[order@[p as int] as int]@);
                assert(kv[x as int] == keys@[x as int]@);
            }
            if crate::uninstall::text_le_exec(&keys[order[p]], &keys[x]) {
                p = p + 1;
            } else {
                done = true;
            }
        }
        order.insert(p, x);
        proof {
            let after = order@;
            assert(after =~= before.insert(p as int, x));
            vstd::seq_lib::to_multiset_insert(before, p as int, x);
            assert(crate::order::positions((x + 1) as nat) =~= crate::order::positions(x as nat).push(x));
            vstd::seq_lib::to_multiset_build(crate::order::positions(x as nat), x);
            assert(after.to_multiset() =~= before.to_multiset().insert(x));
            assert forall|i: int, j: int| 0 <= i < j < after.len() implies text_le(kv[#[trigger] after[i] as int], kv[#[trigger] after[j] as int])
                && (kv[after[i] as int] == kv[after[j] as int] ==> after[i] < after[j]) by {
                if i < p && j < p {
                    assert(after[i] == before[i] && after[j] == before[j]);
                } else if i < p && j == p {
                    assert(after[i] == before[i]);
                    assert(before[i] < x);
                } else if i < p && j > p {
                    assert(after[i] == before[i] && after[j] == before[j - 1]);
                } else if i == p {
                    assert(after[j] == before[j - 1]);
                    assert(done);
                    let b = before[p as int] as int;
                    crate::uninstall::lemma_text_le_total(kv[b], kv[x as int]);
                    if j - 1 > p {
                        crate::uninstall::lemma_text_le_trans(kv[x as int], kv[b], kv[before[j - 1] as int]);
                    }
                    if kv[x as int] == kv[before[j - 1] as int] {
                        if j - 1 == p {
                            assert(false);
                        } else {
                            lemma_text_le_antisym(kv[b], kv[x as int]);
                            assert(false);
                        }
                    }
                } else {
                    assert(after[i] == before[i - 1] && after[j] == before[j - 1]);
                }
            }
        }
        x = x + 1;
    }
    order
}

/// A group of identical files of `size` bytes: the first sixteen characters
/// of the hash, and the copies sorted by modification time, oldest first
/// (treated as the copy to keep); copies with equal times keep their
/// order.
pub fn make_group(hash: &String, size: u64, files: &Vec<DupeFile>) -> (r: DupeGroup)
    requires
        hash@.len() >= 16,
    ensures
        r@.hash == hash@.take(16),
        r@.size == size,
        exists|order: Seq<usize>|
            order.to_multiset() == crate::order::positions(files@.len()).to_multiset() && (forall|k: int|
                0 <= k < order.len() ==> order[k] < files@.len()) && stable_sorted(
                file_views(files@).map_values(|f: DupeFileView| f.modified),
                order,
            ) && r@.files == pick(file_views(files@), order),
        forall|i: int, j: int|
            0 <= i < j < r@.files.len() ==> text_le(#[trigger] r@.files[i].modified, #[trigger] r@.files[j].modified),
{
    let mut keys: Vec<Vec<char>> = Vec::new();
    let mut i: usize = 0;
    while i < files.len()
        invariant
            i <= files@.len(),
            char_views(keys@) == file_views(files@).map_values(|f: DupeFileView| f.modified).take(i as int),
        decreases files@.len() - i,
    {
        let ghost prev = keys@;
        keys.push(chars_of(files[i].modified_at.as_str()));
        proof {
            assert(char_views(keys@) =~= char_views(prev).push(files@[i as int].modified_at@));
            assert(file_views(files@).map_values(|f: DupeFileView| f.modified).take(i + 1) =~= file_views(
                files@,
            ).map_values(|f: DupeFileView| f.modified).take(i as int).push(files@[i as int].modified_at@));
        }
        i = i + 1;
    }
    proof {
        assert(file_views(files@).map_values(|f: DupeFileView| f.modified).take(files@.len() as int)
            =~= file_views(files@).map_values(|f: DupeFileView| f.modified));
    }
    let order = stable_order(&keys);
    let mut sorted: Vec<DupeFile> = Vec::new();
    let mut k: usize = 0;
    while k < order.len()
        invariant
            k <= order@.len(),
            forall|m: int| 0 <= m < order@.len() ==> order@[m] < keys@.len(),
            keys@.len() == files@.len(),
            file_views(sorted@) == pick(file_views(files@), order@).take(k as int),
        decreases order@.len() - k,
    {
        let f = files[order[k]].duplicate();
        let ghost prev = sorted@;
        sorted.push(f);
        proof {
            assert(file_views(sorted@) =~= file_views(prev).push(f@));
            assert(pick(file_views(files@), order@).take(k + 1) =~= pick(file_views(files@), order@).take(k as int).push(
                file_views(files@)[order@[k as int] as int],
            ));
        }
        k = k + 1;
    }
    proof {
        assert(pick(file_views(files@), order@).take(order@.len() as int) =~= pick(file_views(files@), order@));
    }
    let hv = chars_of(hash.as_str());
    let short = crate::text::slice_chars(&hv, 0, 16);
    proof {
        assert(short@ =~= hash@.take(16));
        let fv = file_views(files@);
        let mv = fv.map_values(|f: DupeFileView| f.modified);
        assert forall|i: int, j: int| 0 <= i < j < file_views(sorted@).len() implies text_le(
            #[trigger] file_views(sorted@)[i].modified,
            #[trigger] file_views(sorted@)[j].modified,
        ) by {
            assert(file_views(sorted@)[i] == fv[order@[i] as int]);
            assert(file_views(sorted@)[j] == fv[order@[j] as int]);
            assert(mv[order@[i] as int] == fv[order@[i] as int].modified);
            assert(mv[order@[j] as int] == fv[order@[j] as int].modified);
        }
    }
    let r = DupeGroup { hash: string_of(&short), size_bytes: size, files: sorted };
    proof {
        assert(r@.files == file_views(sorted@));
    }
    r
}

pub open spec fn char_views(v: Seq<Vec<char>>) -> Seq<Seq<char>> {
    v.map_values(|w: Vec<char>| w@)
}

/// The space a group wastes: its size for every copy beyond the first.
pub open spec fn waste(g: DupeGroupView) -> int {
    g.size * (g.files.len() - 1)
}

/// Every group has a copy, and its waste fits 64 bits.
pub open spec fn groups_fit(gs: Seq<DupeGroupView>) -> bool {
    forall|i: int| 0 <= i < gs.len() ==> (#[trigger] gs[i]).files.len() >= 1 && waste(gs[i]) <= u64::MAX
}

/// The groups worth showing: largest wasted space first, at most
/// `MAX_GROUPS`.
pub fn rank_groups(groups: &Vec<DupeGroup>) -> (r: Vec<DupeGroup>)
    requires
        groups_fit(group_views(groups@)),
    ensures
        largest_first(group_views(groups@), |g: DupeGroupView| waste(g), MAX_GROUPS as nat, group_views(r@)),
{
    let mut keys: Vec<u64> = Vec::new();
    let mut i: usize = 0;
    while i < groups.len()
        invariant
            i <= groups@.len(),
            groups_fit(group_views(groups@)),
            keys@.len() == i,
            forall|j: int| 0 <= j < i ==> keys@[j] as int == waste(group_views(groups@)[j]),
        decreases groups@.len() - i,
    {
        let g = &groups[i];
        proof {
            assert(group_views(groups@)[i as int] == g@);
            assert(g@.files.len() == g.files@.len());
            assert(g.size_bytes * (g.files@.len() - 1) <= u64::MAX);
        }
        let n = g.files.len() as u64;
        let w = g.size_bytes * (n - 1);
        keys.push(w);
        i = i + 1;
    }
    let chosen = largest_positions(&keys, MAX_GROUPS);
    let ghost order = choose|order: Seq<usize>|
        stable_desc_order(keys@, order) && order.len() == keys@.len() && chosen@ == order.take(
            capped(keys@.len(), MAX_GROUPS as nat) as int,
        );
    let mut out: Vec<DupeGroup> = Vec::new();
    let mut k: usize = 0;
    while k < chosen.len()
        invariant
            k <= chosen@.len(),
            chosen@ == order.take(capped(keys@.len(), MAX_GROUPS as nat) as int),
            stable_desc_order(keys@, order),
            order.len() == keys@.len(),
            keys@.len() == groups@.len(),
            group_views(out@) == pick(group_views(groups@), order).take(k as int),
        decreases chosen@.len() - k,
    {
        let item = groups[chosen[k]].duplicate();
        let ghost prev = out@;
        out.push(item);
        proof {
            assert(group_views(out@) =~= group_views(prev).push(item@));
            assert(pick(group_views(groups@), order)[k as int] == group_views(groups@)[order[k as int] as int]);
            assert(group_views(out@) =~= pick(group_views(groups@), order).take(k + 1));
        }
        k = k + 1;
    }
    proof {
        lemma_pick_largest(group_views(groups@), |g: DupeGroupView| waste(g), keys@, order, MAX_GROUPS as nat);
    }
    out
}

} // verus!
