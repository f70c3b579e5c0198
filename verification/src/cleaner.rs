//! How much of a folder is safe to clear, and the list of items a cleanup
//! offers, worked out over a listing of the folder's tree.
use vstd::prelude::*;
use crate::classify::{safety, verdict, SAFE, SYSTEM};
use crate::order::{capped, desc, largest_first, lemma_pick_largest, lemma_sum_concat, lemma_sum_perm, order_desc, pick, sum_of};

verus! {

/// A file smaller than this is not worth listing on its own.
pub const MIN_FILE_BYTES: u64 = 512 * 1024;
/// Folders nested deeper than this below the cleanup root are not searched.
pub const MAX_DEPTH: usize = 32;
/// At most this many cleanup items are offered.
pub const MAX_ITEMS: usize = 500;

/// One entry of a directory listing, with everything below it.
pub enum Entry {
    /// A file: its size (0 when it could not be read) and its modification
    /// time as RFC 3339 text (empty when unknown).
    File { path: String, size: u64, modified: String },
    /// A folder; `readable` is false when it could not be listed, and then
    /// its `children` are ignored.
    Dir { path: String, readable: bool, children: Vec<Entry> },
    /// A symbolic link or junction: never followed, never counted.
    Link,
    /// An entry whose type could not be read.
    Unknown,
}

/// Size, file count and safely-clearable bytes of a tree.
pub struct Tally {
    pub size: int,
    pub files: int,
    pub recoverable: int,
}

pub open spec fn zero_tally() -> Tally {
    Tally { size: 0, files: 0, recoverable: 0 }
}

pub open spec fn tally_plus(a: Tally, b: Tally) -> Tally {
    Tally { size: a.size + b.size, files: a.files + b.files, recoverable: a.recoverable + b.recoverable }
}

/// A loose file the cleanup offers: at least `MIN_FILE_BYTES` and classified safe.
pub open spec fn file_clearable(path: Seq<char>, size: u64) -> bool {
    &&& size >= MIN_FILE_BYTES
    &&& verdict(path, false) matches Some(c)
    &&& c.safety == SAFE@
}

/// A folder that is itself disposable counts in full; nothing inside a
/// system area counts at all.
pub open spec fn adjust(path: Seq<char>, m: Tally) -> Tally {
    match verdict(path, true) {
        Some(c) => if c.safety == SAFE@ {
            Tally { recoverable: m.size, ..m }
        } else if c.safety == SYSTEM@ {
            Tally { recoverable: 0, ..m }
        } else {
            m
        },
        None => m,
    }
}

pub open spec fn entry_tally(e: Entry) -> Tally
    decreases e,
{
    match e {
        Entry::File { path, size, .. } => Tally {
            size: size as int,
            files: 1,
            recoverable: if file_clearable(path@, size) {
                size as int
            } else {
                0
            },
        },
        Entry::Dir { path, readable, children } => {
            let m = if readable {
                seq_tally(children@)
            } else {
                zero_tally()
            };
            adjust(path@, m)
        },
        _ => zero_tally(),
    }
}

pub open spec fn seq_tally(s: Seq<Entry>) -> Tally
    decreases s,
{
    if s.len() == 0 {
        zero_tally()
    } else {
        tally_plus(seq_tally(s.drop_last()), entry_tally(s.last()))
    }
}

/// What `measure_dir` reports for an entry: its tally when it is a folder,
/// nothing otherwise (a file cannot be listed as a folder).
pub open spec fn dir_tally(e: Entry) -> Tally {
    match e {
        Entry::Dir { .. } => entry_tally(e),
        _ => zero_tally(),
    }
}

/// Counts of the tree fit the machine's 64-bit counters.
pub open spec fn fits(e: Entry) -> bool {
    entry_tally(e).size <= u64::MAX && entry_tally(e).files <= u64::MAX
}

pub open spec fn tally_ok(t: Tally) -> bool {
    0 <= t.recoverable <= t.size && 0 <= t.files
}

pub proof fn lemma_tally_ok(e: Entry)
    ensures
        tally_ok(entry_tally(e)),
    decreases e,
{
    match e {
        Entry::Dir { path, readable, children } => {
            if readable {
                lemma_seq_tally_ok(children@);
            }
        },
        _ => {},
    }
}

pub proof fn lemma_seq_tally_ok(s: Seq<Entry>)
    ensures
        tally_ok(seq_tally(s)),
    decreases s,
{
    if s.len() > 0 {
        lemma_seq_tally_ok(s.drop_last());
        lemma_tally_ok(s.last());
    }
}

/// A prefix of a listing, and each of its entries, count no more than the listing.
pub proof fn lemma_seq_tally_prefix(s: Seq<Entry>, k: int)
    requires
        0 <= k <= s.len(),
    ensures
        seq_tally(s.take(k)).size <= seq_tally(s).size,
        seq_tally(s.take(k)).files <= seq_tally(s).files,
        k < s.len() ==> seq_tally(s.take(k)).size + entry_tally(s[k]).size <= seq_tally(s).size,
        k < s.len() ==> seq_tally(s.take(k)).files + entry_tally(s[k]).files <= seq_tally(s).files,
    decreases s.len() - k,
{
    if k < s.len() {
        lemma_seq_tally_prefix(s, k + 1);
        assert(s.take(k + 1).drop_last() =~= s.take(k));
        assert(s.take(k + 1).last() == s[k]);
        lemma_tally_ok(s[k]);
        lemma_seq_tally_ok(s.take(k));
    } else {
        assert(s.take(k) =~= s);
    }
}

/// Size, file count and how many of those bytes are safe to clear.
#[derive(Clone, Copy)]
pub struct Measure {
    pub size_bytes: u64,
    pub file_count: u64,
    pub recoverable_bytes: u64,
}

impl View for Measure {
    type V = Tally;

    open spec fn view(&self) -> Tally {
        Tally {
            size: self.size_bytes as int,
            files: self.file_count as int,
            recoverable: self.recoverable_bytes as int,
        }
    }
}

impl Measure {
    pub fn zero() -> (m: Measure)
        ensures
            m@ == zero_tally(),
    {
        Measure { size_bytes: 0, file_count: 0, recoverable_bytes: 0 }
    }

    /// Field-wise sum.
    pub fn plus(self, other: Measure) -> (m: Measure)
        requires
            self.size_bytes + other.size_bytes <= u64::MAX,
            self.file_count + other.file_count <= u64::MAX,
            self.recoverable_bytes + other.recoverable_bytes <= u64::MAX,
        ensures
            m@ == tally_plus(self@, other@),
    {
        Measure {
            size_bytes: self.size_bytes + other.size_bytes,
            file_count: self.file_count + other.file_count,
            recoverable_bytes: self.recoverable_bytes + other.recoverable_bytes,
        }
    }
}

/// The rule the cleanup list uses for loose files, shared so the total on a
/// row always matches the items the cleanup dialog lists.
pub fn is_clearable_file(path: &str, size: u64) -> (b: bool)
    ensures
        b == file_clearable(path@, size),
{
    if size < MIN_FILE_BYTES {
        return false;
    }
    match safety(path, false) {
        Some(s) => {
            let v = crate::text::chars_of(s.as_str());
            let w = crate::text::chars_of(SAFE);
            crate::text::eq_chars(&v, &w)
        },
        None => false,
    }
}

fn safety_is(path: &str, is_dir: bool, word: &str) -> (b: bool)
    ensures
        b == (verdict(path@, is_dir) matches Some(c) && c.safety == word@),
{
    match safety(path, is_dir) {
        Some(s) => {
            let v = crate::text::chars_of(s.as_str());
            let w = crate::text::chars_of(word);
            crate::text::eq_chars(&v, &w)
        },
        None => false,
    }
}

pub(crate) fn adjust_exec(path: &str, m: Measure) -> (r: Measure)
    requires
        tally_ok(m@),
    ensures
        r@ == adjust(path@, m@),
{
    if safety_is(path, true, SAFE) {
        Measure { recoverable_bytes: m.size_bytes, ..m }
    } else if safety_is(path, true, SYSTEM) {
        Measure { recoverable_bytes: 0, ..m }
    } else {
        m
    }
}

pub(crate) fn measure_entry(e: &Entry) -> (m: Measure)
    requires
        fits(*e),
    ensures
        m@ == entry_tally(*e),
    decreases e,
{
    match e {
        Entry::File { path, size, .. } => {
            let rec = if is_clearable_file(path.as_str(), *size) {
                *size
            } else {
                0
            };
            Measure { size_bytes: *size, file_count: 1, recoverable_bytes: rec }
        },
        Entry::Dir { path, readable, children } => {
            let mut acc = Measure::zero();
            if *readable {
                let mut i: usize = 0;
                while i < children.len()
                    invariant
                        i <= children@.len(),
                        *e matches Entry::Dir { children: c, .. } && c == *children,
                        acc@ == seq_tally(children@.take(i as int)),
                        seq_tally(children@).size <= u64::MAX,
                        seq_tally(children@).files <= u64::MAX,
                        tally_ok(acc@),
                    decreases children@.len() - i,
                {
                    proof {
                        lemma_seq_tally_prefix(children@, i as int);
                        lemma_tally_ok(children@[i as int]);
                        lemma_seq_tally_ok(children@);
                        assert(decreases_to!(*e => (*e)->children));
                        assert(decreases_to!(children => children@));
                        assert(decreases_to!(children@ => children@[i as int]));
                    }
                    let cm = measure_entry(&children[i]);
                    acc = acc.plus(cm);
                    proof {
                        assert(children@.take(i + 1).drop_last() =~= children@.take(i as int));
                        assert(children@.take(i + 1).last() == children@[i as int]);
                        lemma_seq_tally_ok(children@.take(i + 1));
                    }
                    i = i + 1;
                }
                proof {
                    assert(children@.take(children@.len() as int) =~= children@);
                }
            }
            adjust_exec(path.as_str(), acc)
        },
        _ => Measure::zero(),
    }
}

/// Measures a folder (size, file count, and how many of those bytes are safe
/// to clear) in a single walk, taking the folder's own classification into
/// account. Anything that is not a readable folder measures zero.
pub fn measure_dir(dir: &Entry) -> (m: Measure)
    requires
        fits(*dir),
    ensures
        m@ == dir_tally(*dir),
{
    match dir {
        Entry::Dir { .. } => measure_entry(dir),
        _ => Measure::zero(),
    }
}

/// One thing the cleanup offers to delete.
pub struct SafeItem {
    pub path: String,
    pub size_bytes: u64,
    pub file_count: u64,
    pub category: String,
    pub explanation: String,
}

pub struct SafeItemView {
    pub path: Seq<char>,
    pub size: u64,
    pub files: u64,
    pub category: Seq<char>,
    pub explanation: Seq<char>,
}

impl View for SafeItem {
    type V = SafeItemView;

    open spec fn view(&self) -> SafeItemView {
        SafeItemView {
            path: self.path@,
            size: self.size_bytes,
            files: self.file_count,
            category: self.category@,
            explanation: self.explanation@,
        }
    }
}

impl SafeItem {
    pub fn duplicate(&self) -> (r: SafeItem)
        ensures
            r@ == self@,
    {
        SafeItem {
            path: self.path.clone(),
            size_bytes: self.size_bytes,
            file_count: self.file_count,
            category: self.category.clone(),
            explanation: self.explanation.clone(),
        }
    }
}

pub open spec fn item_views(v: Seq<SafeItem>) -> Seq<SafeItemView> {
    v.map_values(|i: SafeItem| i@)
}

/// The items found in one entry of a folder searched at `depth`: a safe
/// folder whole (not looked into), a safe loose file over the size floor;
/// system folders are never entered, other folders are searched one level
/// deeper while that stays within `MAX_DEPTH`.
pub open spec fn entry_items(e: Entry, depth: int) -> Seq<SafeItemView>
    decreases e,
{
    match e {
        Entry::Dir { path, readable, children } => {
            let t = entry_tally(e);
            match verdict(path@, true) {
                Some(c) => if c.safety == SAFE@ {
                    seq![
                        SafeItemView {
                            path: path@,
                            size: t.size as u64,
                            files: t.files as u64,
                            category: c.category,
                            explanation: c.explanation,
                        },
                    ]
                } else if c.safety == SYSTEM@ {
                    Seq::empty()
                } else if depth + 1 > MAX_DEPTH || !readable {
                    Seq::empty()
                } else {
                    seq_items(children@, depth + 1)
                },
                None => if depth + 1 > MAX_DEPTH || !readable {
                    Seq::empty()
                } else {
                    seq_items(children@, depth + 1)
                },
            }
        },
        Entry::File { path, size, .. } => match verdict(path@, false) {
            Some(c) => if c.safety == SAFE@ && file_clearable(path@, size) {
                seq![
                    SafeItemView {
                        path: path@,
                        size: size,
                        files: 1,
                        category: c.category,
                        explanation: c.explanation,
                    },
                ]
            } else {
                Seq::empty()
            },
            None => Seq::empty(),
        },
        _ => Seq::empty(),
    }
}

pub open spec fn seq_items(s: Seq<Entry>, depth: int) -> Seq<SafeItemView>
    decreases s,
{
    if s.len() == 0 {
        Seq::empty()
    } else {
        seq_items(s.drop_last(), depth) + entry_items(s.last(), depth)
    }
}

/// Everything the cleanup search finds under `root`, in listing order.
pub open spec fn found_items(root: Entry) -> Seq<SafeItemView> {
    match root {
        Entry::Dir { readable, children, .. } => if readable {
            seq_items(children@, 0)
        } else {
            Seq::empty()
        },
        _ => Seq::empty(),
    }
}

pub open spec fn nonempty_items(s: Seq<SafeItemView>) -> Seq<SafeItemView> {
    s.filter(|i: SafeItemView| i.size > 0)
}

pub open spec fn item_size(i: SafeItemView) -> int {
    i.size as int
}

/// `listed` is what the cleanup offers for `root`: the non-empty items found,
/// largest first, at most `MAX_ITEMS` of them.
pub open spec fn safe_listing(root: Entry, listed: Seq<SafeItemView>) -> bool {
    largest_first(nonempty_items(found_items(root)), |i: SafeItemView| item_size(i), MAX_ITEMS as nat, listed)
}

fn push_entry_items(e: &Entry, depth: usize, out: &mut Vec<SafeItem>)
    requires
        fits(*e),
        depth <= MAX_DEPTH,
    ensures
        item_views(final(out)@) == item_views(old(out)@) + entry_items(*e, depth as int),
    decreases e,
{
    let ghost before = item_views(out@);
    match e {
        Entry::Dir { path, readable, children } => {
            match crate::classify::classify(path.as_str(), true) {
                Some(c) => {
                    if safety_matches(&c, SAFE) {
                        let m = measure_entry(e);
                        out.push(
                            SafeItem {
                                path: path.clone(),
                                size_bytes: m.size_bytes,
                                file_count: m.file_count,
                                category: c.category,
                                explanation: c.explanation,
                            },
                        );
                        proof {
                            assert(item_views(out@) =~= before + entry_items(*e, depth as int));
                        }
                        return;
                    }
                    if safety_matches(&c, SYSTEM) {
                        proof {
                            assert(item_views(out@) =~= before + entry_items(*e, depth as int));
                        }
                        return;
                    }
                },
                None => {},
            }
            if depth + 1 > MAX_DEPTH || !*readable {
                proof {
                    assert(item_views(out@) =~= before + entry_items(*e, depth as int));
                }
                return;
            }
            proof {
                lemma_seq_tally_ok(children@);
            }
            push_seq_items(e, children, depth + 1, out);
        },
        Entry::File { path, size, .. } => {
            match crate::classify::classify(path.as_str(), false) {
                Some(c) => {
                    if safety_matches(&c, SAFE) && is_clearable_file(path.as_str(), *size) {
                        out.push(
                            SafeItem {
                                path: path.clone(),
                                size_bytes: *size,
                                file_count: 1,
                                category: c.category,
                                explanation: c.explanation,
                            },
                        );
                    }
                },
                None => {},
            }
            proof {
                assert(item_views(out@) =~= before + entry_items(*e, depth as int));
            }
        },
        _ => {
            proof {
                assert(item_views(out@) =~= before + entry_items(*e, depth as int));
            }
        },
    }
}

fn safety_matches(c: &crate::classify::Classification, word: &str) -> (b: bool)
    ensures
        b == (c.safety@ == word@),
{
    let v = crate::text::chars_of(c.safety.as_str());
    let w = crate::text::chars_of(word);
    crate::text::eq_chars(&v, &w)
}

fn push_seq_items(parent: &Entry, children: &Vec<Entry>, depth: usize, out: &mut Vec<SafeItem>)
    requires
        parent matches Entry::Dir { children: c, .. } && c == children,
        fits(*parent),
        depth <= MAX_DEPTH,
        seq_tally(children@).size <= u64::MAX,
        seq_tally(children@).files <= u64::MAX,
    ensures
        item_views(final(out)@) == item_views(old(out)@) + seq_items(children@, depth as int),
    decreases parent, 0nat,
{
    let ghost before = item_views(out@);
    let mut i: usize = 0;
    while i < children.len()
        invariant
            i <= children@.len(),
            *parent matches Entry::Dir { children: c, .. } && c == *children,
            depth <= MAX_DEPTH,
            seq_tally(children@).size <= u64::MAX,
            seq_tally(children@).files <= u64::MAX,
            item_views(out@) == before + seq_items(children@.take(i as int), depth as int),
        decreases children@.len() - i,
    {
        proof {
            lemma_seq_tally_prefix(children@, i as int);
            lemma_seq_tally_ok(children@.take(i as int));
            assert(decreases_to!(*parent => (*parent)->children));
            assert(decreases_to!(children => children@));
            assert(decreases_to!(children@ => children@[i as int]));
        }
        push_entry_items(&children[i], depth, out);
        proof {
            assert(children@.take(i + 1).drop_last() =~= children@.take(i as int));
            assert(children@.take(i + 1).last() == children@[i as int]);
            assert(item_views(out@) =~= before + seq_items(children@.take(i + 1), depth as int));
        }
        i = i + 1;
    }
    proof {
        assert(children@.take(children@.len() as int) =~= children@);
    }
}

/// Recursively finds everything under `root` that is safe to delete
/// (caches, temp, logs, dumps, node_modules, …), never descending into
/// system areas: the non-empty ones, largest first, at most `MAX_ITEMS`.
/// Nothing is deleted here.
pub fn find_safe_items(root: &Entry) -> (items: Vec<SafeItem>)
    requires
        fits(*root),
    ensures
        safe_listing(*root, item_views(items@)),
{
    let mut found: Vec<SafeItem> = Vec::new();
    match root {
        Entry::Dir { readable, children, .. } => {
            if *readable {
                proof {
                    lemma_seq_tally_ok(children@);
                    assert(item_views(found@) =~= Seq::<SafeItemView>::empty());
                }
                push_seq_items(root, children, 0, &mut found);
                proof {
                    assert(Seq::<SafeItemView>::empty() + seq_items(children@, 0) =~= seq_items(children@, 0));
                }
            }
        },
        _ => {},
    }
    proof {
        assert(item_views(found@) =~= found_items(*root));
    }
    // Keep the non-empty ones.
    let mut kept: Vec<SafeItem> = Vec::new();
    let mut sizes: Vec<u64> = Vec::new();
    let mut i: usize = 0;
    while i < found.len()
        invariant
            i <= found@.len(),
            item_views(kept@) == nonempty_items(item_views(found@).take(i as int)),
            sizes@ == item_views(kept@).map_values(|it: SafeItemView| it.size),
        decreases found@.len() - i,
    {
        proof {
            let s = item_views(found@).take(i + 1);
            assert(s.drop_last() =~= item_views(found@).take(i as int));
            reveal_with_fuel(Seq::filter, 1);
        }
        if found[i].size_bytes > 0 {
            sizes.push(found[i].size_bytes);
            kept.push(found[i].duplicate());
            proof {
                assert(sizes@ =~= item_views(kept@).map_values(|it: SafeItemView| it.size));
            }
        }
        proof {
            assert(item_views(kept@) =~= nonempty_items(item_views(found@).take(i + 1)));
        }
        i = i + 1;
    }
    proof {
        assert(item_views(found@).take(found@.len() as int) =~= item_views(found@));
    }
    let order = order_desc(&sizes);
    let mut out: Vec<SafeItem> = Vec::new();
    let mut k: usize = 0;
    while k < order.len() && k < MAX_ITEMS
        invariant
            k <= order@.len(),
            k <= MAX_ITEMS,
            order@.len() == kept@.len(),
            forall|j: int| 0 <= j < order@.len() ==> order@[j] < kept@.len(),
            item_views(out@) == pick(item_views(kept@), order@).take(k as int),
        decreases order@.len() - k,
    {
        let ghost prev = out@;
        let item = kept[order[k]].duplicate();
        out.push(item);
        proof {
            assert(out@ == prev.push(item));
            assert(item_views(out@) =~= item_views(prev).push(item@));
            assert(pick(item_views(kept@), order@)[k as int] == item_views(kept@)[order@[k as int] as int]);
            assert(item_views(out@) =~= pick(item_views(kept@), order@).take(k + 1));
        }
        k = k + 1;
    }
    proof {
        let views = item_views(kept@);
        assert(views.len() <= usize::MAX);
        assert(k as int == capped(views.len(), MAX_ITEMS as nat));
        assert forall|j: int| 0 <= j < views.len() implies item_size(views[j]) == sizes@[j] as int by {
            assert(sizes@[j] == views[j].size);
        }
        lemma_pick_largest(views, |i: SafeItemView| item_size(i), sizes@, order@, MAX_ITEMS as nat);
    }
    out
}

/// No entry of the tree below `e`, an entry met at `depth`, lies deeper
/// than the cleanup search looks.
pub open spec fn within_reach(e: Entry, depth: int) -> bool
    decreases e,
{
    match e {
        Entry::Dir { children, .. } => seq_within_reach(children@, depth + 1),
        _ => true,
    }
}

pub open spec fn seq_within_reach(s: Seq<Entry>, depth: int) -> bool
    decreases s,
{
    if s.len() == 0 {
        true
    } else {
        &&& depth <= MAX_DEPTH
        &&& seq_within_reach(s.drop_last(), depth)
        &&& within_reach(s.last(), depth)
    }
}

/// The cleanup search reaches every entry of the tree below `root`.
pub open spec fn search_reaches(root: Entry) -> bool {
    match root {
        Entry::Dir { children, .. } => seq_within_reach(children@, 0),
        _ => true,
    }
}

/// The items found in an entry add up to the bytes that entry counts as
/// recoverable, as long as the search reaches all of it.
proof fn lemma_entry_items_sum(e: Entry, depth: int)
    requires
        entry_tally(e).size <= u64::MAX,
        within_reach(e, depth),
        0 <= depth <= MAX_DEPTH,
    ensures
        sum_of(entry_items(e, depth), |i: SafeItemView| item_size(i)) == entry_tally(e).recoverable,
    decreases e,
{
    lemma_tally_ok(e);
    match e {
        Entry::Dir { path, readable, children } => {
            let t = entry_tally(e);
            let m = if readable { seq_tally(children@) } else { zero_tally() };
            let rec = depth + 1 <= MAX_DEPTH && readable;
            if readable {
                lemma_seq_tally_ok(children@);
                if children@.len() > 0 {
                    lemma_seq_within_depth(children@, depth + 1);
                }
                if children@.len() > 0 || rec {
                    lemma_seq_items_sum(children@, depth + 1);
                } else {
                    assert(children@ =~= Seq::<Entry>::empty());
                }
            }
            assert(t == adjust(path@, m));
            match verdict(path@, true) {
                Some(c) => {
                    if c.safety == SAFE@ {
                        let one = entry_items(e, depth);
                        assert(one.len() == 1);
                        assert(one.drop_last() =~= Seq::<SafeItemView>::empty());
                        assert(one.last().size == t.size as u64);
                        assert(sum_of(one.drop_last(), |i: SafeItemView| item_size(i)) == 0);
                        assert(sum_of(one, |i: SafeItemView| item_size(i)) == item_size(one.last()));
                        assert(t.recoverable == m.size);
                        assert(sum_of(entry_items(e, depth), |i: SafeItemView| item_size(i)) == t.recoverable);
                    } else if c.safety == SYSTEM@ {
                        assert(entry_items(e, depth) =~= Seq::<SafeItemView>::empty());
                        assert(sum_of(entry_items(e, depth), |i: SafeItemView| item_size(i)) == t.recoverable);
                    } else {
                        assert(t.recoverable == m.recoverable);
                        if !rec {
                            assert(entry_items(e, depth) =~= Seq::<SafeItemView>::empty());
                            assert(sum_of(entry_items(e, depth), |i: SafeItemView| item_size(i)) == t.recoverable);
                        } else {
                            assert(entry_items(e, depth) == seq_items(children@, depth + 1));
                            assert(sum_of(entry_items(e, depth), |i: SafeItemView| item_size(i)) == t.recoverable);
                        }
                    }
                },
                None => {
                    assert(t.recoverable == m.recoverable);
                    if !rec {
                        assert(entry_items(e, depth) =~= Seq::<SafeItemView>::empty());
                        assert(sum_of(entry_items(e, depth), |i: SafeItemView| item_size(i)) == t.recoverable);
                    } else {
                        assert(entry_items(e, depth) == seq_items(children@, depth + 1));
                        assert(sum_of(entry_items(e, depth), |i: SafeItemView| item_size(i)) == t.recoverable);
                    }
                },
            }
        },
        Entry::File { path, size, .. } => {
            let one = entry_items(e, depth);
            if one.len() > 0 {
                assert(one.drop_last() =~= Seq::<SafeItemView>::empty());
                assert(sum_of(one.drop_last(), |i: SafeItemView| item_size(i)) == 0);
                assert(sum_of(entry_items(e, depth), |i: SafeItemView| item_size(i)) == entry_tally(e).recoverable);
            } else {
                assert(sum_of(entry_items(e, depth), |i: SafeItemView| item_size(i)) == entry_tally(e).recoverable);
            }
        },
        _ => {},
    }
}

proof fn lemma_seq_within_depth(s: Seq<Entry>, depth: int)
    requires
        s.len() > 0,
        seq_within_reach(s, depth),
    ensures
        depth <= MAX_DEPTH,
{
}

proof fn lemma_seq_items_sum(s: Seq<Entry>, depth: int)
    requires
        seq_tally(s).size <= u64::MAX,
        seq_within_reach(s, depth),
        0 <= depth <= MAX_DEPTH,
    ensures
        sum_of(seq_items(s, depth), |i: SafeItemView| item_size(i)) == seq_tally(s).recoverable,
    decreases s,
{
    let f = |i: SafeItemView| item_size(i);
    if s.len() > 0 {
        lemma_seq_tally_prefix(s, s.len() - 1);
        assert(s.take(s.len() - 1) =~= s.drop_last());
        lemma_seq_tally_ok(s.drop_last());
        lemma_tally_ok(s.last());
        lemma_seq_items_sum(s.drop_last(), depth);
        lemma_entry_items_sum(s.last(), depth);
        lemma_sum_concat(seq_items(s.drop_last(), depth), entry_items(s.last(), depth), f);
    }
}

/// Dropping the empty items leaves the total unchanged.
proof fn lemma_sum_nonempty(s: Seq<SafeItemView>)
    ensures
        sum_of(nonempty_items(s), |i: SafeItemView| item_size(i)) == sum_of(s, |i: SafeItemView| item_size(i)),
    decreases s.len(),
{
    let f = |i: SafeItemView| item_size(i);
    if s.len() > 0 {
        lemma_sum_nonempty(s.drop_last());
        assert(s =~= s.drop_last().push(s.last()));
        s.drop_last().lemma_filter_push(s.last(), |i: SafeItemView| i.size > 0);
        if s.last().size > 0 {
            let a = nonempty_items(s.drop_last());
            assert(a.push(s.last()).drop_last() =~= a);
        }
    }
}

/// The figure a folder's row advertises as recoverable is exactly what the
/// cleanup dialog offers for that folder: the sizes of the listed items add
/// up to the folder's recoverable bytes. This holds when the folder is not
/// itself classified safe or system (those are counted whole or not at all,
/// while the search still lists what lies inside), when the search reaches
/// the whole tree, and when the listing is not cut at `MAX_ITEMS`.
pub proof fn lemma_row_matches_listing(root: Entry, listed: Seq<SafeItemView>)
    requires
        fits(root),
        root is Dir,
        !(verdict(root->Dir_path@, true) matches Some(c) && (c.safety == SAFE@ || c.safety == SYSTEM@)),
        search_reaches(root),
        nonempty_items(found_items(root)).len() <= MAX_ITEMS,
        safe_listing(root, listed),
    ensures
        sum_of(listed, |i: SafeItemView| item_size(i)) == dir_tally(root).recoverable,
{
    let f = |i: SafeItemView| item_size(i);
    let found = found_items(root);
    let kept = nonempty_items(found);
    let o = choose|o: Seq<SafeItemView>|
        #![trigger o.to_multiset()]
        o.to_multiset() == kept.to_multiset() && desc(o.map_values(f)) && listed == o.take(
            capped(kept.len(), MAX_ITEMS as nat) as int,
        );
    assert(o.len() == kept.len()) by {
        broadcast use vstd::seq_lib::group_to_multiset_ensures;
        assert(o.to_multiset().len() == kept.to_multiset().len());
    }
    assert(listed =~= o);
    lemma_sum_perm(o, kept, f);
    lemma_sum_nonempty(found);
    match root {
        Entry::Dir { path, readable, children } => {
            lemma_tally_ok(root);
            if readable {
                lemma_seq_tally_ok(children@);
                if children@.len() > 0 {
                    lemma_seq_items_sum(children@, 0);
                } else {
                    assert(children@ =~= Seq::<Entry>::empty());
                }
            }
        },
        _ => {},
    }
}

} // verus!
