//! A full scan of one or more drive roots: the largest folders near the top
//! of each tree and the largest files anywhere, worked out over listings of
//! the trees. Every folder the scan records carries the same figures that
//! measuring that folder on its own gives.
use vstd::prelude::*;
use crate::cleaner::{
    dir_tally, entry_tally, fits, lemma_seq_tally_ok, lemma_seq_tally_prefix, lemma_tally_ok,
    seq_tally, tally_ok, tally_plus, zero_tally, Entry, Measure, Tally,
};
use crate::order::{capped, largest_first, largest_positions, lemma_pick_largest, pick};
use crate::text::{chars_of, lowercase, string_of, to_lowercase};
use crate::winpath::{extension, file_name, file_name_exec, name_extension_exec};

verus! {

/// Files below this size are never reported individually.
pub const LARGE_FILE_THRESHOLD: u64 = 100 * 1024 * 1024;
/// At most this many large files are reported.
pub const MAX_LARGE_FILES: usize = 200;
/// At most this many folders are recorded.
pub const MAX_FOLDERS: usize = 1000;
/// Folders deeper than this (relative to the scan root) are aggregated into
/// their parents instead of being recorded individually.
pub const FOLDER_RECORD_DEPTH: usize = 4;
/// Folders smaller than this are not recorded.
pub const FOLDER_MIN_BYTES: u64 = 10 * 1024 * 1024;

/// A folder the scan recorded, with everything below it counted.
pub struct FolderRecord {
    pub path: String,
    pub name: String,
    pub size_bytes: u64,
    pub file_count: u64,
    pub recoverable_bytes: u64,
    pub depth: usize,
}

pub struct FolderRecordView {
    pub path: Seq<char>,
    pub name: Seq<char>,
    pub size: u64,
    pub files: u64,
    pub recoverable: u64,
    pub depth: usize,
}

impl View for FolderRecord {
    type V = FolderRecordView;

    open spec fn view(&self) -> FolderRecordView {
        FolderRecordView {
            path: self.path@,
            name: self.name@,
            size: self.size_bytes,
            files: self.file_count,
            recoverable: self.recoverable_bytes,
            depth: self.depth,
        }
    }
}

impl FolderRecord {
    pub fn duplicate(&self) -> (r: FolderRecord)
        ensures
            r@ == self@,
    {
        FolderRecord {
            path: self.path.clone(),
            name: self.name.clone(),
            size_bytes: self.size_bytes,
            file_count: self.file_count,
            recoverable_bytes: self.recoverable_bytes,
            depth: self.depth,
        }
    }
}

/// A file at or above `LARGE_FILE_THRESHOLD`.
pub struct FileRecord {
    pub path: String,
    pub name: String,
    pub extension: String,
    pub size_bytes: u64,
    pub modified_at: String,
}

pub struct FileRecordView {
    pub path: Seq<char>,
    pub name: Seq<char>,
    pub extension: Seq<char>,
    pub size: u64,
    pub modified: Seq<char>,
}

impl View for FileRecord {
    type V = FileRecordView;

    open spec fn view(&self) -> FileRecordView {
        FileRecordView {
            path: self.path@,
            name: self.name@,
            extension: self.extension@,
            size: self.size_bytes,
            modified: self.modified_at@,
        }
    }
}

impl FileRecord {
    pub fn duplicate(&self) -> (r: FileRecord)
        ensures
            r@ == self@,
    {
        FileRecord {
            path: self.path.clone(),
            name: self.name.clone(),
            extension: self.extension.clone(),
            size_bytes: self.size_bytes,
            modified_at: self.modified_at.clone(),
        }
    }
}

/// What a scan found.
pub struct ScanOutcome {
    pub folders: Vec<FolderRecord>,
    pub large_files: Vec<FileRecord>,
    pub files_scanned: u64,
    pub bytes_scanned: u64,
    pub errors: u64,
    pub duration_ms: u64,
}

pub open spec fn folder_views(s: Seq<FolderRecord>) -> Seq<FolderRecordView> {
    s.map_values(|r: FolderRecord| r@)
}

pub open spec fn file_views(s: Seq<FileRecord>) -> Seq<FileRecordView> {
    s.map_values(|r: FileRecord| r@)
}

/// A folder's display name: its last component, or the whole path when it
/// has none (a drive root).
pub open spec fn folder_name(path: Seq<char>) -> Seq<char> {
    match file_name(path) {
        Some(n) => n,
        None => path,
    }
}

/// The depth handed to the entries of a folder at `depth`. Nothing deeper
/// than `FOLDER_RECORD_DEPTH` is recorded, so counting stops just past it.
pub open spec fn child_depth(depth: int) -> int {
    if depth <= FOLDER_RECORD_DEPTH {
        depth + 1
    } else {
        depth
    }
}

/// The record a folder at `depth` gets, if it gets one.
pub open spec fn folder_record(path: Seq<char>, t: Tally, depth: int) -> FolderRecordView {
    FolderRecordView {
        path: path,
        name: folder_name(path),
        size: t.size as u64,
        files: t.files as u64,
        recoverable: t.recoverable as u64,
        depth: depth as usize,
    }
}

/// A folder at `depth` is recorded when it is below the root, no deeper than
/// `FOLDER_RECORD_DEPTH`, and holds at least `FOLDER_MIN_BYTES`.
pub open spec fn recorded(t: Tally, depth: int) -> bool {
    0 < depth <= FOLDER_RECORD_DEPTH && t.size >= FOLDER_MIN_BYTES
}

/// Folder records of an entry met at `depth`, subfolders before the folder.
pub open spec fn folder_records(e: Entry, depth: int) -> Seq<FolderRecordView>
    decreases e,
{
    match e {
        Entry::Dir { path, readable, children } => {
            let below = if readable {
                seq_folder_records(children@, child_depth(depth))
            } else {
                Seq::empty()
            };
            let t = entry_tally(e);
            if recorded(t, depth) {
                below.push(folder_record(path@, t, depth))
            } else {
                below
            }
        },
        _ => Seq::empty(),
    }
}

pub open spec fn seq_folder_records(s: Seq<Entry>, depth: int) -> Seq<FolderRecordView>
    decreases s,
{
    if s.len() == 0 {
        Seq::empty()
    } else {
        seq_folder_records(s.drop_last(), depth) + folder_records(s.last(), depth)
    }
}

/// The lowercased extension of a file's path, empty when it has none.
pub open spec fn lower_extension(path: Seq<char>) -> Seq<char> {
    match extension(path) {
        Some(x) => lowercase(x),
        None => Seq::empty(),
    }
}

/// Files at or above the threshold, in listing order.
pub open spec fn large_files(e: Entry) -> Seq<FileRecordView>
    decreases e,
{
    match e {
        Entry::Dir { readable, children, .. } => if readable {
            seq_large_files(children@)
        } else {
            Seq::empty()
        },
        Entry::File { path, size, modified } => if size >= LARGE_FILE_THRESHOLD {
            seq![
                FileRecordView {
                    path: path@,
                    name: match file_name(path@) {
                        Some(n) => n,
                        None => Seq::empty(),
                    },
                    extension: lower_extension(path@),
                    size: size,
                    modified: modified@,
                },
            ]
        } else {
            Seq::empty()
        },
        _ => Seq::empty(),
    }
}

pub open spec fn seq_large_files(s: Seq<Entry>) -> Seq<FileRecordView>
    decreases s,
{
    if s.len() == 0 {
        Seq::empty()
    } else {
        seq_large_files(s.drop_last()) + large_files(s.last())
    }
}

/// Folders that could not be listed and entries whose type could not be read.
pub open spec fn error_count(e: Entry) -> int
    decreases e,
{
    match e {
        Entry::Dir { readable, children, .. } => if readable {
            seq_error_count(children@)
        } else {
            1
        },
        Entry::Unknown => 1,
        _ => 0,
    }
}

pub open spec fn seq_error_count(s: Seq<Entry>) -> int
    decreases s,
{
    if s.len() == 0 {
        0
    } else {
        seq_error_count(s.drop_last()) + error_count(s.last())
    }
}

/// A scan root that is not a folder cannot be listed: one error, nothing else.
pub open spec fn root_errors(r: Entry) -> int {
    match r {
        Entry::Dir { .. } => error_count(r),
        _ => 1,
    }
}

pub open spec fn root_folders(r: Entry) -> Seq<FolderRecordView> {
    match r {
        Entry::Dir { .. } => folder_records(r, 0),
        _ => Seq::empty(),
    }
}

pub open spec fn root_large_files(r: Entry) -> Seq<FileRecordView> {
    match r {
        Entry::Dir { .. } => large_files(r),
        _ => Seq::empty(),
    }
}

pub open spec fn roots_tally(s: Seq<Entry>) -> Tally
    decreases s.len(),
{
    if s.len() == 0 {
        zero_tally()
    } else {
        tally_plus(roots_tally(s.drop_last()), dir_tally(s.last()))
    }
}

pub open spec fn roots_errors(s: Seq<Entry>) -> int
    decreases s.len(),
{
    if s.len() == 0 {
        0
    } else {
        roots_errors(s.drop_last()) + root_errors(s.last())
    }
}

pub open spec fn roots_folders(s: Seq<Entry>) -> Seq<FolderRecordView>
    decreases s.len(),
{
    if s.len() == 0 {
        Seq::empty()
    } else {
        roots_folders(s.drop_last()) + root_folders(s.last())
    }
}

pub open spec fn roots_large_files(s: Seq<Entry>) -> Seq<FileRecordView>
    decreases s.len(),
{
    if s.len() == 0 {
        Seq::empty()
    } else {
        roots_large_files(s.drop_last()) + root_large_files(s.last())
    }
}

pub open spec fn folder_size(r: FolderRecordView) -> int {
    r.size as int
}

pub open spec fn file_size(r: FileRecordView) -> int {
    r.size as int
}

/// The counters of a scan of `roots` fit the machine's 64-bit counters.
pub open spec fn scan_fits(roots: Seq<Entry>) -> bool {
    &&& forall|i: int| 0 <= i < roots.len() ==> fits(#[trigger] roots[i])
    &&& roots_tally(roots).size <= u64::MAX
    &&& roots_tally(roots).files <= u64::MAX
    &&& roots_errors(roots) <= u64::MAX
}

/// A large-file record as it should be: its extension is the lowercase form
/// of its path's extension (empty when there is none), its name is the
/// path's file name, and it is at least `LARGE_FILE_THRESHOLD` bytes.
pub open spec fn large_file_record_ok(r: FileRecordView) -> bool {
    &&& r.extension == match extension(r.path) {
        Some(x) => lowercase(x),
        None => Seq::<char>::empty(),
    }
    &&& r.name == match file_name(r.path) {
        Some(n) => n,
        None => Seq::<char>::empty(),
    }
    &&& r.size >= LARGE_FILE_THRESHOLD
}

/// Every large file found below an entry is recorded as it should be.
pub proof fn lemma_large_files_recorded_well(e: Entry)
    ensures
        forall|k: int| 0 <= k < large_files(e).len() ==> large_file_record_ok(#[trigger] large_files(e)[k]),
    decreases e,
{
    match e {
        Entry::Dir { readable, children, .. } => {
            if readable {
                lemma_seq_large_files_recorded_well(children@);
                assert(large_files(e) == seq_large_files(children@));
            } else {
                assert(large_files(e) =~= Seq::<FileRecordView>::empty());
            }
        },
        _ => {},
    }
}

pub proof fn lemma_seq_large_files_recorded_well(s: Seq<Entry>)
    ensures
        forall|k: int| 0 <= k < seq_large_files(s).len() ==> large_file_record_ok(#[trigger] seq_large_files(s)[k]),
    decreases s,
{
    if s.len() > 0 {
        lemma_seq_large_files_recorded_well(s.drop_last());
        lemma_large_files_recorded_well(s.last());
        let a = seq_large_files(s.drop_last());
        let b = large_files(s.last());
        assert forall|k: int| 0 <= k < seq_large_files(s).len() implies large_file_record_ok(
            #[trigger] seq_large_files(s)[k],
        ) by {
            if k < a.len() {
                assert(seq_large_files(s)[k] == a[k]);
            } else {
                assert(seq_large_files(s)[k] == b[k - a.len()]);
            }
        }
    }
}

/// Every large file a scan of these roots can report is recorded as it
/// should be.
pub proof fn lemma_scan_large_files_recorded_well(roots: Seq<Entry>)
    ensures
        forall|k: int|
            0 <= k < roots_large_files(roots).len() ==> large_file_record_ok(#[trigger] roots_large_files(roots)[k]),
    decreases roots.len(),
{
    if roots.len() > 0 {
        lemma_scan_large_files_recorded_well(roots.drop_last());
        lemma_large_files_recorded_well(roots.last());
        let a = roots_large_files(roots.drop_last());
        let b = root_large_files(roots.last());
        assert forall|k: int| 0 <= k < roots_large_files(roots).len() implies large_file_record_ok(
            #[trigger] roots_large_files(roots)[k],
        ) by {
            if k < a.len() {
                assert(roots_large_files(roots)[k] == a[k]);
            } else {
                assert(roots_large_files(roots)[k] == b[k - a.len()]);
            }
        }
    }
}

pub proof fn lemma_error_count_nonneg(e: Entry)
    ensures
        error_count(e) >= 0,
    decreases e,
{
    match e {
        Entry::Dir { readable, children, .. } => {
            if readable {
                lemma_seq_error_count_nonneg(children@);
            }
        },
        _ => {},
    }
}

pub proof fn lemma_seq_error_count_nonneg(s: Seq<Entry>)
    ensures
        seq_error_count(s) >= 0,
    decreases s,
{
    if s.len() > 0 {
        lemma_seq_error_count_nonneg(s.drop_last());
        lemma_error_count_nonneg(s.last());
    }
}

pub proof fn lemma_seq_error_count_prefix(s: Seq<Entry>, k: int)
    requires
        0 <= k <= s.len(),
    ensures
        0 <= seq_error_count(s.take(k)) <= seq_error_count(s),
        k < s.len() ==> seq_error_count(s.take(k)) + error_count(s[k]) <= seq_error_count(s),
    decreases s.len() - k,
{
    if k < s.len() {
        lemma_seq_error_count_prefix(s, k + 1);
        assert(s.take(k + 1).drop_last() =~= s.take(k));
        assert(s.take(k + 1).last() == s[k]);
        lemma_error_count_nonneg(s[k]);
    } else {
        assert(s.take(k) =~= s);
        lemma_seq_error_count_nonneg(s);
    }
    lemma_seq_error_count_nonneg(s.take(k));
}

/// The record for a folder entry, computed.
fn make_folder_record(path: &String, m: Measure, depth: usize) -> (r: FolderRecord)
    ensures
        r@ == folder_record(path@, m@, depth as int),
{
    let chars = chars_of(path.as_str());
    let name = match file_name_exec(&chars) {
        Some(n) => string_of(&n),
        None => path.clone(),
    };
    FolderRecord {
        path: path.clone(),
        name,
        size_bytes: m.size_bytes,
        file_count: m.file_count,
        recoverable_bytes: m.recoverable_bytes,
        depth,
    }
}

/// The record for a large file, computed.
fn make_file_record(path: &String, size: u64, modified: &String) -> (r: FileRecord)
    ensures
        r@ == (FileRecordView {
            path: path@,
            name: match file_name(path@) {
                Some(n) => n,
                None => Seq::empty(),
            },
            extension: lower_extension(path@),
            size: size,
            modified: modified@,
        }),
        r.extension@ == match extension(path@) {
            Some(x) => lowercase(x),
            None => Seq::<char>::empty(),
        },
{
    let chars = chars_of(path.as_str());
    let (name, ext) = match file_name_exec(&chars) {
        Some(n) => {
            let ext = match name_extension_exec(&n) {
                Some(x) => {
                    let xs = string_of(&x);
                    to_lowercase(xs.as_str())
                },
                None => String::new(),
            };
            (string_of(&n), ext)
        },
        None => (String::new(), String::new()),
    };
    FileRecord {
        path: path.clone(),
        name,
        extension: ext,
        size_bytes: size,
        modified_at: modified.clone(),
    }
}

/// What the walk has gathered so far.
pub struct Walk {
    pub folders: Vec<FolderRecord>,
    pub files: Vec<FileRecord>,
    pub errors: u64,
}

fn scan_entry(e: &Entry, depth: usize, w: &mut Walk) -> (m: Measure)
    requires
        fits(*e),
        depth <= FOLDER_RECORD_DEPTH + 1,
        old(w).errors + error_count(*e) <= u64::MAX,
    ensures
        m@ == entry_tally(*e),
        folder_views(final(w).folders@) == folder_views(old(w).folders@) + folder_records(
            *e,
            depth as int,
        ),
        file_views(final(w).files@) == file_views(old(w).files@) + large_files(*e),
        final(w).errors == old(w).errors + error_count(*e),
    decreases e,
{
    let ghost folders0 = folder_views(w.folders@);
    let ghost files0 = file_views(w.files@);
    let ghost errors0 = w.errors;
    proof {
        lemma_tally_ok(*e);
    }
    match e {
        Entry::File { path, size, modified } => {
            if *size >= LARGE_FILE_THRESHOLD {
                let rec = make_file_record(path, *size, modified);
                w.files.push(rec);
            }
            proof {
                assert(folder_views(w.folders@) =~= folders0 + folder_records(*e, depth as int));
                assert(file_views(w.files@) =~= files0 + large_files(*e));
            }
            crate::cleaner::measure_entry(e)
        },
        Entry::Dir { path, readable, children } => {
            let mut acc = Measure::zero();
            let next: usize = if depth <= FOLDER_RECORD_DEPTH {
                depth + 1
            } else {
                depth
            };
            if *readable {
                let mut i: usize = 0;
                proof {
                    lemma_seq_tally_ok(children@);
                    lemma_seq_error_count_prefix(children@, 0);
                    assert(children@.take(0) =~= Seq::<Entry>::empty());
                }
                while i < children.len()
                    invariant
                        i <= children@.len(),
                        *e matches Entry::Dir { children: c, .. } && c == *children,
                        next == child_depth(depth as int),
                        next <= FOLDER_RECORD_DEPTH + 1,
                        acc@ == seq_tally(children@.take(i as int)),
                        seq_tally(children@).size <= u64::MAX,
                        seq_tally(children@).files <= u64::MAX,
                        tally_ok(acc@),
                        errors0 + seq_error_count(children@) <= u64::MAX,
                        w.errors == errors0 + seq_error_count(children@.take(i as int)),
                        folder_views(w.folders@) == folders0 + seq_folder_records(
                            children@.take(i as int),
                            next as int,
                        ),
                        file_views(w.files@) == files0 + seq_large_files(children@.take(i as int)),
                    decreases children@.len() - i,
                {
                    proof {
                        lemma_seq_tally_prefix(children@, i as int);
                        lemma_seq_error_count_prefix(children@, i as int);
                        lemma_tally_ok(children@[i as int]);
                        lemma_seq_tally_ok(children@);
                        assert(decreases_to!(*e => (*e)->children));
                        assert(decreases_to!(children => children@));
                        assert(decreases_to!(children@ => children@[i as int]));
                    }
                    let cm = scan_entry(&children[i], next, w);
                    acc = acc.plus(cm);
                    proof {
                        let t = children@.take(i + 1);
                        assert(t.drop_last() =~= children@.take(i as int));
                        assert(t.last() == children@[i as int]);
                        lemma_seq_tally_ok(t);
                        assert(folder_views(w.folders@) =~= folders0 + seq_folder_records(
                            t,
                            next as int,
                        ));
                        assert(file_views(w.files@) =~= files0 + seq_large_files(t));
                    }
                    i = i + 1;
                }
                proof {
                    assert(children@.take(children@.len() as int) =~= children@);
                }
            } else {
                w.errors = w.errors + 1;
            }
            let m = crate::cleaner::adjust_exec(path.as_str(), acc);
            let ghost below = folder_views(w.folders@);
            proof {
                assert(m@ == entry_tally(*e));
                if *readable {
                    assert(below == folders0 + seq_folder_records(children@, child_depth(depth as int)));
                } else {
                    assert(below =~= folders0);
                }
            }
            if 0 < depth && depth <= FOLDER_RECORD_DEPTH && m.size_bytes >= FOLDER_MIN_BYTES {
                let rec = make_folder_record(path, m, depth);
                let ghost prev = w.folders@;
                w.folders.push(rec);
                proof {
                    assert(w.folders@ == prev.push(rec));
                    assert(folder_views(w.folders@) =~= folder_views(prev).push(rec@));
                }
            }
            proof {
                assert(folder_views(w.folders@) =~= folders0 + folder_records(*e, depth as int));
                assert(file_views(w.files@) =~= files0 + large_files(*e));
            }
            m
        },
        Entry::Unknown => {
            w.errors = w.errors + 1;
            proof {
                assert(folder_views(w.folders@) =~= folders0 + folder_records(*e, depth as int));
                assert(file_views(w.files@) =~= files0 + large_files(*e));
            }
            Measure::zero()
        },
        Entry::Link => {
            proof {
                assert(folder_views(w.folders@) =~= folders0 + folder_records(*e, depth as int));
                assert(file_views(w.files@) =~= files0 + large_files(*e));
            }
            Measure::zero()
        },
    }
}

proof fn lemma_roots_prefix(s: Seq<Entry>, k: int)
    requires
        0 <= k <= s.len(),
    ensures
        tally_ok(roots_tally(s.take(k))),
        roots_tally(s.take(k)).size <= roots_tally(s).size,
        roots_tally(s.take(k)).files <= roots_tally(s).files,
        0 <= roots_errors(s.take(k)) <= roots_errors(s),
        k < s.len() ==> roots_tally(s.take(k)).size + dir_tally(s[k]).size <= roots_tally(s).size,
        k < s.len() ==> roots_tally(s.take(k)).files + dir_tally(s[k]).files <= roots_tally(s).files,
        k < s.len() ==> roots_errors(s.take(k)) + root_errors(s[k]) <= roots_errors(s),
    decreases s.len() - k,
{
    if k < s.len() {
        lemma_roots_prefix(s, k + 1);
        assert(s.take(k + 1).drop_last() =~= s.take(k));
        assert(s.take(k + 1).last() == s[k]);
        lemma_tally_ok(s[k]);
        if !(s[k] is Dir) {
            assert(dir_tally(s[k]) == zero_tally());
        }
        lemma_error_count_nonneg(s[k]);
    } else {
        assert(s.take(k) =~= s);
    }
    lemma_roots_ok(s.take(k));
}

proof fn lemma_roots_ok(s: Seq<Entry>)
    ensures
        tally_ok(roots_tally(s)),
        roots_errors(s) >= 0,
    decreases s.len(),
{
    if s.len() > 0 {
        lemma_roots_ok(s.drop_last());
        lemma_tally_ok(s.last());
        lemma_error_count_nonneg(s.last());
    }
}

/// Scans the given roots: every folder below a root, down to
/// `FOLDER_RECORD_DEPTH` levels, that holds at least `FOLDER_MIN_BYTES`,
/// largest first and at most `MAX_FOLDERS` of them; every file of at least
/// `LARGE_FILE_THRESHOLD`, largest first and at most `MAX_LARGE_FILES`; and
/// the count and bytes of all files reached, with the number of folders and
/// entries that could not be read. Links are never followed. The caller
/// times the scan and fills in `duration_ms`.
pub fn scan(roots: &Vec<Entry>) -> (out: ScanOutcome)
    requires
        scan_fits(roots@),
    ensures
        largest_first(
            roots_folders(roots@),
            |r: FolderRecordView| folder_size(r),
            MAX_FOLDERS as nat,
            folder_views(out.folders@),
        ),
        largest_first(
            roots_large_files(roots@),
            |r: FileRecordView| file_size(r),
            MAX_LARGE_FILES as nat,
            file_views(out.large_files@),
        ),
        out.files_scanned == roots_tally(roots@).files,
        out.bytes_scanned == roots_tally(roots@).size,
        out.errors == roots_errors(roots@),
        out.duration_ms == 0,
        forall|k: int|
            0 <= k < out.large_files@.len() ==> large_file_record_ok(#[trigger] file_views(out.large_files@)[k]),
{
    let mut w = Walk { folders: Vec::new(), files: Vec::new(), errors: 0 };
    let mut total = Measure::zero();
    let mut i: usize = 0;
    proof {
        assert(roots@.take(0) =~= Seq::<Entry>::empty());
        assert(folder_views(w.folders@) =~= Seq::<FolderRecordView>::empty());
        assert(file_views(w.files@) =~= Seq::<FileRecordView>::empty());
    }
    while i < roots.len()
        invariant
            i <= roots@.len(),
            scan_fits(roots@),
            total@ == roots_tally(roots@.take(i as int)),
            w.errors == roots_errors(roots@.take(i as int)),
            folder_views(w.folders@) == roots_folders(roots@.take(i as int)),
            file_views(w.files@) == roots_large_files(roots@.take(i as int)),
        decreases roots@.len() - i,
    {
        let ghost t = roots@.take(i + 1);
        proof {
            lemma_roots_prefix(roots@, i as int);
            assert(t.drop_last() =~= roots@.take(i as int));
            assert(t.last() == roots@[i as int]);
            assert(fits(roots@[i as int]));
            lemma_tally_ok(roots@[i as int]);
        }
        let root = &roots[i];
        match root {
            Entry::Dir { .. } => {
                let m = scan_entry(root, 0, &mut w);
                total = total.plus(m);
            },
            _ => {
                w.errors = w.errors + 1;
                proof {
                    assert(folder_views(w.folders@) =~= roots_folders(t));
                    assert(file_views(w.files@) =~= roots_large_files(t));
                }
            },
        }
        proof {
            assert(folder_views(w.folders@) =~= roots_folders(t));
            assert(file_views(w.files@) =~= roots_large_files(t));
        }
        i = i + 1;
    }
    proof {
        assert(roots@.take(roots@.len() as int) =~= roots@);
    }
    let folders = largest_folders(&w.folders);
    let large_files = largest_files(&w.files);
    proof {
        let items = roots_large_files(roots@);
        let lv = file_views(large_files@);
        lemma_scan_large_files_recorded_well(roots@);
        let o = choose|o: Seq<FileRecordView>|
            #![trigger o.to_multiset()]
            o.to_multiset() == items.to_multiset() && crate::order::desc(o.map_values(|r: FileRecordView| file_size(r))) && lv == o.take(
                capped(items.len(), MAX_LARGE_FILES as nat) as int,
            ) && (exists|order: Seq<usize>|
                #![trigger pick(items, order)]
                o == pick(items, order) && order.to_multiset() == crate::order::positions(items.len()).to_multiset()
                    && crate::order::ties_in_order(items, |r: FileRecordView| file_size(r), order));
        vstd::seq_lib::to_multiset_len(o);
        vstd::seq_lib::to_multiset_len(items);
        assert(o.len() == items.len());
        assert(capped(items.len(), MAX_LARGE_FILES as nat) <= items.len());
        assert forall|k: int| 0 <= k < lv.len() implies large_file_record_ok(#[trigger] lv[k]) by {
            assert(k < o.len());
            assert(lv[k] == o[k]);
            assert(o.contains(o[k]));
            vstd::seq_lib::to_multiset_contains(o, o[k]);
            vstd::seq_lib::to_multiset_contains(items, o[k]);
            let j = choose|j: int| 0 <= j < items.len() && items[j] == o[k];
            assert(large_file_record_ok(items[j]));
        }
    }
    ScanOutcome {
        folders,
        large_files,
        files_scanned: total.file_count,
        bytes_scanned: total.size_bytes,
        errors: w.errors,
        duration_ms: 0,
    }
}

fn largest_folders(found: &Vec<FolderRecord>) -> (out: Vec<FolderRecord>)
    ensures
        largest_first(
            folder_views(found@),
            |r: FolderRecordView| folder_size(r),
            MAX_FOLDERS as nat,
            folder_views(out@),
        ),
{
    let mut sizes: Vec<u64> = Vec::new();
    let mut i: usize = 0;
    while i < found.len()
        invariant
            i <= found@.len(),
            sizes@.len() == i,
            forall|j: int| 0 <= j < i ==> sizes@[j] == found@[j].size_bytes,
        decreases found@.len() - i,
    {
        sizes.push(found[i].size_bytes);
        i = i + 1;
    }
    let chosen = largest_positions(&sizes, MAX_FOLDERS);
    let ghost order = choose|order: Seq<usize>|
        crate::order::stable_desc_order(sizes@, order) && order.len() == sizes@.len() && chosen@
            == order.take(capped(sizes@.len(), MAX_FOLDERS as nat) as int);
    let mut out: Vec<FolderRecord> = Vec::new();
    let mut k: usize = 0;
    while k < chosen.len()
        invariant
            k <= chosen@.len(),
            chosen@ == order.take(capped(sizes@.len(), MAX_FOLDERS as nat) as int),
            crate::order::stable_desc_order(sizes@, order),
            order.len() == sizes@.len(),
            sizes@.len() == found@.len(),
            folder_views(out@) == pick(folder_views(found@), order).take(k as int),
        decreases chosen@.len() - k,
    {
        let item = found[chosen[k]].duplicate();
        let ghost prev = out@;
        out.push(item);
        proof {
            assert(out@ == prev.push(item));
            assert(folder_views(out@) =~= folder_views(prev).push(item@));
            assert(pick(folder_views(found@), order)[k as int] == folder_views(found@)[order[k as int] as int]);
            assert(folder_views(out@) =~= pick(folder_views(found@), order).take(k + 1));
        }
        k = k + 1;
    }
    proof {
        lemma_pick_largest(
            folder_views(found@),
            |r: FolderRecordView| folder_size(r),
            sizes@,
            order,
            MAX_FOLDERS as nat,
        );
    }
    out
}

fn largest_files(found: &Vec<FileRecord>) -> (out: Vec<FileRecord>)
    ensures
        largest_first(
            file_views(found@),
            |r: FileRecordView| file_size(r),
            MAX_LARGE_FILES as nat,
            file_views(out@),
        ),
{
    let mut sizes: Vec<u64> = Vec::new();
    let mut i: usize = 0;
    while i < found.len()
        invariant
            i <= found@.len(),
            sizes@.len() == i,
            forall|j: int| 0 <= j < i ==> sizes@[j] == found@[j].size_bytes,
        decreases found@.len() - i,
    {
        sizes.push(found[i].size_bytes);
        i = i + 1;
    }
    let chosen = largest_positions(&sizes, MAX_LARGE_FILES);
    let ghost order = choose|order: Seq<usize>|
        crate::order::stable_desc_order(sizes@, order) && order.len() == sizes@.len() && chosen@
            == order.take(capped(sizes@.len(), MAX_LARGE_FILES as nat) as int);
    let mut out: Vec<FileRecord> = Vec::new();
    let mut k: usize = 0;
    while k < chosen.len()
        invariant
            k <= chosen@.len(),
            chosen@ == order.take(capped(sizes@.len(), MAX_LARGE_FILES as nat) as int),
            crate::order::stable_desc_order(sizes@, order),
            order.len() == sizes@.len(),
            sizes@.len() == found@.len(),
            file_views(out@) == pick(file_views(found@), order).take(k as int),
        decreases chosen@.len() - k,
    {
        let item = found[chosen[k]].duplicate();
        let ghost prev = out@;
        out.push(item);
        proof {
            assert(out@ == prev.push(item));
            assert(file_views(out@) =~= file_views(prev).push(item@));
            assert(pick(file_views(found@), order)[k as int] == file_views(found@)[order[k as int] as int]);
            assert(file_views(out@) =~= pick(file_views(found@), order).take(k + 1));
        }
        k = k + 1;
    }
    proof {
        lemma_pick_largest(
            file_views(found@),
            |r: FileRecordView| file_size(r),
            sizes@,
            order,
            MAX_LARGE_FILES as nat,
        );
    }
    out
}

/// `d` is `e` itself or lies somewhere below it, inside folders that could
/// be listed.
pub open spec fn in_tree(d: Entry, e: Entry) -> bool
    decreases e,
{
    d == e || match e {
        Entry::Dir { readable, children, .. } => readable && in_listing(d, children@),
        _ => false,
    }
}

/// `d` lies in the tree of one of the entries of `s`.
pub open spec fn in_listing(d: Entry, s: Seq<Entry>) -> bool
    decreases s,
{
    s.len() > 0 && (in_listing(d, s.drop_last()) || in_tree(d, s.last()))
}

/// `d` lies in the tree of one of the scan roots.
pub open spec fn in_roots(d: Entry, roots: Seq<Entry>) -> bool
    decreases roots.len(),
{
    roots.len() > 0 && (in_roots(d, roots.drop_last()) || in_tree(d, roots.last()))
}

/// The record `r` carries exactly the size, file count and recoverable
/// bytes that measuring the folder `d` on its own reports.
pub open spec fn measured_as(r: FolderRecordView, d: Entry) -> bool {
    &&& d is Dir
    &&& r.path == d->Dir_path@
    &&& r.size as int == dir_tally(d).size
    &&& r.files as int == dir_tally(d).files
    &&& r.recoverable as int == dir_tally(d).recoverable
}

proof fn lemma_concat_contains<A>(a: Seq<A>, b: Seq<A>, x: A)
    requires
        (a + b).contains(x),
    ensures
        a.contains(x) || b.contains(x),
{
    let i = choose|i: int| 0 <= i < (a + b).len() && (a + b)[i] == x;
    if i < a.len() {
        assert(a[i] == x);
    } else {
        assert(b[i - a.len()] == x);
    }
}

/// Whatever lies below an entry counts no more than the entry itself.
proof fn lemma_tree_bounds(d: Entry, e: Entry)
    requires
        in_tree(d, e),
    ensures
        entry_tally(d).size <= entry_tally(e).size,
        entry_tally(d).files <= entry_tally(e).files,
    decreases e,
{
    if d != e {
        match e {
            Entry::Dir { readable, children, .. } => {
                lemma_listing_bounds(d, children@);
                lemma_seq_tally_ok(children@);
            },
            _ => {},
        }
    }
}

proof fn lemma_listing_bounds(d: Entry, s: Seq<Entry>)
    requires
        in_listing(d, s),
    ensures
        entry_tally(d).size <= seq_tally(s).size,
        entry_tally(d).files <= seq_tally(s).files,
    decreases s,
{
    lemma_seq_tally_ok(s.drop_last());
    lemma_tally_ok(s.last());
    if in_listing(d, s.drop_last()) {
        lemma_listing_bounds(d, s.drop_last());
    } else {
        lemma_tree_bounds(d, s.last());
    }
}

proof fn lemma_records_measured(e: Entry, depth: int, r: FolderRecordView)
    requires
        fits(e),
        folder_records(e, depth).contains(r),
    ensures
        exists|d: Entry| in_tree(d, e) && measured_as(r, d),
    decreases e,
{
    match e {
        Entry::Dir { path, readable, children } => {
            let below = if readable {
                seq_folder_records(children@, child_depth(depth))
            } else {
                Seq::empty()
            };
            let t = entry_tally(e);
            lemma_tally_ok(e);
            if recorded(t, depth) && r == folder_record(path@, t, depth) {
                assert(in_tree(e, e));
                assert(measured_as(r, e));
            } else {
                if recorded(t, depth) {
                    let i = choose|i: int| 0 <= i < folder_records(e, depth).len() && folder_records(e, depth)[i] == r;
                    assert(below.push(folder_record(path@, t, depth))[i] == r);
                    assert(i < below.len());
                    assert(below[i] == r);
                }
                assert(below.contains(r));
                if readable {
                    lemma_seq_tally_ok(children@);
                    lemma_listing_measured(children@, child_depth(depth), r);
                    let d = choose|d: Entry| in_listing(d, children@) && measured_as(r, d);
                    assert(in_tree(d, e));
                }
            }
        },
        _ => {},
    }
}

proof fn lemma_listing_measured(s: Seq<Entry>, depth: int, r: FolderRecordView)
    requires
        seq_tally(s).size <= u64::MAX,
        seq_tally(s).files <= u64::MAX,
        seq_folder_records(s, depth).contains(r),
    ensures
        exists|d: Entry| in_listing(d, s) && measured_as(r, d),
    decreases s,
{
    lemma_concat_contains(seq_folder_records(s.drop_last(), depth), folder_records(s.last(), depth), r);
    lemma_seq_tally_prefix(s, s.len() - 1);
    assert(s.take(s.len() - 1) =~= s.drop_last());
    assert(s[s.len() - 1] == s.last());
    lemma_seq_tally_ok(s.drop_last());
    lemma_tally_ok(s.last());
    if seq_folder_records(s.drop_last(), depth).contains(r) {
        lemma_listing_measured(s.drop_last(), depth, r);
        let d = choose|d: Entry| in_listing(d, s.drop_last()) && measured_as(r, d);
        assert(in_listing(d, s));
    } else {
        lemma_records_measured(s.last(), depth, r);
        let d = choose|d: Entry| in_tree(d, s.last()) && measured_as(r, d);
        assert(in_listing(d, s));
    }
}

proof fn lemma_roots_measured(roots: Seq<Entry>, r: FolderRecordView)
    requires
        forall|i: int| 0 <= i < roots.len() ==> fits(#[trigger] roots[i]),
        roots_folders(roots).contains(r),
    ensures
        exists|d: Entry| in_roots(d, roots) && measured_as(r, d),
    decreases roots.len(),
{
    let init = roots.drop_last();
    lemma_concat_contains(roots_folders(init), root_folders(roots.last()), r);
    assert(fits(roots[roots.len() - 1]));
    if roots_folders(init).contains(r) {
        assert forall|i: int| 0 <= i < init.len() implies fits(#[trigger] init[i]) by {
            assert(init[i] == roots[i]);
        }
        lemma_roots_measured(init, r);
        let d = choose|d: Entry| in_roots(d, init) && measured_as(r, d);
        assert(in_roots(d, roots));
    } else {
        assert(roots.last() is Dir);
        lemma_records_measured(roots.last(), 0, r);
        let d = choose|d: Entry| in_tree(d, roots.last()) && measured_as(r, d);
        assert(in_roots(d, roots));
    }
}

/// What a scan records for a folder is what opening that folder measures
/// live: every folder in the scan's list is a folder of one of the scanned
/// trees, and its size, file count and recoverable bytes are exactly those
/// `cleaner::measure_dir` reports for that folder.
pub proof fn lemma_scanned_folder_measures_live(
    roots: Seq<Entry>,
    folders: Seq<FolderRecordView>,
    r: FolderRecordView,
)
    requires
        scan_fits(roots),
        largest_first(roots_folders(roots), |f: FolderRecordView| folder_size(f), MAX_FOLDERS as nat, folders),
        folders.contains(r),
    ensures
        exists|d: Entry| in_roots(d, roots) && measured_as(r, d),
{
    broadcast use vstd::seq_lib::group_to_multiset_ensures;
    let all = roots_folders(roots);
    let o = choose|o: Seq<FolderRecordView>|
        #![trigger o.to_multiset()]
        o.to_multiset() == all.to_multiset() && crate::order::desc(o.map_values(|f: FolderRecordView| folder_size(f)))
            && folders == o.take(capped(all.len(), MAX_FOLDERS as nat) as int);
    let i = choose|i: int| 0 <= i < folders.len() && folders[i] == r;
    assert(o.len() == all.len()) by {
        assert(o.to_multiset().len() == all.to_multiset().len());
    }
    assert(o[i] == r);
    assert(o.to_multiset().count(r) > 0) by {
        assert(o.contains(r));
    }
    assert(all.contains(r));
    lemma_roots_measured(roots, r);
}


/// The RFC 3339 text chrono writes for an instant in UTC:
/// `DateTime::<Utc>::from_timestamp(secs, nanos)` followed by
/// `to_rfc3339`, or `None` where `from_timestamp` refuses the instant (out
/// of chrono's range, or nanoseconds that name no instant).
pub uninterp spec fn rfc3339_text(secs: i64, nanos: u32) -> Option<Seq<char>>;

pub open spec fn text_option_view(o: Option<String>) -> Option<Seq<char>> {
    match o {
        Some(s) => Some(s@),
        None => None,
    }
}

/// Calls chrono's `DateTime::<Utc>::from_timestamp` and, where it gives an
/// instant, `to_rfc3339` on it (which does not fail). The contract only
/// names the text: it depends on the two numbers alone.
#[verifier::external_body]
fn rfc3339_utc(secs: i64, nanos: u32) -> (r: Option<String>)
    ensures
        text_option_view(r) == rfc3339_text(secs, nanos),
{
    match chrono::DateTime::<chrono::Utc>::from_timestamp(secs, nanos) {
        Some(d) => Some(d.to_rfc3339()),
        None => None,
    }
}

/// A file time, given as seconds since the Unix epoch (negative before it)
/// and the nanoseconds past that second, as RFC 3339 text in UTC; `None`
/// for an instant chrono cannot represent.
pub fn system_time_to_rfc3339(secs: i64, nanos: u32) -> (r: Option<String>)
    ensures
        text_option_view(r) == rfc3339_text(secs, nanos),
{
    rfc3339_utc(secs, nanos)
}

} // verus!
