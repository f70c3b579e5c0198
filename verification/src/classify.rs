//! What a folder or file is, and whether deleting it is safe.
use vstd::prelude::*;
use vstd::utf8::encode_utf8;
use crate::text::{occurs_at, chars_of, contains, contains_chars, ends_with, ends_with_chars, eq_chars, find, find_chars, lemma_find_from_bounds, lowercase, slice_chars, string_of, to_lowercase};
use crate::winpath;

verus! {

/// A verdict on a path: its category, a safety verdict (`safe`, `review`,
/// `personal`, `apps` or `system`) and a plain-English explanation.
#[derive(Debug)]
pub struct Classification {
    pub category: String,
    pub safety: String,
    pub explanation: String,
}

pub struct ClassificationView {
    pub category: Seq<char>,
    pub safety: Seq<char>,
    pub explanation: Seq<char>,
}

impl View for Classification {
    type V = ClassificationView;

    open spec fn view(&self) -> ClassificationView {
        ClassificationView {
            category: self.category@,
            safety: self.safety@,
            explanation: self.explanation@,
        }
    }
}

/// The rule that produced a verdict, one per distinct verdict.
#[derive(PartialEq, Eq, Structural, Clone, Copy, Debug)]
pub enum Rule {
    PagingFile,
    LogFile,
    RecycleBin,
    Cache,
    Temp,
    LogFolder,
    ProjectDependencies,
    ComponentStore,
    InstallerCache,
    WindowsUpdate,
    PreviousWindows,
    WindowsSystem,
    Games,
    Applications,
    SharedAppData,
    Downloads,
    PersonalFiles,
    UserAppData,
    AllUsers,
}

pub const SAFE: &'static str = "safe";
pub const REVIEW: &'static str = "review";
pub const PERSONAL: &'static str = "personal";
pub const APPS: &'static str = "apps";
pub const SYSTEM: &'static str = "system";

pub const CAT_SYSTEM: &'static str = "System";
pub const CAT_LOGS: &'static str = "Logs & dumps";
pub const CAT_RECYCLE: &'static str = "Recycle Bin";
pub const CAT_CACHE: &'static str = "Cache";
pub const CAT_TEMP: &'static str = "Temporary files";
pub const CAT_DEPS: &'static str = "Project dependencies";
pub const CAT_UPDATE: &'static str = "Windows Update";
pub const CAT_PREVIOUS: &'static str = "Previous Windows";
pub const CAT_GAMES: &'static str = "Game files";
pub const CAT_APPLICATIONS: &'static str = "Applications";
pub const CAT_APP_DATA: &'static str = "App data";
pub const CAT_DOWNLOADS: &'static str = "Downloads";
pub const CAT_PERSONAL: &'static str = "Personal files";

pub const EXP_PAGING: &'static str = "Windows virtual memory / hibernation file. Managed by Windows — deleting it manually is not possible and not safe.";
pub const EXP_LOG_FILE: &'static str = "Diagnostic record. Safe to delete — only needed when troubleshooting a problem.";
pub const EXP_RECYCLE: &'static str = "Files you already deleted, held for recovery. Emptying the Recycle Bin permanently removes them and frees this space.";
pub const EXP_CACHE: &'static str = "Safe to delete — applications rebuild caches automatically. The only cost is a slightly slower first launch.";
pub const EXP_TEMP: &'static str = "Safe to delete — programs recreate temporary files whenever they need them.";
pub const EXP_LOG_FOLDER: &'static str = "Diagnostic records only. Safe to delete — not needed for normal use.";
pub const EXP_DEPS: &'static str = "Downloaded packages for a code project. Safe to delete for projects you are not working on — `npm install` recreates it.";
pub const EXP_WINSXS: &'static str = "Windows component store. Never delete manually — files here are shared by Windows itself. Use Disk Cleanup instead.";
pub const EXP_INSTALLER: &'static str = "Windows Installer cache. Deleting it breaks repairing and uninstalling of installed applications.";
pub const EXP_UPDATE: &'static str = "Downloaded update packages. Safe to remove once updates are installed, but requires administrator rights.";
pub const EXP_PREVIOUS: &'static str = "Your previous Windows installation, kept so you can roll back. Windows removes it automatically after ~10 days; Disk Cleanup can remove it sooner.";
pub const EXP_WINDOWS: &'static str = "Windows operating system files. Do not delete manually — removing files here can break Windows.";
pub const EXP_GAMES: &'static str = "Installed games. Uninstall through Steam to remove them cleanly — deleting the folder leaves broken library entries.";
pub const EXP_APPLICATIONS: &'static str = "Installed applications. Remove them via Settings → Apps → Uninstall, not by deleting folders — deleting here leaves broken registry entries.";
pub const EXP_PROGRAM_DATA: &'static str = "Shared data for installed applications. Deleting can reset or break applications.";
pub const EXP_DOWNLOADS: &'static str = "Files you downloaded. Old installers, archives and ISO images here are usually safe to delete — check anything you might still need.";
pub const EXP_PERSONAL: &'static str = "Your personal files. They cannot be recreated — review carefully and back up before deleting anything.";
pub const EXP_USER_APP_DATA: &'static str = "Settings and data for your applications. Deleting wholesale resets or breaks apps — clear specific caches instead.";
pub const EXP_ALL_USERS: &'static str = "All user profiles on this PC, including your documents and app data.";

/// The verdict each rule gives.
pub open spec fn rule_view(r: Rule) -> ClassificationView {
    let (c, s, e) = match r {
        Rule::PagingFile => (CAT_SYSTEM, SYSTEM, EXP_PAGING),
        Rule::LogFile => (CAT_LOGS, SAFE, EXP_LOG_FILE),
        Rule::RecycleBin => (CAT_RECYCLE, SAFE, EXP_RECYCLE),
        Rule::Cache => (CAT_CACHE, SAFE, EXP_CACHE),
        Rule::Temp => (CAT_TEMP, SAFE, EXP_TEMP),
        Rule::LogFolder => (CAT_LOGS, SAFE, EXP_LOG_FOLDER),
        Rule::ProjectDependencies => (CAT_DEPS, SAFE, EXP_DEPS),
        Rule::ComponentStore => (CAT_SYSTEM, SYSTEM, EXP_WINSXS),
        Rule::InstallerCache => (CAT_SYSTEM, SYSTEM, EXP_INSTALLER),
        Rule::WindowsUpdate => (CAT_UPDATE, REVIEW, EXP_UPDATE),
        Rule::PreviousWindows => (CAT_PREVIOUS, REVIEW, EXP_PREVIOUS),
        Rule::WindowsSystem => (CAT_SYSTEM, SYSTEM, EXP_WINDOWS),
        Rule::Games => (CAT_GAMES, APPS, EXP_GAMES),
        Rule::Applications => (CAT_APPLICATIONS, APPS, EXP_APPLICATIONS),
        Rule::SharedAppData => (CAT_APP_DATA, APPS, EXP_PROGRAM_DATA),
        Rule::Downloads => (CAT_DOWNLOADS, REVIEW, EXP_DOWNLOADS),
        Rule::PersonalFiles => (CAT_PERSONAL, PERSONAL, EXP_PERSONAL),
        Rule::UserAppData => (CAT_APP_DATA, APPS, EXP_USER_APP_DATA),
        Rule::AllUsers => (CAT_PERSONAL, PERSONAL, EXP_ALL_USERS),
    };
    ClassificationView { category: c@, safety: s@, explanation: e@ }
}

/// The verdict of a rule, as strings.
pub fn rule_classification(r: Rule) -> (c: Classification)
    ensures
        c@ == rule_view(r),
{
    let (cat, safety, exp) = match r {
        Rule::PagingFile => (CAT_SYSTEM, SYSTEM, EXP_PAGING),
        Rule::LogFile => (CAT_LOGS, SAFE, EXP_LOG_FILE),
        Rule::RecycleBin => (CAT_RECYCLE, SAFE, EXP_RECYCLE),
        Rule::Cache => (CAT_CACHE, SAFE, EXP_CACHE),
        Rule::Temp => (CAT_TEMP, SAFE, EXP_TEMP),
        Rule::LogFolder => (CAT_LOGS, SAFE, EXP_LOG_FOLDER),
        Rule::ProjectDependencies => (CAT_DEPS, SAFE, EXP_DEPS),
        Rule::ComponentStore => (CAT_SYSTEM, SYSTEM, EXP_WINSXS),
        Rule::InstallerCache => (CAT_SYSTEM, SYSTEM, EXP_INSTALLER),
        Rule::WindowsUpdate => (CAT_UPDATE, REVIEW, EXP_UPDATE),
        Rule::PreviousWindows => (CAT_PREVIOUS, REVIEW, EXP_PREVIOUS),
        Rule::WindowsSystem => (CAT_SYSTEM, SYSTEM, EXP_WINDOWS),
        Rule::Games => (CAT_GAMES, APPS, EXP_GAMES),
        Rule::Applications => (CAT_APPLICATIONS, APPS, EXP_APPLICATIONS),
        Rule::SharedAppData => (CAT_APP_DATA, APPS, EXP_PROGRAM_DATA),
        Rule::Downloads => (CAT_DOWNLOADS, REVIEW, EXP_DOWNLOADS),
        Rule::PersonalFiles => (CAT_PERSONAL, PERSONAL, EXP_PERSONAL),
        Rule::UserAppData => (CAT_APP_DATA, APPS, EXP_USER_APP_DATA),
        Rule::AllUsers => (CAT_PERSONAL, PERSONAL, EXP_ALL_USERS),
    };
    Classification { category: cat.to_owned(), safety: safety.to_owned(), explanation: exp.to_owned() }
}

/// Folder names that always hold a rebuildable cache.
pub open spec fn is_cache_name(n: Seq<char>) -> bool {
    ||| n == "cache"@
    ||| n == "caches"@
    ||| n == "cache2"@
    ||| n == "code cache"@
    ||| n == "gpucache"@
    ||| n == "cachestorage"@
    ||| n == "shadercache"@
    ||| n == "cachedata"@
    ||| n == "cacheddata"@
    ||| n == "componentmodelcache"@
    ||| n == "dxcache"@
    ||| n == "glcache"@
    ||| n == "d3dscache"@
    ||| n == "media cache"@
    ||| n == "media cache files"@
    ||| n == "webcache"@
    ||| n == "cachedextensionvsixs"@
    ||| n == "cached thumbnails"@
    ||| n == "cachedextensions"@
}

/// Folder names that hold logs and crash dumps.
pub open spec fn is_log_name(n: Seq<char>) -> bool {
    ||| n == "logs"@
    ||| n == "log"@
    ||| n == "crashdumps"@
    ||| n == "minidump"@
    ||| n == "livekernelreports"@
    ||| n == "crash reports"@
}

pub open spec fn is_paging_name(n: Seq<char>) -> bool {
    n == "pagefile.sys"@ || n == "hiberfil.sys"@ || n == "swapfile.sys"@
}

/// True when the lowercased path is exactly `<drive>:\<child>` or inside it:
/// what follows its first three bytes is `child`, or `child` and a `\`.
pub open spec fn is_drive_child(full_lower: Seq<char>, child: Seq<char>) -> bool {
    let b = encode_utf8(full_lower);
    let c = encode_utf8(child);
    b.len() >= 3 && (b.skip(3) == c || (c.len() + 1 <= b.len() - 3 && b.skip(3).take(
        c.len() + 1int,
    ) == c.push(0x5cu8)))
}

/// For `c:\users\<name>\rest` (lowercased) the `rest`.
pub open spec fn user_relative(full_lower: Seq<char>) -> Option<Seq<char>> {
    match find(full_lower, ":\\users\\"@) {
        Some(i) => {
            let after = full_lower.skip(i + (":\\users\\"@).len());
            match find(after, seq!['\\']) {
                Some(j) => Some(after.skip(j + 1)),
                None => None,
            }
        },
        None => None,
    }
}

/// The text before the first `\` (all of it when there is none).
pub open spec fn first_segment(s: Seq<char>) -> Seq<char> {
    match find(s, seq!['\\']) {
        Some(j) => s.take(j),
        None => s,
    }
}

pub open spec fn is_personal_root(first: Seq<char>) -> bool {
    ||| first == "documents"@
    ||| first == "pictures"@
    ||| first == "videos"@
    ||| first == "music"@
    ||| first == "desktop"@
    ||| first == "onedrive"@
}

pub open spec fn is_app_data_root(after_user: Seq<char>) -> bool {
    ||| after_user == "appdata"@
    ||| after_user == "appdata\\local"@
    ||| after_user == "appdata\\roaming"@
    ||| after_user == "appdata\\locallow"@
}

/// The rule for a path, from its lowercased text, its lowercased file name,
/// whether it is a folder, and whether it sits directly under a drive root.
pub open spec fn rule_for(full: Seq<char>, name: Seq<char>, is_dir: bool, under_root: bool) -> Option<
    Rule,
> {
    if !is_dir && is_paging_name(name) {
        Some(Rule::PagingFile)
    } else if !is_dir && (ends_with(name, ".log"@) || ends_with(name, ".dmp"@)) {
        Some(Rule::LogFile)
    } else if contains(full, "\\$recycle.bin"@) {
        Some(Rule::RecycleBin)
    } else if is_dir && is_cache_name(name) {
        Some(Rule::Cache)
    } else if is_dir && (name == "temp"@ || name == "tmp"@) {
        Some(Rule::Temp)
    } else if is_dir && is_log_name(name) {
        Some(Rule::LogFolder)
    } else if is_dir && name == "node_modules"@ {
        Some(Rule::ProjectDependencies)
    } else if contains(full, "\\windows\\winsxs"@) {
        Some(Rule::ComponentStore)
    } else if contains(full, "\\windows\\installer"@) {
        Some(Rule::InstallerCache)
    } else if contains(full, "\\softwaredistribution\\download"@) {
        Some(Rule::WindowsUpdate)
    } else if contains(full, "\\windows.old"@) {
        Some(Rule::PreviousWindows)
    } else if is_drive_child(full, "windows"@) {
        Some(Rule::WindowsSystem)
    } else if contains(full, "\\steamapps\\common"@) {
        Some(Rule::Games)
    } else if is_drive_child(full, "program files"@) || is_drive_child(full, "program files (x86)"@) {
        Some(Rule::Applications)
    } else if is_drive_child(full, "programdata"@) {
        Some(Rule::SharedAppData)
    } else {
        match user_relative(full) {
            Some(after) => {
                let first = first_segment(after);
                if first == "downloads"@ {
                    Some(Rule::Downloads)
                } else if is_personal_root(first) {
                    Some(Rule::PersonalFiles)
                } else if first == "appdata"@ && is_app_data_root(after) {
                    Some(Rule::UserAppData)
                } else {
                    None
                }
            },
            None => {
                if is_dir && under_root && name == "users"@ {
                    Some(Rule::AllUsers)
                } else {
                    None
                }
            },
        }
    }
}

/// The lowercased file name of a path (empty when it has none).
pub open spec fn name_lower(path: Seq<char>) -> Seq<char> {
    match winpath::file_name(path) {
        Some(n) => lowercase(n),
        None => Seq::empty(),
    }
}

/// The path's parent is a drive root (or other root): `C:\users`.
pub open spec fn under_root(path: Seq<char>) -> bool {
    match winpath::parent(path) {
        Some(p) => winpath::parent(p) is None,
        None => false,
    }
}

/// The rule that classifies `path`.
pub open spec fn path_rule(path: Seq<char>, is_dir: bool) -> Option<Rule> {
    rule_for(lowercase(path), name_lower(path), is_dir, under_root(path))
}

/// The verdict for `path`, as the library reports it.
pub open spec fn verdict(path: Seq<char>, is_dir: bool) -> Option<ClassificationView> {
    match path_rule(path, is_dir) {
        Some(r) => Some(rule_view(r)),
        None => None,
    }
}

pub open spec fn opt_view(c: Option<Classification>) -> Option<ClassificationView> {
    match c {
        Some(c) => Some(c@),
        None => None,
    }
}

fn lit(s: &str) -> (v: Vec<char>)
    ensures
        v@ == s@,
{
    chars_of(s)
}

fn in_list(name: &Vec<char>, list: &[&str]) -> (b: bool)
    ensures
        b == exists|i: int| 0 <= i < list@.len() && name@ == list@[i]@,
{
    let mut i: usize = 0;
    while i < list.len()
        invariant
            i <= list@.len(),
            forall|j: int| 0 <= j < i ==> name@ != list@[j]@,
        decreases list@.len() - i,
    {
        let item = lit(list[i]);
        if eq_chars(name, &item) {
            return true;
        }
        i = i + 1;
    }
    false
}

fn bytes_eq_from(b: &[u8], start: usize, c: &[u8]) -> (r: bool)
    requires
        start <= b@.len(),
    ensures
        r == (b@.skip(start as int) == c@),
{
    if b.len() - start != c.len() {
        proof {
            assert(b@.skip(start as int).len() != c@.len());
        }
        return false;
    }
    let mut k: usize = 0;
    while k < c.len()
        invariant
            b@.len() == b.len(),
            b@.len() - start == c@.len(),
            start <= b@.len(),
            k <= c@.len(),
            forall|j: int| 0 <= j < k ==> b@[start + j] == c@[j],
        decreases c@.len() - k,
    {
        if b[start + k] != c[k] {
            proof {
                assert(b@.skip(start as int)[k as int] != c@[k as int]);
            }
            return false;
        }
        k = k + 1;
    }
    proof {
        assert(b@.skip(start as int) =~= c@);
    }
    true
}

fn bytes_match_at(b: &[u8], start: usize, p: &Vec<u8>) -> (r: bool)
    requires
        start <= b@.len(),
    ensures
        r == (p@.len() <= b@.len() - start && b@.skip(start as int).take(p@.len() as int) == p@),
{
    if p.len() > b.len() - start {
        return false;
    }
    let mut k: usize = 0;
    while k < p.len()
        invariant
            b@.len() == b.len(),
            start <= b@.len(),
            p@.len() <= b@.len() - start,
            k <= p@.len(),
            forall|j: int| 0 <= j < k ==> b@[start + j] == p@[j],
        decreases p@.len() - k,
    {
        if b[start + k] != p[k] {
            proof {
                assert(b@.skip(start as int).take(p@.len() as int)[k as int] != p@[k as int]);
            }
            return false;
        }
        k = k + 1;
    }
    proof {
        assert(b@.skip(start as int).take(p@.len() as int) =~= p@);
    }
    true
}

/// `is_drive_child`, computed on the UTF-8 bytes.
pub fn drive_child(full_lower: &str, child: &str) -> (r: bool)
    ensures
        r == is_drive_child(full_lower@, child@),
{
    let b = full_lower.as_bytes();
    let c = child.as_bytes();
    if b.len() < 3 {
        return false;
    }
    if bytes_eq_from(b, 3, c) {
        return true;
    }
    let mut with_sep: Vec<u8> = Vec::new();
    let mut k: usize = 0;
    while k < c.len()
        invariant
            k <= c@.len(),
            with_sep@ == c@.take(k as int),
        decreases c@.len() - k,
    {
        with_sep.push(c[k]);
        proof {
            assert(c@.take(k + 1) =~= c@.take(k as int).push(c@[k as int]));
        }
        k = k + 1;
    }
    with_sep.push(0x5cu8);
    proof {
        assert(c@.take(c@.len() as int) =~= c@);
    }
    bytes_match_at(b, 3, &with_sep)
}

/// `user_relative`, computed.
pub fn user_relative_exec(full: &Vec<char>) -> (r: Option<Vec<char>>)
    ensures
        r matches Some(v) ==> user_relative(full@) == Some(v@),
        r is None ==> user_relative(full@) is None,
{
    let pat = lit(":\\users\\");
    match find_chars(full, &pat) {
        Some(i) => {
            proof {
                lemma_find_from_bounds(full@, pat@, 0);
                assert(occurs_at(full@, pat@, i as int));
                assert(full@.len() == full.len());
            }
            let after = slice_chars(full, i + pat.len(), full.len());
            proof {
                assert(after@ =~= full@.skip(i + pat@.len()));
            }
            let mut sep: Vec<char> = Vec::new();
            sep.push('\\');
            proof {
                assert(sep@ =~= seq!['\\']);
            }
            match find_chars(&after, &sep) {
                Some(j) => {
                    proof {
                        lemma_find_from_bounds(after@, sep@, 0);
                    }
                    let rest = slice_chars(&after, j + 1, after.len());
                    proof {
                        assert(rest@ =~= after@.skip(j + 1));
                    }
                    Some(rest)
                },
                None => None,
            }
        },
        None => None,
    }
}

fn first_segment_exec(s: &Vec<char>) -> (r: Vec<char>)
    ensures
        r@ == first_segment(s@),
{
    let mut sep: Vec<char> = Vec::new();
    sep.push('\\');
    proof {
        assert(sep@ =~= seq!['\\']);
    }
    match find_chars(s, &sep) {
        Some(j) => {
            proof {
                lemma_find_from_bounds(s@, sep@, 0);
            }
            let r = slice_chars(s, 0, j);
            proof {
                assert(r@ =~= s@.take(j as int));
            }
            r
        },
        None => {
            let r = slice_chars(s, 0, s.len());
            proof {
                assert(r@ =~= s@);
            }
            r
        },
    }
}

fn lit_eq(v: &Vec<char>, s: &str) -> (b: bool)
    ensures
        b == (v@ == s@),
{
    let l = lit(s);
    eq_chars(v, &l)
}

fn lit_contains(v: &Vec<char>, s: &str) -> (b: bool)
    ensures
        b == contains(v@, s@),
{
    let l = lit(s);
    contains_chars(v, &l)
}

/// The rule, given the path's lowercased text and file name.
pub fn rule_of(full_lower: &str, name_lower: &str, is_dir: bool, under_root: bool) -> (r: Option<Rule>)
    ensures
        r == rule_for(full_lower@, name_lower@, is_dir, under_root),
{
    let full = chars_of(full_lower);
    let name = chars_of(name_lower);
    let log = lit(".log");
    let dmp = lit(".dmp");
    if !is_dir && (lit_eq(&name, "pagefile.sys") || lit_eq(&name, "hiberfil.sys") || lit_eq(&name, "swapfile.sys")) {
        return Some(Rule::PagingFile);
    }
    if !is_dir && (ends_with_chars(&name, &log) || ends_with_chars(&name, &dmp)) {
        return Some(Rule::LogFile);
    }
    if lit_contains(&full, "\\$recycle.bin") {
        return Some(Rule::RecycleBin);
    }
    if is_dir {
        let caches: [&str; 19] = [
            "cache", "caches", "cache2", "code cache", "gpucache", "cachestorage",
            "shadercache", "cachedata", "cacheddata", "componentmodelcache", "dxcache",
            "glcache", "d3dscache", "media cache", "media cache files", "webcache",
            "cachedextensionvsixs", "cached thumbnails", "cachedextensions",
        ];
        let is_cache = in_list(&name, &caches);
        proof {
            if is_cache {
                let i = choose|i: int| 0 <= i < caches@.len() && name@ == caches@[i]@;
                assert(is_cache_name(name@));
            } else {
                assert(name@ != caches@[0]@);
                assert(name@ != caches@[1]@);
                assert(name@ != caches@[2]@);
                assert(name@ != caches@[3]@);
                assert(name@ != caches@[4]@);
                assert(name@ != caches@[5]@);
                assert(name@ != caches@[6]@);
                assert(name@ != caches@[7]@);
                assert(name@ != caches@[8]@);
                assert(name@ != caches@[9]@);
                assert(name@ != caches@[10]@);
                assert(name@ != caches@[11]@);
                assert(name@ != caches@[12]@);
                assert(name@ != caches@[13]@);
                assert(name@ != caches@[14]@);
                assert(name@ != caches@[15]@);
                assert(name@ != caches@[16]@);
                assert(name@ != caches@[17]@);
                assert(name@ != caches@[18]@);
            }
        }
        if is_cache {
            return Some(Rule::Cache);
        }
        if lit_eq(&name, "temp") || lit_eq(&name, "tmp") {
            return Some(Rule::Temp);
        }
        let logs: [&str; 6] = ["logs", "log", "crashdumps", "minidump", "livekernelreports", "crash reports"];
        let is_log = in_list(&name, &logs);
        proof {
            if !is_log {
                assert(name@ != logs@[0]@);
                assert(name@ != logs@[1]@);
                assert(name@ != logs@[2]@);
                assert(name@ != logs@[3]@);
                assert(name@ != logs@[4]@);
                assert(name@ != logs@[5]@);
            }
        }
        if is_log {
            return Some(Rule::LogFolder);
        }
        if lit_eq(&name, "node_modules") {
            return Some(Rule::ProjectDependencies);
        }
    }
    if lit_contains(&full, "\\windows\\winsxs") {
        return Some(Rule::ComponentStore);
    }
    if lit_contains(&full, "\\windows\\installer") {
        return Some(Rule::InstallerCache);
    }
    if lit_contains(&full, "\\softwaredistribution\\download") {
        return Some(Rule::WindowsUpdate);
    }
    if lit_contains(&full, "\\windows.old") {
        return Some(Rule::PreviousWindows);
    }
    if drive_child(full_lower, "windows") {
        return Some(Rule::WindowsSystem);
    }
    if lit_contains(&full, "\\steamapps\\common") {
        return Some(Rule::Games);
    }
    if drive_child(full_lower, "program files") || drive_child(full_lower, "program files (x86)") {
        return Some(Rule::Applications);
    }
    if drive_child(full_lower, "programdata") {
        return Some(Rule::SharedAppData);
    }
    match user_relative_exec(&full) {
        Some(after) => {
            let first = first_segment_exec(&after);
            if lit_eq(&first, "downloads") {
                Some(Rule::Downloads)
            } else if lit_eq(&first, "documents") || lit_eq(&first, "pictures") || lit_eq(&first, "videos")
                || lit_eq(&first, "music") || lit_eq(&first, "desktop") || lit_eq(&first, "onedrive") {
                Some(Rule::PersonalFiles)
            } else if lit_eq(&first, "appdata") {
                if lit_eq(&after, "appdata") || lit_eq(&after, "appdata\\local") || lit_eq(&after, "appdata\\roaming")
                    || lit_eq(&after, "appdata\\locallow") {
                    Some(Rule::UserAppData)
                } else {
                    None
                }
            } else {
                None
            }
        },
        None => {
            if is_dir && under_root && lit_eq(&name, "users") {
                Some(Rule::AllUsers)
            } else {
                None
            }
        },
    }
}

/// Classifies a path from its already-lowercased text and file name; `under_root`
/// says whether its parent is a drive root.
pub fn classify_lowered(full_lower: &str, name_lower: &str, is_dir: bool, under_root: bool) -> (c:
    Option<Classification>)
    ensures
        opt_view(c) == match rule_for(full_lower@, name_lower@, is_dir, under_root) {
            Some(r) => Some(rule_view(r)),
            None => None,
        },
{
    match rule_of(full_lower, name_lower, is_dir, under_root) {
        Some(r) => Some(rule_classification(r)),
        None => None,
    }
}

fn classify_chars(path: &Vec<char>, is_dir: bool) -> (c: Option<Classification>)
    ensures
        opt_view(c) == verdict(path@, is_dir),
{
    let text = string_of(path);
    let full_lower = to_lowercase(text.as_str());
    let name_lower = match winpath::file_name_exec(path) {
        Some(n) => {
            let ns = string_of(&n);
            to_lowercase(ns.as_str())
        },
        None => String::new(),
    };
    let under_root = match winpath::parent_exec(path) {
        Some(p) => winpath::parent_exec(&p).is_none(),
        None => false,
    };
    classify_lowered(full_lower.as_str(), name_lower.as_str(), is_dir, under_root)
}

/// Explains what a folder or file is and whether deleting it is safe;
/// `None` when nothing meaningful can be said.
pub fn classify(path: &str, is_dir: bool) -> (c: Option<Classification>)
    ensures
        opt_view(c) == verdict(path@, is_dir),
{
    let v = chars_of(path);
    classify_chars(&v, is_dir)
}

/// The safety verdict alone.
pub fn safety(path: &str, is_dir: bool) -> (s: Option<String>)
    ensures
        s matches Some(v) ==> verdict(path@, is_dir) matches Some(c) && v@ == c.safety,
        s is None ==> verdict(path@, is_dir) is None,
{
    match classify(path, is_dir) {
        Some(c) => Some(c.safety),
        None => None,
    }
}

/// The verdict of the nearest ancestor (nearest first) that has one; each
/// ancestor is judged as a folder.
pub open spec fn nearest_verdict(path: Seq<char>) -> Option<ClassificationView>
    decreases path.len(),
{
    match winpath::parent(path) {
        Some(p) => {
            proof {
                winpath::lemma_parent_shorter(path);
            }
            match verdict(p, true) {
                Some(c) => Some(c),
                None => nearest_verdict(p),
            }
        },
        None => None,
    }
}

/// The path's own verdict, or else its nearest classified ancestor's.
pub open spec fn effective_verdict(path: Seq<char>, is_dir: bool) -> Option<ClassificationView> {
    match verdict(path, is_dir) {
        Some(c) => Some(c),
        None => nearest_verdict(path),
    }
}

/// Like `classify`, but falls back to the nearest classified ancestor: a
/// file inside a cache folder inherits "safe to clear", and so on.
pub fn classify_effective(path: &str, is_dir: bool) -> (c: Option<Classification>)
    ensures
        opt_view(c) == effective_verdict(path@, is_dir),
{
    let v = chars_of(path);
    if let Some(c) = classify_chars(&v, is_dir) {
        return Some(c);
    }
    let mut current = winpath::parent_exec(&v);
    proof {
        winpath::lemma_parent_shorter(v@);
    }
    loop
        invariant
            nearest_verdict(v@) == nearest_from(opt_seq(current)),
            verdict(v@, is_dir) is None,
            v@ == path@,
        decreases match current {
            Some(a) => a@.len() + 1,
            None => 0,
        },
    {
        match current {
            Some(a) => {
                if let Some(c) = classify_chars(&a, true) {
                    return Some(c);
                }
                let next = winpath::parent_exec(&a);
                proof {
                    winpath::lemma_parent_shorter(a@);
                }
                current = next;
            },
            None => {
                return None;
            },
        }
    }
}

pub open spec fn opt_seq(o: Option<Vec<char>>) -> Option<Seq<char>> {
    match o {
        Some(v) => Some(v@),
        None => None,
    }
}

/// The verdict of `cur` or, failing that, of its nearest classified ancestor.
pub open spec fn nearest_from(cur: Option<Seq<char>>) -> Option<ClassificationView> {
    match cur {
        Some(a) => match verdict(a, true) {
            Some(c) => Some(c),
            None => nearest_verdict(a),
        },
        None => None,
    }
}

/// The verdict does not depend on letter case: a path and its lowercase
/// form get the same verdict (category, safety and explanation, or none),
/// as a folder and as a file alike, wherever lowercasing leaves the path's
/// structure as it was: lowercasing lowercase text changes nothing, the
/// lowercase path's file name is the lowercase file name, and its parents
/// stand as before (same separators and drive prefix).
pub proof fn lemma_verdict_ignores_case(p: Seq<char>, is_dir: bool)
    requires
        forall|s: Seq<char>| #[trigger] lowercase(lowercase(s)) == lowercase(s),
        winpath::file_name(lowercase(p)) == match winpath::file_name(p) {
            Some(n) => Some(lowercase(n)),
            None => None,
        },
        under_root(lowercase(p)) == under_root(p),
    ensures
        verdict(lowercase(p), is_dir) == verdict(p, is_dir),
{
    assert(lowercase(lowercase(p)) == lowercase(p));
    match winpath::file_name(p) {
        Some(n) => {
            assert(lowercase(lowercase(n)) == lowercase(n));
            assert(name_lower(lowercase(p)) == name_lower(p));
        },
        None => {
            assert(name_lower(lowercase(p)) == name_lower(p));
        },
    }
    assert(path_rule(lowercase(p), is_dir) == path_rule(p, is_dir));
}

/// A folder named `node_modules` (in any letter case) is a code project's
/// downloaded dependencies, safe to delete, unless it lies in a Recycle
/// Bin: no other rule comes first for that name.
pub proof fn lemma_node_modules_are_dependencies(p: Seq<char>)
    requires
        winpath::file_name(p) matches Some(n) && lowercase(n) == "node_modules"@,
        !contains(lowercase(p), "\\$recycle.bin"@),
    ensures
        verdict(p, true) matches Some(c) && c.category == "Project dependencies"@ && c.safety == "safe"@
            && c.explanation == EXP_DEPS@,
{
    reveal_strlit("node_modules");
    reveal_strlit("temp");
    reveal_strlit("tmp");
    reveal_strlit("cache");
    reveal_strlit("caches");
    reveal_strlit("cache2");
    reveal_strlit("code cache");
    reveal_strlit("gpucache");
    reveal_strlit("cachestorage");
    reveal_strlit("shadercache");
    reveal_strlit("cachedata");
    reveal_strlit("cacheddata");
    reveal_strlit("componentmodelcache");
    reveal_strlit("dxcache");
    reveal_strlit("glcache");
    reveal_strlit("d3dscache");
    reveal_strlit("media cache");
    reveal_strlit("media cache files");
    reveal_strlit("webcache");
    reveal_strlit("cachedextensionvsixs");
    reveal_strlit("cached thumbnails");
    reveal_strlit("cachedextensions");
    reveal_strlit("logs");
    reveal_strlit("log");
    reveal_strlit("crashdumps");
    reveal_strlit("minidump");
    reveal_strlit("livekernelreports");
    reveal_strlit("crash reports");
    let name = name_lower(p);
    assert(name == "node_modules"@);
    assert(name.len() == 12 && name[0] == 'n');
    assert("cachestorage"@.len() == 12 && "cachestorage"@[0] == 'c');
    assert(!is_cache_name(name));
    assert(!is_log_name(name));
    assert(name != "temp"@ && name != "tmp"@);
    assert(path_rule(p, true) == Some(Rule::ProjectDependencies));
}

} // verus!
