//! The decisions behind the app's commands: the PowerShell scripts that
//! delete, recycle and force-delete; the database patterns and corrections
//! that keep a stored scan in step with the disk; and how deletions, live
//! folder listings, scan comparisons and searches are worked out.
use vstd::prelude::*;
use vstd::utf8::encode_utf8;
use crate::text::{chars_of, contains, contains_chars, eq_chars, starts_with, starts_with_chars, strip_char_end, trim, trim_chars, escape_quotes, escape_single_quotes, lowercase, push_str, string_of, to_lowercase};
use crate::winpath::{ancestors, lemma_parent_shorter, parent, parent_exec};
use crate::cleaner::{entry_tally, fits, lemma_seq_tally_ok, lemma_seq_tally_prefix, lemma_tally_ok, measure_entry, seq_tally, tally_ok, Entry, Measure, Tally};
use crate::classify::{classify, classify_effective, effective_verdict, opt_view, verdict, Classification, ClassificationView, SAFE, SYSTEM};
use crate::order::{capped, largest_first, largest_positions, lemma_pick_largest, pick, stable_desc_order};
use crate::winpath::{file_name, file_name_exec};
use crate::uninstall::{app_views, InstalledApp, InstalledAppView};

verus! {

/// The first line of every deletion script: loads the Visual Basic file
/// system helpers that can send items to the Recycle Bin.
pub const SCRIPT_HEADER: &'static str = "Add-Type -AssemblyName Microsoft.VisualBasic\n";

/// C#, compiled once per script via `Add-Type`, giving the elevated
/// PowerShell process the two Win32 building blocks force-delete needs:
/// asking Restart Manager what has a path open, and scheduling a path for
/// removal on next boot.
pub const FORCE_DELETE_HELPER: &'static str = r#"
Add-Type -TypeDefinition @"
using System;
using System.Collections.Generic;
using System.IO;
using System.Runtime.InteropServices;

public class SDForceDelete {
    [StructLayout(LayoutKind.Sequential)]
    struct RM_UNIQUE_PROCESS {
        public int dwProcessId;
        public System.Runtime.InteropServices.ComTypes.FILETIME ProcessStartTime;
    }
    const int CCH_RM_MAX_APP_NAME = 255;
    const int CCH_RM_MAX_SVC_NAME = 63;
    [StructLayout(LayoutKind.Sequential, CharSet = CharSet.Unicode)]
    struct RM_PROCESS_INFO {
        public RM_UNIQUE_PROCESS Process;
        [MarshalAs(UnmanagedType.ByValTStr, SizeConst = CCH_RM_MAX_APP_NAME + 1)]
        public string strAppName;
        [MarshalAs(UnmanagedType.ByValTStr, SizeConst = CCH_RM_MAX_SVC_NAME + 1)]
        public string strServiceShortName;
        public int ApplicationType;
        public uint AppStatus;
        public uint TSSessionId;
        [MarshalAs(UnmanagedType.Bool)]
        public bool bRestartable;
    }

    [DllImport("rstrtmgr.dll", CharSet = CharSet.Unicode)]
    static extern int RmStartSession(out uint pSessionHandle, int dwSessionFlags, string strSessionKey);
    [DllImport("rstrtmgr.dll")]
    static extern int RmEndSession(uint pSessionHandle);
    [DllImport("rstrtmgr.dll", CharSet = CharSet.Unicode)]
    static extern int RmRegisterResources(uint pSessionHandle, uint nFiles, string[] rgsFilenames,
        uint nApplications, RM_UNIQUE_PROCESS[] rgApplications, uint nServices, string[] rgsServiceNames);
    [DllImport("rstrtmgr.dll")]
    static extern int RmGetList(uint dwSessionHandle, out uint pnProcInfoNeeded, ref uint pnProcInfo,
        [In, Out] RM_PROCESS_INFO[] rgAffectedApps, ref uint lpdwRebootReasons);
    [DllImport("kernel32.dll", SetLastError = true, CharSet = CharSet.Unicode)]
    static extern bool MoveFileEx(string lpExistingFileName, string lpNewFileName, uint dwFlags);

    /// Process IDs Windows reports as currently holding `path` open. Best
    /// effort throughout: any failure just means an empty list, and the
    /// caller moves straight on to deleting.
    public static int[] FindLockerPids(string path) {
        var pids = new List<int>();
        uint handle;
        string key = Guid.NewGuid().ToString("N").Substring(0, 32);
        if (RmStartSession(out handle, 0, key) != 0) return pids.ToArray();
        try {
            var files = new string[] { path };
            if (RmRegisterResources(handle, (uint)files.Length, files, 0, null, 0, null) != 0) {
                return pids.ToArray();
            }
            uint needed = 0, have = 0, reasons = 0;
            int rc = RmGetList(handle, out needed, ref have, null, ref reasons);
            if ((rc != 0 && rc != 234 /* ERROR_MORE_DATA */) || needed == 0) return pids.ToArray();
            var infos = new RM_PROCESS_INFO[needed];
            have = needed;
            if (RmGetList(handle, out needed, ref have, infos, ref reasons) != 0) return pids.ToArray();
            for (int i = 0; i < have; i++) pids.Add(infos[i].Process.dwProcessId);
        } finally {
            RmEndSession(handle);
        }
        return pids.ToArray();
    }

    static void CollectDepthFirst(string dir, List<string> into, int cap) {
        if (into.Count >= cap) return;
        foreach (var sub in Directory.GetDirectories(dir)) {
            CollectDepthFirst(sub, into, cap);
            if (into.Count >= cap) return;
            into.Add(sub);
        }
        foreach (var file in Directory.GetFiles(dir)) {
            into.Add(file);
            if (into.Count >= cap) return;
        }
    }

    /// Schedules `path` — and, for a folder, everything inside it, deepest
    /// first — to be removed the moment Windows starts up next. A folder
    /// with more than a couple of thousand entries is skipped rather than
    /// scheduled partially: PendingFileRenameOperations is a single registry
    /// value shared with Windows Update and Office, and this app has no
    /// business growing it without bound.
    public static bool ScheduleForReboot(string path) {
        const int cap = 2000;
        if (Directory.Exists(path)) {
            var entries = new List<string>();
            try { CollectDepthFirst(path, entries, cap); } catch { return false; }
            if (entries.Count >= cap) return false;
            entries.Add(path);
            foreach (var p in entries) MoveFileEx(p, null, 0x4);
            return true;
        }
        if (File.Exists(path)) {
            return MoveFileEx(path, null, 0x4);
        }
        return false;
    }
}
"@
"#;

/// A character that LIKE treats specially (or the escape character itself).
pub open spec fn like_special(c: char) -> bool {
    c == '\\' || c == '%' || c == '_'
}

/// `s` with every `\`, `%` and `_` preceded by `\`.
pub open spec fn like_escape(s: Seq<char>) -> Seq<char>
    decreases s.len(),
{
    if s.len() == 0 {
        Seq::empty()
    } else {
        like_escape(s.drop_last()) + if like_special(s.last()) {
            seq!['\\', s.last()]
        } else {
            seq![s.last()]
        }
    }
}

/// The LIKE pattern (for `ESCAPE '\'`) matching everything strictly below
/// `path`: the escaped path, an escaped separator unless the path already
/// ends in one, and `%`.
pub open spec fn like_subtree_spec(path: Seq<char>) -> Seq<char> {
    like_escape(path) + (if path.len() > 0 && path.last() == '\\' {
        Seq::empty()
    } else {
        seq!['\\', '\\']
    }) + seq!['%']
}

/// LIKE pattern matching everything strictly below `path`. Escaped for
/// `ESCAPE '\'` because Windows paths are full of `_`, which LIKE would
/// otherwise treat as a single-character wildcard.
pub fn like_subtree(path: &str) -> (r: String)
    ensures
        r@ == like_subtree_spec(path@),
{
    let v = chars_of(path);
    let mut out: Vec<char> = Vec::new();
    let mut i: usize = 0;
    while i < v.len()
        invariant
            v@ == path@,
            i <= v@.len(),
            out@ == like_escape(v@.take(i as int)),
        decreases v@.len() - i,
    {
        proof {
            assert(v@.take(i + 1).drop_last() =~= v@.take(i as int));
        }
        let c = v[i];
        if c == '\\' || c == '%' || c == '_' {
            out.push('\\');
        }
        out.push(c);
        proof {
            assert(out@ =~= like_escape(v@.take(i + 1)));
        }
        i = i + 1;
    }
    proof {
        assert(v@.take(v@.len() as int) =~= v@);
    }
    if !(v.len() > 0 && v[v.len() - 1] == '\\') {
        out.push('\\');
        out.push('\\');
    }
    out.push('%');
    proof {
        assert(out@ =~= like_subtree_spec(path@));
    }
    string_of(&out)
}

/// Every parent directory of `path`, nearest first.
pub fn ancestors_of(path: &str) -> (r: Vec<String>)
    ensures
        r@.map_values(|s: String| s@) == ancestors(path@),
{
    let mut out: Vec<String> = Vec::new();
    let mut cur = chars_of(path);
    loop
        invariant
            out@.map_values(|s: String| s@) + ancestors(cur@) == ancestors(path@),
        decreases cur@.len(),
    {
        let ghost before = cur@;
        match parent_exec(&cur) {
            Some(p) => {
                if p.len() == 0 {
                    proof {
                        assert(ancestors(before) =~= Seq::<Seq<char>>::empty());
                        assert(out@.map_values(|s: String| s@) + Seq::<Seq<char>>::empty()
                            =~= out@.map_values(|s: String| s@));
                    }
                    return out;
                }
                proof {
                    lemma_parent_shorter(before);
                }
                let text = string_of(&p);
                let ghost prev = out@;
                out.push(text);
                proof {
                    assert(out@.map_values(|s: String| s@) =~= prev.map_values(|s: String| s@).push(
                        p@,
                    ));
                    assert(ancestors(before) == seq![p@] + ancestors(p@));
                    assert(out@.map_values(|s: String| s@) + ancestors(p@) =~= prev.map_values(
                        |s: String| s@,
                    ) + ancestors(before));
                }
                cur = p;
            },
            None => {
                proof {
                    assert(ancestors(before) =~= Seq::<Seq<char>>::empty());
                    assert(out@.map_values(|s: String| s@) + Seq::<Seq<char>>::empty()
                        =~= out@.map_values(|s: String| s@));
                }
                return out;
            },
        }
    }
}

/// `":\$recycle.bin"`, what follows the drive letter of a Recycle Bin.
pub open spec fn recycle_suffix() -> Seq<char> {
    seq![':', '\\', '$', 'r', 'e', 'c', 'y', 'c', 'l', 'e', '.', 'b', 'i', 'n']
}

/// The drive letter when `path` is a drive's Recycle Bin (or inside it): its
/// lowercased text continues after the first character with `:\$recycle.bin`.
pub open spec fn recycle_bin_drive_spec(path: Seq<char>) -> Option<Seq<char>> {
    let lower = lowercase(path);
    if lower.len() >= 1 && lower.skip(1).len() >= recycle_suffix().len() && lower.skip(1).take(
        recycle_suffix().len() as int,
    ) == recycle_suffix() && path.len() >= 1 {
        Some(seq![path[0]])
    } else {
        None
    }
}

/// If the path is a drive's Recycle Bin, returns its drive letter. Read by
/// characters, so a path that starts with a character outside ASCII is
/// handled like any other.
pub fn recycle_bin_drive(path: &str) -> (r: Option<String>)
    ensures
        r matches Some(d) ==> recycle_bin_drive_spec(path@) == Some(d@),
        r is None ==> recycle_bin_drive_spec(path@) is None,
{
    let lower_s = to_lowercase(path);
    let lower = chars_of(lower_s.as_str());
    let p = chars_of(path);
    let suffix = chars_of(":\\$recycle.bin");
    proof {
        reveal_strlit(":\\$recycle.bin");
        assert(suffix@ =~= recycle_suffix());
    }
    if lower.len() < 1 || p.len() < 1 {
        return None;
    }
    if lower.len() - 1 < suffix.len() {
        return None;
    }
    let mut k: usize = 0;
    while k < suffix.len()
        invariant
            k <= suffix@.len(),
            suffix@ == recycle_suffix(),
            lower@ == lowercase(path@),
            p@ == path@,
            p@.len() >= 1,
            1 + suffix@.len() <= lower@.len(),
            forall|j: int| 0 <= j < k ==> lower@[1 + j] == suffix@[j],
        decreases suffix@.len() - k,
    {
        if lower[1 + k] != suffix[k] {
            proof {
                assert(lower@.skip(1).take(recycle_suffix().len() as int)[k as int] != recycle_suffix()[k as int]);
                assert(lower@.skip(1).take(recycle_suffix().len() as int) != recycle_suffix());
            }
            return None;
        }
        k = k + 1;
    }
    proof {
        assert(lower@.skip(1).take(recycle_suffix().len() as int) =~= recycle_suffix());
    }
    let mut d: Vec<char> = Vec::new();
    d.push(p[0]);
    proof {
        assert(d@ =~= seq![path@[0]]);
    }
    Some(string_of(&d))
}

/// The PowerShell that sends one item (escaped for a single-quoted string)
/// to the Recycle Bin: a folder through `DeleteDirectory`, a file through
/// `DeleteFile`, errors swallowed.
pub open spec fn recycle_commands(esc: Seq<char>) -> Seq<char> {
    "try { if (Test-Path -LiteralPath '"@ + esc + "' -PathType Container) { [Microsoft.VisualBasic.FileIO.FileSystem]::DeleteDirectory('"@
        + esc + "','OnlyErrorDialogs','SendToRecycleBin') } elseif (Test-Path -LiteralPath '"@ + esc
        + "') { [Microsoft.VisualBasic.FileIO.FileSystem]::DeleteFile('"@ + esc
        + "','OnlyErrorDialogs','SendToRecycleBin') } } catch { }\n"@
}

/// The PowerShell that removes one item (escaped) outright, recursively.
pub open spec fn remove_commands(esc: Seq<char>) -> Seq<char> {
    "try { Remove-Item -LiteralPath '"@ + esc + "' -Recurse -Force -ErrorAction SilentlyContinue } catch { }\n"@
}

/// The PowerShell that empties one drive's Recycle Bin.
pub open spec fn clear_bin_commands(drive: Seq<char>) -> Seq<char> {
    "try { Clear-RecycleBin -DriveLetter "@ + drive + " -Force -ErrorAction SilentlyContinue } catch { }\n"@
}

/// Same shape as `build_delete_script`'s per-item recycle-bin snippet,
/// factored out because `build_force_delete_script` needs it between two
/// other steps rather than as the whole body of the loop.
pub fn recycle_item_script_commands(esc: &str) -> (r: String)
    ensures
        r@ == recycle_commands(esc@),
{
    let mut s = "try { if (Test-Path -LiteralPath '".to_owned();
    push_str(&mut s, esc);
    push_str(
        &mut s,
        "' -PathType Container) { [Microsoft.VisualBasic.FileIO.FileSystem]::DeleteDirectory('",
    );
    push_str(&mut s, esc);
    push_str(&mut s, "','OnlyErrorDialogs','SendToRecycleBin') } elseif (Test-Path -LiteralPath '");
    push_str(&mut s, esc);
    push_str(&mut s, "') { [Microsoft.VisualBasic.FileIO.FileSystem]::DeleteFile('");
    push_str(&mut s, esc);
    push_str(&mut s, "','OnlyErrorDialogs','SendToRecycleBin') } } catch { }\n");
    s
}

fn remove_item_commands(esc: &str) -> (r: String)
    ensures
        r@ == remove_commands(esc@),
{
    let mut s = "try { Remove-Item -LiteralPath '".to_owned();
    push_str(&mut s, esc);
    push_str(&mut s, "' -Recurse -Force -ErrorAction SilentlyContinue } catch { }\n");
    s
}

/// The lines `build_delete_script` writes for one path.
pub open spec fn delete_item_spec(path: Seq<char>, permanent: bool) -> Seq<char> {
    match recycle_bin_drive_spec(path) {
        Some(drive) => clear_bin_commands(drive),
        None => if permanent {
            remove_commands(escape_quotes(path))
        } else {
            recycle_commands(escape_quotes(path))
        },
    }
}

pub open spec fn delete_items_spec(paths: Seq<Seq<char>>, permanent: bool) -> Seq<char>
    decreases paths.len(),
{
    if paths.len() == 0 {
        Seq::empty()
    } else {
        delete_items_spec(paths.drop_last(), permanent) + delete_item_spec(paths.last(), permanent)
    }
}

pub open spec fn string_views(v: Seq<String>) -> Seq<Seq<char>> {
    v.map_values(|s: String| s@)
}

/// The elevated script behind "delete with administrator rights": each
/// Recycle Bin path empties that drive's bin, every other path is removed
/// outright (`permanent`) or sent to the Recycle Bin.
pub fn build_delete_script(paths: &Vec<String>, permanent: bool) -> (r: String)
    ensures
        r@ == SCRIPT_HEADER@ + delete_items_spec(string_views(paths@), permanent),
{
    let mut script = SCRIPT_HEADER.to_owned();
    let mut i: usize = 0;
    while i < paths.len()
        invariant
            i <= paths@.len(),
            script@ == SCRIPT_HEADER@ + delete_items_spec(string_views(paths@.take(i as int)), permanent),
        decreases paths@.len() - i,
    {
        let path = paths[i].as_str();
        match recycle_bin_drive(path) {
            Some(drive) => {
                push_str(&mut script, "try { Clear-RecycleBin -DriveLetter ");
                push_str(&mut script, drive.as_str());
                push_str(&mut script, " -Force -ErrorAction SilentlyContinue } catch { }\n");
            },
            None => {
                let esc = escape_single_quotes(path);
                let item = if permanent {
                    remove_item_commands(esc.as_str())
                } else {
                    recycle_item_script_commands(esc.as_str())
                };
                push_str(&mut script, item.as_str());
            },
        }
        proof {
            assert(string_views(paths@.take(i + 1)).drop_last() =~= string_views(paths@.take(i as int)));
            assert(string_views(paths@.take(i + 1)).last() == paths@[i as int]@);
        }
        i = i + 1;
    }
    proof {
        assert(paths@.take(paths@.len() as int) =~= paths@);
    }
    script
}

/// The lines `build_force_delete_script` writes for one (escaped) path: stop
/// whatever holds it open, wait, delete it (outright or to the Recycle
/// Bin), and schedule it for removal at the next restart if still there.
pub open spec fn force_item_spec(esc: Seq<char>, permanent: bool) -> Seq<char> {
    "try { foreach ($procId in [SDForceDelete]::FindLockerPids('"@ + esc
        + "')) { Stop-Process -Id $procId -Force -ErrorAction SilentlyContinue } } catch { }\n"@
        + "Start-Sleep -Milliseconds 400\n"@ + (if permanent {
        remove_commands(esc)
    } else {
        recycle_commands(esc)
    }) + "if (Test-Path -LiteralPath '"@ + esc + "') { [SDForceDelete]::ScheduleForReboot('"@ + esc
        + "') | Out-Null }\n"@
}

pub open spec fn force_items_spec(paths: Seq<Seq<char>>, permanent: bool) -> Seq<char>
    decreases paths.len(),
{
    if paths.len() == 0 {
        Seq::empty()
    } else {
        force_items_spec(paths.drop_last(), permanent) + force_item_spec(
            escape_quotes(paths.last()),
            permanent,
        )
    }
}

fn force_item_commands(esc: &str, permanent: bool) -> (r: String)
    ensures
        r@ == force_item_spec(esc@, permanent),
{
    let mut s = "try { foreach ($procId in [SDForceDelete]::FindLockerPids('".to_owned();
    push_str(&mut s, esc);
    push_str(&mut s, "')) { Stop-Process -Id $procId -Force -ErrorAction SilentlyContinue } } catch { }\n");
    push_str(&mut s, "Start-Sleep -Milliseconds 400\n");
    let step = if permanent {
        remove_item_commands(esc)
    } else {
        recycle_item_script_commands(esc)
    };
    push_str(&mut s, step.as_str());
    push_str(&mut s, "if (Test-Path -LiteralPath '");
    push_str(&mut s, esc);
    push_str(&mut s, "') { [SDForceDelete]::ScheduleForReboot('");
    push_str(&mut s, esc);
    push_str(&mut s, "') | Out-Null }\n");
    s
}

/// Builds the elevated script: for each path, find and stop whatever has it
/// open, retry the normal delete, and if it is still there afterward,
/// schedule it for removal on next boot.
pub fn build_force_delete_script(paths: &Vec<String>, permanent: bool) -> (r: String)
    ensures
        r@ == SCRIPT_HEADER@ + FORCE_DELETE_HELPER@ + force_items_spec(string_views(paths@), permanent),
{
    let mut script = SCRIPT_HEADER.to_owned();
    push_str(&mut script, FORCE_DELETE_HELPER);
    let mut i: usize = 0;
    while i < paths.len()
        invariant
            i <= paths@.len(),
            script@ == SCRIPT_HEADER@ + FORCE_DELETE_HELPER@ + force_items_spec(
                string_views(paths@.take(i as int)),
                permanent,
            ),
        decreases paths@.len() - i,
    {
        let esc = escape_single_quotes(paths[i].as_str());
        let item = force_item_commands(esc.as_str(), permanent);
        push_str(&mut script, item.as_str());
        proof {
            assert(string_views(paths@.take(i + 1)).drop_last() =~= string_views(paths@.take(i as int)));
            assert(string_views(paths@.take(i + 1)).last() == paths@[i as int]@);
        }
        i = i + 1;
    }
    proof {
        assert(paths@.take(paths@.len() as int) =~= paths@);
    }
    script
}

/// What is on disk at a path right now: its size, file count and clearable
/// bytes, or zeroes when nothing is there (`None`).
pub open spec fn path_tally(e: Option<Entry>) -> Tally {
    match e {
        Some(x) => entry_tally(x),
        None => Tally { size: 0, files: 0, recoverable: 0 },
    }
}

/// Measures what is at a path: a folder in full, a file on its own (its
/// bytes count as clearable under the cleanup rule for loose files), and
/// zeroes for anything that no longer exists.
pub fn measure_path(e: &Option<Entry>) -> (m: Measure)
    requires
        *e matches Some(x) ==> fits(x),
    ensures
        m@ == path_tally(*e),
{
    match e {
        Some(x) => measure_entry(x),
        None => Measure::zero(),
    }
}

/// `a - b`, or 0 when `b` is larger.
pub open spec fn sat_sub(a: u64, b: u64) -> u64 {
    if a >= b {
        (a - b) as u64
    } else {
        0
    }
}

/// What a single delete actually removed, measured rather than assumed:
/// the difference between the before and after measurements, so a folder
/// Windows immediately recreates (Temp, the Recycle Bin) is counted for its
/// contents only.
pub struct Removal {
    pub path: String,
    pub bytes: u64,
    pub files: u64,
    /// How much of `bytes` had been counted as clearable.
    pub recoverable: u64,
    /// The path is gone entirely.
    pub vanished: bool,
}

pub struct RemovalView {
    pub path: Seq<char>,
    pub bytes: u64,
    pub files: u64,
    pub recoverable: u64,
    pub vanished: bool,
}

impl View for Removal {
    type V = RemovalView;

    open spec fn view(&self) -> RemovalView {
        RemovalView {
            path: self.path@,
            bytes: self.bytes,
            files: self.files,
            recoverable: self.recoverable,
            vanished: self.vanished,
        }
    }
}

pub open spec fn removal_spec(path: Seq<char>, before: Tally, after: Tally, vanished: bool) -> RemovalView {
    RemovalView {
        path: path,
        bytes: sat_sub(before.size as u64, after.size as u64),
        files: sat_sub(before.files as u64, after.files as u64),
        recoverable: sat_sub(before.recoverable as u64, after.recoverable as u64),
        vanished: vanished,
    }
}

/// The removal a delete of `path` achieved, from its measurements before
/// and after.
pub fn removal_of(path: &String, before: Measure, after: Measure, vanished: bool) -> (r: Removal)
    ensures
        r@ == removal_spec(path@, before@, after@, vanished),
{
    Removal {
        path: path.clone(),
        bytes: before.size_bytes.saturating_sub(after.size_bytes),
        files: before.file_count.saturating_sub(after.file_count),
        recoverable: before.recoverable_bytes.saturating_sub(after.recoverable_bytes),
        vanished,
    }
}

/// What a delete does with one path.
pub enum DeleteAction {
    /// Empty this drive's Recycle Bin through the shell: the Recycle Bin is
    /// a protected system folder, not deleted as a directory.
    EmptyRecycleBin { drive: String },
    /// Nothing: the path does not exist.
    Skip,
    /// Remove the folder and everything in it, permanently.
    RemoveFolder,
    /// Remove the file, permanently.
    RemoveFile,
    /// Move it to the Recycle Bin.
    Recycle,
}

pub enum DeleteActionView {
    EmptyRecycleBin { drive: Seq<char> },
    Skip,
    RemoveFolder,
    RemoveFile,
    Recycle,
}

impl View for DeleteAction {
    type V = DeleteActionView;

    open spec fn view(&self) -> DeleteActionView {
        match self {
            DeleteAction::EmptyRecycleBin { drive } => DeleteActionView::EmptyRecycleBin { drive: drive@ },
            DeleteAction::Skip => DeleteActionView::Skip,
            DeleteAction::RemoveFolder => DeleteActionView::RemoveFolder,
            DeleteAction::RemoveFile => DeleteActionView::RemoveFile,
            DeleteAction::Recycle => DeleteActionView::Recycle,
        }
    }
}

/// The action for `path`, given whether it exists and is a folder, and
/// whether the delete is permanent: a Recycle Bin is emptied; a missing
/// path is skipped; otherwise it is removed for good or recycled.
pub open spec fn delete_action_spec(path: Seq<char>, exists: bool, is_dir: bool, permanent: bool) -> DeleteActionView {
    match recycle_bin_drive_spec(path) {
        Some(d) => DeleteActionView::EmptyRecycleBin { drive: d },
        None => if !exists {
            DeleteActionView::Skip
        } else if permanent {
            if is_dir {
                DeleteActionView::RemoveFolder
            } else {
                DeleteActionView::RemoveFile
            }
        } else {
            DeleteActionView::Recycle
        },
    }
}

/// What to do with one path of a delete (see `delete_action_spec`); the
/// disk's answers (does it exist, is it a folder) are the arguments.
pub fn delete_action(path: &str, exists: bool, is_dir: bool, permanent: bool) -> (r: DeleteAction)
    ensures
        r@ == delete_action_spec(path@, exists, is_dir, permanent),
{
    match recycle_bin_drive(path) {
        Some(drive) => DeleteAction::EmptyRecycleBin { drive },
        None => if !exists {
            DeleteAction::Skip
        } else if permanent {
            if is_dir {
                DeleteAction::RemoveFolder
            } else {
                DeleteAction::RemoveFile
            }
        } else {
            DeleteAction::Recycle
        },
    }
}

/// Records the attempt to delete `path` (measured `before`): `done` is the
/// measurement afterwards and whether the path vanished, or `None` when the
/// action failed. A success adds its removal; a failure adds the path to
/// the failed ones.
pub fn record_attempt(
    removals: &mut Vec<Removal>,
    failed: &mut Vec<String>,
    path: &String,
    before: Measure,
    done: Option<(Measure, bool)>,
)
    ensures
        match done {
            Some((after, vanished)) => {
                &&& removal_views(final(removals)@) == removal_views(old(removals)@).push(
                    removal_spec(path@, before@, after@, vanished),
                )
                &&& final(failed)@ == old(failed)@
            },
            None => {
                &&& final(removals)@ == old(removals)@
                &&& string_views(final(failed)@) == string_views(old(failed)@).push(path@)
            },
        },
{
    match done {
        Some((after, vanished)) => {
            let r = removal_of(path, before, after, vanished);
            removals.push(r);
            proof {
                assert(removal_views(removals@) =~= removal_views(old(removals)@).push(
                    removal_spec(path@, before@, after@, vanished),
                ));
            }
        },
        None => {
            failed.push(path.clone());
            proof {
                assert(string_views(failed@) =~= string_views(old(failed)@).push(path@));
            }
        },
    }
}

pub open spec fn removal_views(s: Seq<Removal>) -> Seq<RemovalView> {
    s.map_values(|r: Removal| r@)
}

pub open spec fn freed_spec(s: Seq<RemovalView>) -> int
    decreases s.len(),
{
    if s.len() == 0 {
        0
    } else {
        freed_spec(s.drop_last()) + s.last().bytes
    }
}

proof fn lemma_freed_prefix(s: Seq<RemovalView>, k: int)
    requires
        0 <= k <= s.len(),
    ensures
        0 <= freed_spec(s.take(k)) <= freed_spec(s),
        k < s.len() ==> freed_spec(s.take(k)) + s[k].bytes <= freed_spec(s),
    decreases s.len() - k,
{
    if k < s.len() {
        lemma_freed_prefix(s, k + 1);
        assert(s.take(k + 1).drop_last() =~= s.take(k));
    } else {
        assert(s.take(k) =~= s);
    }
    lemma_freed_nonneg(s.take(k));
}

proof fn lemma_freed_nonneg(s: Seq<RemovalView>)
    ensures
        freed_spec(s) >= 0,
    decreases s.len(),
{
    if s.len() > 0 {
        lemma_freed_nonneg(s.drop_last());
    }
}

/// How many bytes a set of removals freed in all.
pub fn freed_bytes(removals: &Vec<Removal>) -> (r: u64)
    requires
        freed_spec(removal_views(removals@)) <= u64::MAX,
    ensures
        r == freed_spec(removal_views(removals@)),
{
    let ghost v = removal_views(removals@);
    let mut total: u64 = 0;
    let mut i: usize = 0;
    while i < removals.len()
        invariant
            i <= removals@.len(),
            v == removal_views(removals@),
            freed_spec(v) <= u64::MAX,
            total == freed_spec(v.take(i as int)),
        decreases removals@.len() - i,
    {
        proof {
            lemma_freed_prefix(v, i as int);
            assert(v.take(i + 1).drop_last() =~= v.take(i as int));
            assert(v[i as int] == removals@[i as int]@);
        }
        total = total + removals[i].bytes;
        i = i + 1;
    }
    proof {
        assert(v.take(removals@.len() as int) =~= v);
    }
    total
}

/// What is known about one path after an elevated or forced delete: its
/// measurements before and after, whether it still exists and whether it is
/// registered for removal at the next restart.
pub struct DeleteCheck {
    pub path: String,
    pub before: Measure,
    pub after: Measure,
    pub exists: bool,
    pub pending_reboot: bool,
}

/// After an elevated delete a path counts as removed when it is gone or
/// holds less than before; folders like Temp and the Recycle Bin are
/// recreated at once, so "still exists" is not the same as "not deleted".
pub open spec fn elevated_removed(c: DeleteCheck) -> bool {
    !c.exists || sat_sub(c.before.size_bytes, c.after.size_bytes) > 0 || sat_sub(
        c.before.file_count,
        c.after.file_count,
    ) > 0
}

pub open spec fn elevated_removals(s: Seq<DeleteCheck>) -> Seq<RemovalView>
    decreases s.len(),
{
    if s.len() == 0 {
        Seq::empty()
    } else {
        let c = s.last();
        elevated_removals(s.drop_last()) + if elevated_removed(c) {
            seq![removal_spec(c.path@, c.before@, c.after@, !c.exists)]
        } else {
            Seq::empty()
        }
    }
}

pub open spec fn elevated_failures(s: Seq<DeleteCheck>) -> Seq<Seq<char>>
    decreases s.len(),
{
    if s.len() == 0 {
        Seq::empty()
    } else {
        elevated_failures(s.drop_last()) + if elevated_removed(s.last()) {
            Seq::empty()
        } else {
            seq![s.last().path@]
        }
    }
}

/// Sorts the paths of an elevated delete into what was removed and what
/// failed, in the order given.
pub fn elevated_outcome(checks: &Vec<DeleteCheck>) -> (r: (Vec<Removal>, Vec<String>))
    ensures
        removal_views(r.0@) == elevated_removals(checks@),
        string_views(r.1@) == elevated_failures(checks@),
{
    let mut removals: Vec<Removal> = Vec::new();
    let mut failed: Vec<String> = Vec::new();
    let mut i: usize = 0;
    while i < checks.len()
        invariant
            i <= checks@.len(),
            removal_views(removals@) == elevated_removals(checks@.take(i as int)),
            string_views(failed@) == elevated_failures(checks@.take(i as int)),
        decreases checks@.len() - i,
    {
        let c = &checks[i];
        proof {
            assert(checks@.take(i + 1).drop_last() =~= checks@.take(i as int));
            assert(checks@.take(i + 1).last() == checks@[i as int]);
        }
        let bytes = c.before.size_bytes.saturating_sub(c.after.size_bytes);
        let files = c.before.file_count.saturating_sub(c.after.file_count);
        if !c.exists || bytes > 0 || files > 0 {
            let r = removal_of(&c.path, c.before, c.after, !c.exists);
            let ghost prev = removals@;
            removals.push(r);
            proof {
                assert(removal_views(removals@) =~= removal_views(prev).push(r@));
                assert(string_views(failed@) =~= elevated_failures(checks@.take(i + 1)));
            }
        } else {
            let ghost prev = failed@;
            failed.push(c.path.clone());
            proof {
                assert(string_views(failed@) =~= string_views(prev).push(c.path@));
                assert(removal_views(removals@) =~= elevated_removals(checks@.take(i + 1)));
            }
        }
        i = i + 1;
    }
    proof {
        assert(checks@.take(checks@.len() as int) =~= checks@);
    }
    (removals, failed)
}

pub open spec fn forced_removals(s: Seq<DeleteCheck>) -> Seq<RemovalView>
    decreases s.len(),
{
    if s.len() == 0 {
        Seq::empty()
    } else {
        let c = s.last();
        forced_removals(s.drop_last()) + if !c.exists {
            seq![removal_spec(c.path@, c.before@, c.after@, true)]
        } else {
            Seq::empty()
        }
    }
}

pub open spec fn forced_scheduled(s: Seq<DeleteCheck>) -> Seq<Seq<char>>
    decreases s.len(),
{
    if s.len() == 0 {
        Seq::empty()
    } else {
        let c = s.last();
        forced_scheduled(s.drop_last()) + if c.exists && c.pending_reboot {
            seq![c.path@]
        } else {
            Seq::empty()
        }
    }
}

pub open spec fn forced_failures(s: Seq<DeleteCheck>) -> Seq<Seq<char>>
    decreases s.len(),
{
    if s.len() == 0 {
        Seq::empty()
    } else {
        let c = s.last();
        forced_failures(s.drop_last()) + if c.exists && !c.pending_reboot {
            seq![c.path@]
        } else {
            Seq::empty()
        }
    }
}

/// Sorts the paths of a forced delete: gone (removed, measured against what
/// it held before), still there but scheduled for removal at the next
/// restart, or stuck.
pub fn forced_outcome(checks: &Vec<DeleteCheck>) -> (r: (Vec<Removal>, Vec<String>, Vec<String>))
    ensures
        removal_views(r.0@) == forced_removals(checks@),
        string_views(r.1@) == forced_scheduled(checks@),
        string_views(r.2@) == forced_failures(checks@),
{
    let mut removals: Vec<Removal> = Vec::new();
    let mut scheduled: Vec<String> = Vec::new();
    let mut failed: Vec<String> = Vec::new();
    let mut i: usize = 0;
    while i < checks.len()
        invariant
            i <= checks@.len(),
            removal_views(removals@) == forced_removals(checks@.take(i as int)),
            string_views(scheduled@) == forced_scheduled(checks@.take(i as int)),
            string_views(failed@) == forced_failures(checks@.take(i as int)),
        decreases checks@.len() - i,
    {
        let c = &checks[i];
        proof {
            assert(checks@.take(i + 1).drop_last() =~= checks@.take(i as int));
            assert(checks@.take(i + 1).last() == checks@[i as int]);
        }
        let ghost (r0, s0, f0) = (removals@, scheduled@, failed@);
        if !c.exists {
            let r = removal_of(&c.path, c.before, c.after, true);
            removals.push(r);
            proof {
                assert(removal_views(removals@) =~= removal_views(r0).push(r@));
            }
        } else if c.pending_reboot {
            scheduled.push(c.path.clone());
            proof {
                assert(string_views(scheduled@) =~= string_views(s0).push(c.path@));
            }
        } else {
            failed.push(c.path.clone());
            proof {
                assert(string_views(failed@) =~= string_views(f0).push(c.path@));
            }
        }
        proof {
            assert(removal_views(removals@) =~= forced_removals(checks@.take(i + 1)));
            assert(string_views(scheduled@) =~= forced_scheduled(checks@.take(i + 1)));
            assert(string_views(failed@) =~= forced_failures(checks@.take(i + 1)));
        }
        i = i + 1;
    }
    proof {
        assert(checks@.take(checks@.len() as int) =~= checks@);
    }
    (removals, scheduled, failed)
}

/// One change to the stored scan (one SQL statement).
pub enum ScanEdit {
    /// Remove the folder rows for `path` and for everything below it
    /// (`below` is the LIKE pattern for the latter).
    DropFolders { path: String, below: String },
    /// Set the figures of the folder row for `path` and mark them measured.
    SetFolder { path: String, size_bytes: u64, file_count: u64, recoverable_bytes: u64 },
    /// Remove the folder rows below a path, matched by the LIKE pattern `below`.
    DropFoldersBelow { below: String },
    /// Remove the large-file rows for `path` and for everything below it.
    DropLargeFiles { path: String, below: String },
    /// Shift the figures of the folder row for `path`, never below zero.
    ShiftFolder { path: String, delta_bytes: i64, delta_files: i64, delta_recoverable: i64 },
}

pub enum ScanEditView {
    DropFolders { path: Seq<char>, below: Seq<char> },
    SetFolder { path: Seq<char>, size: u64, files: u64, recoverable: u64 },
    DropFoldersBelow { below: Seq<char> },
    DropLargeFiles { path: Seq<char>, below: Seq<char> },
    ShiftFolder { path: Seq<char>, delta_bytes: i64, delta_files: i64, delta_recoverable: i64 },
}

impl View for ScanEdit {
    type V = ScanEditView;

    open spec fn view(&self) -> ScanEditView {
        match self {
            ScanEdit::DropFolders { path, below } => ScanEditView::DropFolders { path: path@, below: below@ },
            ScanEdit::SetFolder { path, size_bytes, file_count, recoverable_bytes } => ScanEditView::SetFolder {
                path: path@,
                size: *size_bytes,
                files: *file_count,
                recoverable: *recoverable_bytes,
            },
            ScanEdit::DropFoldersBelow { below } => ScanEditView::DropFoldersBelow { below: below@ },
            ScanEdit::DropLargeFiles { path, below } => ScanEditView::DropLargeFiles { path: path@, below: below@ },
            ScanEdit::ShiftFolder { path, delta_bytes, delta_files, delta_recoverable } => ScanEditView::ShiftFolder {
                path: path@,
                delta_bytes: *delta_bytes,
                delta_files: *delta_files,
                delta_recoverable: *delta_recoverable,
            },
        }
    }
}

pub open spec fn edit_views(s: Seq<ScanEdit>) -> Seq<ScanEditView> {
    s.map_values(|e: ScanEdit| e@)
}

/// The same shift applied to each folder of `paths`.
pub open spec fn shift_all(paths: Seq<Seq<char>>, bytes: i64, files: i64, recoverable: i64) -> Seq<ScanEditView> {
    paths.map_values(
        |p: Seq<char>| ScanEditView::ShiftFolder { path: p, delta_bytes: bytes, delta_files: files, delta_recoverable: recoverable },
    )
}

/// The stored-size shrink for `x` removed bytes (or files).
pub open spec fn shrink(x: u64) -> i64 {
    (0 - (x as i64)) as i64
}

/// A shrink is representable when the count, read as a signed number, is
/// not the most negative one.
pub open spec fn shrinkable(x: u64) -> bool {
    (x as i64) != i64::MIN
}

/// The edits for one removal: a vanished path loses its rows and every row
/// below it; a path Windows recreated keeps its row, resized to what it
/// holds now (`now`), and loses the rows below it. Either way its large-file
/// rows go, and every ancestor folder shrinks by what was removed.
pub open spec fn removal_edits(r: RemovalView, now: Tally) -> Seq<ScanEditView> {
    let below = like_subtree_spec(r.path);
    (if r.vanished {
        seq![ScanEditView::DropFolders { path: r.path, below }]
    } else {
        seq![
            ScanEditView::SetFolder {
                path: r.path,
                size: now.size as u64,
                files: now.files as u64,
                recoverable: now.recoverable as u64,
            },
            ScanEditView::DropFoldersBelow { below },
        ]
    }) + seq![ScanEditView::DropLargeFiles { path: r.path, below }] + shift_all(
        ancestors(r.path),
        shrink(r.bytes),
        shrink(r.files),
        shrink(r.recoverable),
    )
}

pub open spec fn measure_views(s: Seq<Measure>) -> Seq<Tally> {
    s.map_values(|m: Measure| m@)
}

pub open spec fn sync_edits_spec(rs: Seq<RemovalView>, now: Seq<Tally>) -> Seq<ScanEditView>
    decreases rs.len(),
{
    if rs.len() == 0 || now.len() == 0 {
        Seq::empty()
    } else {
        sync_edits_spec(rs.drop_last(), now.drop_last()) + removal_edits(rs.last(), now.last())
    }
}

/// Appends the same shift for each of `paths`.
fn push_shifts(out: &mut Vec<ScanEdit>, paths: &Vec<String>, bytes: i64, files: i64, recoverable: i64)
    ensures
        edit_views(final(out)@) == edit_views(old(out)@) + shift_all(string_views(paths@), bytes, files, recoverable),
{
    let ghost start = edit_views(out@);
    let mut i: usize = 0;
    while i < paths.len()
        invariant
            i <= paths@.len(),
            edit_views(out@) == start + shift_all(string_views(paths@.take(i as int)), bytes, files, recoverable),
        decreases paths@.len() - i,
    {
        let ghost prev = out@;
        let e = ScanEdit::ShiftFolder {
            path: paths[i].clone(),
            delta_bytes: bytes,
            delta_files: files,
            delta_recoverable: recoverable,
        };
        out.push(e);
        proof {
            assert(edit_views(out@) =~= edit_views(prev).push(e@));
            assert(string_views(paths@.take(i + 1)) =~= string_views(paths@.take(i as int)).push(paths@[i as int]@));
            assert(shift_all(string_views(paths@.take(i + 1)), bytes, files, recoverable) =~= shift_all(
                string_views(paths@.take(i as int)),
                bytes,
                files,
                recoverable,
            ).push(e@));
        }
        i = i + 1;
    }
    proof {
        assert(paths@.take(paths@.len() as int) =~= paths@);
    }
}

fn negate(x: u64) -> (r: i64)
    requires
        shrinkable(x),
    ensures
        r == shrink(x),
{
    let v: i64 = x as i64;
    0 - v
}

/// Rewrites the stored scan after deletions so it matches the disk: for
/// each removal (with `now`, the measurement of its path after the delete),
/// the edits of `removal_edits`, in order.
pub fn sync_edits(removals: &Vec<Removal>, now: &Vec<Measure>) -> (r: Vec<ScanEdit>)
    requires
        now@.len() == removals@.len(),
        forall|i: int|
            0 <= i < removals@.len() ==> shrinkable(#[trigger] removals@[i].bytes) && shrinkable(
                removals@[i].files,
            ) && shrinkable(removals@[i].recoverable),
    ensures
        edit_views(r@) == sync_edits_spec(removal_views(removals@), measure_views(now@)),
{
    let mut out: Vec<ScanEdit> = Vec::new();
    let mut i: usize = 0;
    proof {
        assert(edit_views(out@) =~= Seq::<ScanEditView>::empty());
    }
    while i < removals.len()
        invariant
            i <= removals@.len(),
            now@.len() == removals@.len(),
            forall|i: int|
                0 <= i < removals@.len() ==> shrinkable(#[trigger] removals@[i].bytes) && shrinkable(
                    removals@[i].files,
                ) && shrinkable(removals@[i].recoverable),
            edit_views(out@) == sync_edits_spec(
                removal_views(removals@.take(i as int)),
                measure_views(now@.take(i as int)),
            ),
        decreases removals@.len() - i,
    {
        let r = &removals[i];
        let ghost start = edit_views(out@);
        let below = like_subtree(r.path.as_str());
        if r.vanished {
            out.push(ScanEdit::DropFolders { path: r.path.clone(), below: below.clone() });
        } else {
            let m = now[i];
            out.push(
                ScanEdit::SetFolder {
                    path: r.path.clone(),
                    size_bytes: m.size_bytes,
                    file_count: m.file_count,
                    recoverable_bytes: m.recoverable_bytes,
                },
            );
            out.push(ScanEdit::DropFoldersBelow { below: below.clone() });
        }
        out.push(ScanEdit::DropLargeFiles { path: r.path.clone(), below });
        let ghost mid = edit_views(out@);
        let ancs = ancestors_of(r.path.as_str());
        let db = negate(r.bytes);
        let df = negate(r.files);
        let dr = negate(r.recoverable);
        push_shifts(&mut out, &ancs, db, df, dr);
        proof {
            let rv = removals@[i as int]@;
            let nv = now@[i as int]@;
            let pre = if rv.vanished {
                seq![ScanEditView::DropFolders { path: rv.path, below: like_subtree_spec(rv.path) }]
            } else {
                seq![
                    ScanEditView::SetFolder {
                        path: rv.path,
                        size: nv.size as u64,
                        files: nv.files as u64,
                        recoverable: nv.recoverable as u64,
                    },
                    ScanEditView::DropFoldersBelow { below: like_subtree_spec(rv.path) },
                ]
            };
            assert(mid =~= start + pre + seq![ScanEditView::DropLargeFiles { path: rv.path, below: like_subtree_spec(rv.path) }]);
            assert(string_views(ancs@) == ancestors(rv.path));
            assert(edit_views(out@) =~= start + removal_edits(rv, nv));
            assert(removal_views(removals@.take(i + 1)).drop_last() =~= removal_views(removals@.take(i as int)));
            assert(measure_views(now@.take(i + 1)).drop_last() =~= measure_views(now@.take(i as int)));
            assert(removal_views(removals@.take(i + 1)).last() == rv);
            assert(measure_views(now@.take(i + 1)).last() == nv);
        }
        i = i + 1;
    }
    proof {
        assert(removals@.take(removals@.len() as int) =~= removals@);
        assert(now@.take(now@.len() as int) =~= now@);
    }
    out
}

/// Ignore ordinary churn: a measured folder row is only rewritten when its
/// size or recoverable bytes moved by at least this much.
pub const MIN_CORRECTION: u64 = 4 * 1024 * 1024;

/// A folder row as the last scan stored it.
pub struct StoredFolder {
    pub size_bytes: u64,
    pub file_count: u64,
    pub recoverable_bytes: u64,
    /// Whether `recoverable_bytes` was ever measured.
    pub measured: bool,
}

pub open spec fn abs_diff(a: u64, b: u64) -> int {
    if a >= b {
        a - b
    } else {
        b - a
    }
}

/// The signed change from `old` to `new`.
pub open spec fn change(new: u64, old: u64) -> i64 {
    ((new as i64) - (old as i64)) as i64
}

pub open spec fn change_fits(new: u64, old: u64) -> bool {
    i64::MIN <= (new as i64) - (old as i64) <= i64::MAX
}

/// What an unmeasured row last contributed to its parents' recoverable
/// bytes: nothing.
pub open spec fn contributed(old: StoredFolder) -> u64 {
    if old.measured {
        old.recoverable_bytes
    } else {
        0
    }
}

/// The changes in a live measurement of a stored folder fit signed 64-bit
/// deltas.
pub open spec fn reconcile_fits(old: StoredFolder, bytes: u64, files: u64, recoverable: u64) -> bool {
    change_fits(bytes, old.size_bytes) && change_fits(files, old.file_count) && change_fits(
        recoverable,
        contributed(old),
    )
}

/// The edits that fold a live measurement of `path` (`bytes`, `files`,
/// `recoverable`) back into the stored scan, where `stored` is its row (if
/// the scan recorded it): nothing when there is no row, or when a measured
/// row is within `MIN_CORRECTION` on both size and recoverable bytes;
/// otherwise the row is set to the new figures and every ancestor shifts
/// by the difference.
pub open spec fn reconcile_spec(
    path: Seq<char>,
    stored: Option<StoredFolder>,
    bytes: u64,
    files: u64,
    recoverable: u64,
) -> Seq<ScanEditView> {
    match stored {
        None => Seq::empty(),
        Some(old) => if old.measured && abs_diff(old.size_bytes, bytes) < MIN_CORRECTION && abs_diff(
            old.recoverable_bytes,
            recoverable,
        ) < MIN_CORRECTION {
            Seq::empty()
        } else {
            seq![ScanEditView::SetFolder { path, size: bytes, files, recoverable }] + shift_all(
                ancestors(path),
                change(bytes, old.size_bytes),
                change(files, old.file_count),
                change(recoverable, contributed(old)),
            )
        },
    }
}

fn signed_change(new: u64, old: u64) -> (r: i64)
    requires
        change_fits(new, old),
    ensures
        r == change(new, old),
{
    let a: i64 = new as i64;
    let b: i64 = old as i64;
    a - b
}

fn diff(a: u64, b: u64) -> (r: u64)
    ensures
        r == abs_diff(a, b),
{
    if a >= b {
        a - b
    } else {
        b - a
    }
}

/// Folds a live folder measurement back into the stored scan: the edits of
/// `reconcile_spec`.
pub fn reconcile_edits(
    path: &str,
    stored: Option<StoredFolder>,
    bytes: u64,
    files: u64,
    recoverable: u64,
) -> (r: Vec<ScanEdit>)
    requires
        stored matches Some(old) ==> reconcile_fits(old, bytes, files, recoverable),
    ensures
        edit_views(r@) == reconcile_spec(path@, stored, bytes, files, recoverable),
{
    let mut out: Vec<ScanEdit> = Vec::new();
    match stored {
        None => {
            proof {
                assert(edit_views(out@) =~= Seq::<ScanEditView>::empty());
            }
            out
        },
        Some(old) => {
            if old.measured && diff(old.size_bytes, bytes) < MIN_CORRECTION && diff(
                old.recoverable_bytes,
                recoverable,
            ) < MIN_CORRECTION {
                proof {
                    assert(edit_views(out@) =~= Seq::<ScanEditView>::empty());
                }
                return out;
            }
            let p = path.to_owned();
            out.push(
                ScanEdit::SetFolder {
                    path: p,
                    size_bytes: bytes,
                    file_count: files,
                    recoverable_bytes: recoverable,
                },
            );
            let ghost first = edit_views(out@);
            let prior = if old.measured {
                old.recoverable_bytes
            } else {
                0
            };
            let db = signed_change(bytes, old.size_bytes);
            let df = signed_change(files, old.file_count);
            let dr = signed_change(recoverable, prior);
            let ancs = ancestors_of(path);
            push_shifts(&mut out, &ancs, db, df, dr);
            proof {
                assert(first =~= seq![ScanEditView::SetFolder { path: path@, size: bytes, files, recoverable }]);
            }
            out
        },
    }
}

/// At most this many children of a folder are listed when browsing it.
pub const BROWSE_LIMIT: usize = 300;

/// One child of a folder being browsed, measured live.
pub struct BrowseEntry {
    pub path: String,
    pub name: String,
    pub is_dir: bool,
    pub size_bytes: u64,
    pub file_count: u64,
    pub recoverable_bytes: u64,
    pub classification: Option<Classification>,
}

pub struct BrowseEntryView {
    pub path: Seq<char>,
    pub name: Seq<char>,
    pub is_dir: bool,
    pub size: u64,
    pub files: u64,
    pub recoverable: u64,
    pub classification: Option<ClassificationView>,
}

impl View for BrowseEntry {
    type V = BrowseEntryView;

    open spec fn view(&self) -> BrowseEntryView {
        BrowseEntryView {
            path: self.path@,
            name: self.name@,
            is_dir: self.is_dir,
            size: self.size_bytes,
            files: self.file_count,
            recoverable: self.recoverable_bytes,
            classification: opt_view(self.classification),
        }
    }
}

fn copy_classification(c: &Option<Classification>) -> (r: Option<Classification>)
    ensures
        opt_view(r) == opt_view(*c),
{
    match c {
        Some(x) => Some(
            Classification {
                category: x.category.clone(),
                safety: x.safety.clone(),
                explanation: x.explanation.clone(),
            },
        ),
        None => None,
    }
}

impl BrowseEntry {
    pub fn duplicate(&self) -> (r: BrowseEntry)
        ensures
            r@ == self@,
    {
        BrowseEntry {
            path: self.path.clone(),
            name: self.name.clone(),
            is_dir: self.is_dir,
            size_bytes: self.size_bytes,
            file_count: self.file_count,
            recoverable_bytes: self.recoverable_bytes,
            classification: copy_classification(&self.classification),
        }
    }
}

/// A live listing of a folder's children.
pub struct BrowseListing {
    /// The largest children, largest first, at most `BROWSE_LIMIT`.
    pub entries: Vec<BrowseEntry>,
    /// Totals over every child, counted before the list is cut.
    pub total_bytes: u64,
    pub total_files: u64,
    pub total_recoverable: u64,
    /// Whether every child made it into `entries`; only then may the
    /// totals be folded back into the stored scan.
    pub complete: bool,
}

/// The row a child gets: files and folders are listed, links and entries
/// whose type could not be read are not.
pub open spec fn browse_view(e: Entry) -> BrowseEntryView {
    let t = entry_tally(e);
    let (path, is_dir) = match e {
        Entry::Dir { path, .. } => (path@, true),
        Entry::File { path, .. } => (path@, false),
        _ => (Seq::empty(), false),
    };
    BrowseEntryView {
        path,
        name: match file_name(path) {
            Some(n) => n,
            None => Seq::empty(),
        },
        is_dir,
        size: t.size as u64,
        files: t.files as u64,
        recoverable: t.recoverable as u64,
        classification: verdict(path, is_dir),
    }
}

pub open spec fn listed(e: Entry) -> bool {
    e is Dir || e is File
}

pub open spec fn browse_list(s: Seq<Entry>) -> Seq<BrowseEntryView>
    decreases s.len(),
{
    if s.len() == 0 {
        Seq::empty()
    } else {
        browse_list(s.drop_last()) + if listed(s.last()) {
            seq![browse_view(s.last())]
        } else {
            Seq::empty()
        }
    }
}

pub open spec fn browse_views(s: Seq<BrowseEntry>) -> Seq<BrowseEntryView> {
    s.map_values(|b: BrowseEntry| b@)
}

pub open spec fn browse_size(b: BrowseEntryView) -> int {
    b.size as int
}

/// Whether `path`, judged as a folder, is safe to clear as a whole.
pub open spec fn safe_folder(path: Seq<char>) -> bool {
    verdict(path, true) matches Some(c) && c.safety == SAFE@
}

fn browse_row(e: &Entry, m: Measure) -> (r: BrowseEntry)
    requires
        listed(*e),
        m@ == entry_tally(*e),
    ensures
        r@ == browse_view(*e),
{
    let (path, is_dir) = match e {
        Entry::Dir { path, .. } => (path, true),
        Entry::File { path, .. } => (path, false),
        _ => {
            proof {
                assert(false);
            }
            return BrowseEntry {
                path: String::new(),
                name: String::new(),
                is_dir: false,
                size_bytes: 0,
                file_count: 0,
                recoverable_bytes: 0,
                classification: None,
            };
        },
    };
    let chars = chars_of(path.as_str());
    let name = match file_name_exec(&chars) {
        Some(n) => string_of(&n),
        None => String::new(),
    };
    BrowseEntry {
        path: path.clone(),
        name,
        is_dir,
        size_bytes: m.size_bytes,
        file_count: m.file_count,
        recoverable_bytes: m.recoverable_bytes,
        classification: classify(path.as_str(), is_dir),
    }
}

/// Live listing of a folder's direct children with recursively computed
/// sizes: every file and folder child measured (size, file count and
/// clearable bytes in one walk), totals over all of them, and the largest
/// `BROWSE_LIMIT` children, largest first. A folder that is itself safe to
/// clear counts in full.
pub fn browse_listing(path: &str, children: &Vec<Entry>) -> (r: BrowseListing)
    requires
        forall|i: int| 0 <= i < children@.len() ==> fits(#[trigger] children@[i]),
        seq_tally(children@).size <= u64::MAX,
        seq_tally(children@).files <= u64::MAX,
    ensures
        largest_first(
            browse_list(children@),
            |b: BrowseEntryView| browse_size(b),
            BROWSE_LIMIT as nat,
            browse_views(r.entries@),
        ),
        r.total_bytes == seq_tally(children@).size,
        r.total_files == seq_tally(children@).files,
        r.total_recoverable == if safe_folder(path@) {
            seq_tally(children@).size
        } else {
            seq_tally(children@).recoverable
        },
        r.complete == (browse_list(children@).len() <= BROWSE_LIMIT),
{
    let mut rows: Vec<BrowseEntry> = Vec::new();
    let mut total = Measure::zero();
    let mut i: usize = 0;
    proof {
        lemma_seq_tally_ok(children@);
        assert(children@.take(0) =~= Seq::<Entry>::empty());
        assert(browse_views(rows@) =~= Seq::<BrowseEntryView>::empty());
    }
    while i < children.len()
        invariant
            i <= children@.len(),
            forall|i: int| 0 <= i < children@.len() ==> fits(#[trigger] children@[i]),
            seq_tally(children@).size <= u64::MAX,
            seq_tally(children@).files <= u64::MAX,
            tally_ok(seq_tally(children@)),
            total@ == seq_tally(children@.take(i as int)),
            tally_ok(total@),
            browse_views(rows@) == browse_list(children@.take(i as int)),
        decreases children@.len() - i,
    {
        let c = &children[i];
        proof {
            lemma_seq_tally_prefix(children@, i as int);
            lemma_tally_ok(children@[i as int]);
            assert(fits(children@[i as int]));
        }
        let m = measure_entry(c);
        total = total.plus(m);
        let ghost prev = rows@;
        let shown = match c {
            Entry::Dir { .. } => true,
            Entry::File { .. } => true,
            _ => false,
        };
        if shown {
            let row = browse_row(c, m);
            rows.push(row);
            proof {
                assert(browse_views(rows@) =~= browse_views(prev).push(row@));
            }
        }
        proof {
            let t = children@.take(i + 1);
            assert(t.drop_last() =~= children@.take(i as int));
            assert(t.last() == children@[i as int]);
            lemma_seq_tally_ok(t);
            assert(browse_views(rows@) =~= browse_list(t));
        }
        i = i + 1;
    }
    proof {
        assert(children@.take(children@.len() as int) =~= children@);
    }
    let recoverable = match crate::classify::safety(path, true) {
        Some(s) => {
            let v = chars_of(s.as_str());
            let w = chars_of(SAFE);
            if crate::text::eq_chars(&v, &w) {
                total.size_bytes
            } else {
                total.recoverable_bytes
            }
        },
        None => total.recoverable_bytes,
    };
    let complete = rows.len() <= BROWSE_LIMIT;
    let entries = largest_rows(&rows);
    BrowseListing {
        entries,
        total_bytes: total.size_bytes,
        total_files: total.file_count,
        total_recoverable: recoverable,
        complete,
    }
}

fn largest_rows(found: &Vec<BrowseEntry>) -> (out: Vec<BrowseEntry>)
    ensures
        largest_first(
            browse_views(found@),
            |b: BrowseEntryView| browse_size(b),
            BROWSE_LIMIT as nat,
            browse_views(out@),
        ),
{
    let mut sizes: Vec<u64> = Vec::new();
    let mut i: usize = 0;
    while i < found.len()
        invariant
            i <= found@.len(),
            sizes@.len() == i,
            forall|j: int| 0 <= j < i ==> sizes@[j] == found@[j].size_bytes,
        decreases found@.len() - i,
    {
        sizes.push(found[i].size_bytes);
        i = i + 1;
    }
    let chosen = largest_positions(&sizes, BROWSE_LIMIT);
    let ghost order = choose|order: Seq<usize>|
        stable_desc_order(sizes@, order) && order.len() == sizes@.len() && chosen@ == order.take(
            capped(sizes@.len(), BROWSE_LIMIT as nat) as int,
        );
    let mut out: Vec<BrowseEntry> = Vec::new();
    let mut k: usize = 0;
    while k < chosen.len()
        invariant
            k <= chosen@.len(),
            chosen@ == order.take(capped(sizes@.len(), BROWSE_LIMIT as nat) as int),
            stable_desc_order(sizes@, order),
            order.len() == sizes@.len(),
            sizes@.len() == found@.len(),
            browse_views(out@) == pick(browse_views(found@), order).take(k as int),
        decreases chosen@.len() - k,
    {
        let item = found[chosen[k]].duplicate();
        let ghost prev = out@;
        out.push(item);
        proof {
            assert(browse_views(out@) =~= browse_views(prev).push(item@));
            assert(pick(browse_views(found@), order)[k as int] == browse_views(found@)[order[k as int] as int]);
            assert(browse_views(out@) =~= pick(browse_views(found@), order).take(k + 1));
        }
        k = k + 1;
    }
    proof {
        lemma_pick_largest(
            browse_views(found@),
            |b: BrowseEntryView| browse_size(b),
            sizes@,
            order,
            BROWSE_LIMIT as nat,
        );
    }
    out
}

/// Opening a folder shows the figures that measuring the folder gives: the
/// totals of its live listing are its size, file count and recoverable
/// bytes. This holds for every readable folder that is not classified as a
/// system area; inside a system area the listing still adds up what its
/// children hold, while the folder's own measurement counts nothing as
/// recoverable.
pub proof fn lemma_browse_totals_measure_folder(dir: Entry)
    requires
        dir matches Entry::Dir { readable, .. } && readable,
        !(verdict(dir->Dir_path@, true) matches Some(c) && c.safety == SYSTEM@),
    ensures
        crate::cleaner::dir_tally(dir).size == seq_tally(dir->Dir_children@).size,
        crate::cleaner::dir_tally(dir).files == seq_tally(dir->Dir_children@).files,
        crate::cleaner::dir_tally(dir).recoverable == if safe_folder(dir->Dir_path@) {
            seq_tally(dir->Dir_children@).size
        } else {
            seq_tally(dir->Dir_children@).recoverable
        },
{
}

/// Folder changes smaller than this are not worth explaining.
pub const MIN_DELTA: i64 = 100 * 1024 * 1024;
/// At most this many changes are reported.
pub const MAX_CHANGES: usize = 8;

/// A folder's size as one scan stored it.
pub struct FolderSize {
    pub path: String,
    pub name: String,
    pub size_bytes: i64,
}

/// How much a folder grew (or shrank) between two scans.
pub struct FolderDelta {
    pub path: String,
    pub name: String,
    pub delta_bytes: i64,
    pub is_new: bool,
}

pub struct FolderDeltaView {
    pub path: Seq<char>,
    pub name: Seq<char>,
    pub delta: i64,
    pub is_new: bool,
}

impl View for FolderDelta {
    type V = FolderDeltaView;

    open spec fn view(&self) -> FolderDeltaView {
        FolderDeltaView { path: self.path@, name: self.name@, delta: self.delta_bytes, is_new: self.is_new }
    }
}

impl FolderDelta {
    pub fn duplicate(&self) -> (r: FolderDelta)
        ensures
            r@ == self@,
    {
        FolderDelta {
            path: self.path.clone(),
            name: self.name.clone(),
            delta_bytes: self.delta_bytes,
            is_new: self.is_new,
        }
    }
}

pub open spec fn delta_views(s: Seq<FolderDelta>) -> Seq<FolderDeltaView> {
    s.map_values(|d: FolderDelta| d@)
}

/// Row `i` is the last one for its path (later rows for a path replace
/// earlier ones).
pub open spec fn is_last(s: Seq<FolderSize>, i: int) -> bool {
    forall|j: int| i < j < s.len() ==> (#[trigger] s[j]).path@ != s[i].path@
}

/// The size of the last row for `path`, if any.
pub open spec fn size_of(s: Seq<FolderSize>, path: Seq<char>) -> Option<i64>
    decreases s.len(),
{
    if s.len() == 0 {
        None
    } else if s.last().path@ == path {
        Some(s.last().size_bytes)
    } else {
        size_of(s.drop_last(), path)
    }
}

pub open spec fn abs_delta(d: i64) -> int {
    if d < 0 {
        -d
    } else {
        d as int
    }
}

/// The change of a folder present in the current scan.
pub open spec fn growth(cur: FolderSize, previous: Seq<FolderSize>) -> int {
    cur.size_bytes - match size_of(previous, cur.path@) {
        Some(p) => p as int,
        None => 0,
    }
}

/// Candidates from the current scan: every folder (its last row) whose size
/// changed by at least `MIN_DELTA`, new when the previous scan lacked it.
pub open spec fn grown(current: Seq<FolderSize>, all: Seq<FolderSize>, previous: Seq<FolderSize>) -> Seq<FolderDeltaView>
    decreases current.len(),
{
    if current.len() == 0 {
        Seq::empty()
    } else {
        let i = current.len() - 1;
        let c = current.last();
        let d = growth(c, previous);
        grown(current.drop_last(), all, previous) + if is_last(all, i) && abs_delta(d as i64) >= MIN_DELTA {
            seq![FolderDeltaView { path: c.path@, name: c.name@, delta: d as i64, is_new: size_of(previous, c.path@) is None }]
        } else {
            Seq::empty()
        }
    }
}

/// Candidates from the previous scan: every folder (its last row) of at
/// least `MIN_DELTA` that the current scan no longer has.
pub open spec fn vanished(previous: Seq<FolderSize>, all: Seq<FolderSize>, current: Seq<FolderSize>) -> Seq<FolderDeltaView>
    decreases previous.len(),
{
    if previous.len() == 0 {
        Seq::empty()
    } else {
        let i = previous.len() - 1;
        let p = previous.last();
        vanished(previous.drop_last(), all, current) + if is_last(all, i) && size_of(current, p.path@) is None
            && p.size_bytes >= MIN_DELTA {
            seq![FolderDeltaView { path: p.path@, name: p.name@, delta: (0 - p.size_bytes) as i64, is_new: false }]
        } else {
            Seq::empty()
        }
    }
}

/// Every change worth explaining between two scans, in no particular order.
pub open spec fn comparison_candidates_spec(current: Seq<FolderSize>, previous: Seq<FolderSize>) -> Seq<FolderDeltaView> {
    grown(current, current, previous) + vanished(previous, previous, current)
}

/// The size differences of a comparison fit signed 64-bit numbers and none
/// is the most negative one (whose magnitude does not).
pub open spec fn comparison_fits(current: Seq<FolderSize>, previous: Seq<FolderSize>) -> bool {
    forall|i: int|
        0 <= i < current.len() ==> i64::MIN < growth(#[trigger] current[i], previous) <= i64::MAX
}

pub open spec fn delta_size(d: FolderDeltaView) -> int {
    abs_delta(d.delta)
}

fn last_size(rows: &Vec<FolderSize>, path: &String) -> (r: Option<i64>)
    ensures
        r == size_of(rows@, path@),
{
    let mut i: usize = rows.len();
    let p = chars_of(path.as_str());
    proof {
        assert(rows@.take(i as int) =~= rows@);
    }
    while i > 0
        invariant
            i <= rows@.len(),
            p@ == path@,
            size_of(rows@, path@) == size_of(rows@.take(i as int), path@),
        decreases i,
    {
        proof {
            assert(rows@.take(i as int).drop_last() =~= rows@.take(i - 1));
            assert(rows@.take(i as int).last() == rows@[i - 1]);
        }
        let q = chars_of(rows[i - 1].path.as_str());
        if crate::text::eq_chars(&q, &p) {
            return Some(rows[i - 1].size_bytes);
        }
        i = i - 1;
    }
    None
}

fn is_last_row(rows: &Vec<FolderSize>, i: usize) -> (b: bool)
    requires
        i < rows@.len(),
    ensures
        b == is_last(rows@, i as int),
{
    let p = chars_of(rows[i].path.as_str());
    let n = rows.len();
    let mut j: usize = i + 1;
    while j < rows.len()
        invariant
            i < j <= rows@.len(),
            p@ == rows@[i as int].path@,
            forall|k: int| i < k < j ==> (#[trigger] rows@[k]).path@ != rows@[i as int].path@,
        decreases rows@.len() - j,
    {
        let q = chars_of(rows[j].path.as_str());
        if crate::text::eq_chars(&q, &p) {
            return false;
        }
        j = j + 1;
    }
    true
}

fn magnitude(d: i64) -> (r: u64)
    requires
        d != i64::MIN,
    ensures
        r as int == abs_delta(d),
{
    if d < 0 {
        (0 - d) as u64
    } else {
        d as u64
    }
}

/// The folder changes between two scans worth explaining (each folder taken
/// from its last row in either scan), largest change first.
pub fn comparison_candidates(current: &Vec<FolderSize>, previous: &Vec<FolderSize>) -> (r: Vec<FolderDelta>)
    requires
        comparison_fits(current@, previous@),
    ensures
        largest_first(
            comparison_candidates_spec(current@, previous@),
            |d: FolderDeltaView| delta_size(d),
            comparison_candidates_spec(current@, previous@).len(),
            delta_views(r@),
        ),
{
    let mut found: Vec<FolderDelta> = Vec::new();
    let mut i: usize = 0;
    proof {
        assert(current@.take(0) =~= Seq::<FolderSize>::empty());
    }
    while i < current.len()
        invariant
            i <= current@.len(),
            comparison_fits(current@, previous@),
            delta_views(found@) == grown(current@.take(i as int), current@, previous@),
            forall|x: int| 0 <= x < found@.len() ==> found@[x].delta_bytes != i64::MIN,
        decreases current@.len() - i,
    {
        let c = &current[i];
        let prev_size = last_size(previous, &c.path);
        proof {
            assert(i64::MIN < growth(current@[i as int], previous@) <= i64::MAX);
        }
        let delta: i64 = match prev_size {
            Some(p) => c.size_bytes - p,
            None => c.size_bytes,
        };
        let ghost before = found@;
        if is_last_row(current, i) && magnitude(delta) as i64 >= MIN_DELTA {
            let d = FolderDelta { path: c.path.clone(), name: c.name.clone(), delta_bytes: delta, is_new: prev_size.is_none() };
            found.push(d);
            proof {
                assert(delta_views(found@) =~= delta_views(before).push(d@));
            }
        }
        proof {
            let t = current@.take(i + 1);
            assert(t.drop_last() =~= current@.take(i as int));
            assert(t.last() == current@[i as int]);
            assert(delta_views(found@) =~= grown(t, current@, previous@));
        }
        i = i + 1;
    }
    proof {
        assert(current@.take(current@.len() as int) =~= current@);
    }
    let ghost grown_part = delta_views(found@);
    let mut k: usize = 0;
    proof {
        assert(previous@.take(0) =~= Seq::<FolderSize>::empty());
    }
    while k < previous.len()
        invariant
            k <= previous@.len(),
            grown_part == grown(current@, current@, previous@),
            delta_views(found@) == grown_part + vanished(previous@.take(k as int), previous@, current@),
            forall|x: int| 0 <= x < found@.len() ==> found@[x].delta_bytes != i64::MIN,
        decreases previous@.len() - k,
    {
        let p = &previous[k];
        let ghost before = found@;
        if is_last_row(previous, k) && last_size(current, &p.path).is_none() && p.size_bytes >= MIN_DELTA {
            let d = FolderDelta { path: p.path.clone(), name: p.name.clone(), delta_bytes: 0 - p.size_bytes, is_new: false };
            found.push(d);
            proof {
                assert(delta_views(found@) =~= delta_views(before).push(d@));
            }
        }
        proof {
            let t = previous@.take(k + 1);
            assert(t.drop_last() =~= previous@.take(k as int));
            assert(t.last() == previous@[k as int]);
            assert(delta_views(found@) =~= grown_part + vanished(t, previous@, current@));
        }
        k = k + 1;
    }
    proof {
        assert(previous@.take(previous@.len() as int) =~= previous@);
    }
    let ghost all = delta_views(found@);
    let mut keys: Vec<u64> = Vec::new();
    let mut j: usize = 0;
    while j < found.len()
        invariant
            j <= found@.len(),
            all == delta_views(found@),
            forall|x: int| 0 <= x < found@.len() ==> found@[x].delta_bytes != i64::MIN,
            keys@.len() == j,
            forall|x: int| 0 <= x < j ==> keys@[x] as int == abs_delta(found@[x].delta_bytes),
        decreases found@.len() - j,
    {
        keys.push(magnitude(found[j].delta_bytes));
        j = j + 1;
    }
    let n = found.len();
    let chosen = largest_positions(&keys, n);
    let ghost order = choose|order: Seq<usize>|
        stable_desc_order(keys@, order) && order.len() == keys@.len() && chosen@ == order.take(
            capped(keys@.len(), n as nat) as int,
        );
    let mut out: Vec<FolderDelta> = Vec::new();
    let mut m: usize = 0;
    while m < chosen.len()
        invariant
            m <= chosen@.len(),
            chosen@ == order.take(capped(keys@.len(), n as nat) as int),
            stable_desc_order(keys@, order),
            order.len() == keys@.len(),
            keys@.len() == found@.len(),
            delta_views(out@) == pick(delta_views(found@), order).take(m as int),
        decreases chosen@.len() - m,
    {
        let item = found[chosen[m]].duplicate();
        let ghost prev = out@;
        out.push(item);
        proof {
            assert(delta_views(out@) =~= delta_views(prev).push(item@));
            assert(pick(delta_views(found@), order)[m as int] == delta_views(found@)[order[m as int] as int]);
            assert(delta_views(out@) =~= pick(delta_views(found@), order).take(m + 1));
        }
        m = m + 1;
    }
    proof {
        lemma_pick_largest(delta_views(found@), |d: FolderDeltaView| delta_size(d), keys@, order, n as nat);
    }
    out
}

/// `path` lies strictly below `ancestor`: it starts with `ancestor` and a `\`.
pub open spec fn below(path: Seq<char>, ancestor: Seq<char>) -> bool {
    starts_with(path, ancestor + seq!['\\'])
}

/// Whether `path` lies strictly below `ancestor`.
pub fn is_below(path: &str, ancestor: &str) -> (b: bool)
    ensures
        b == below(path@, ancestor@),
{
    let p = chars_of(path);
    let mut a = chars_of(ancestor);
    a.push('\\');
    proof {
        assert(a@ =~= ancestor@ + seq!['\\']);
    }
    starts_with_chars(&p, &a)
}

/// Some change already kept covers a folder above `c`.
pub open spec fn ancestor_listed(kept: Seq<FolderDeltaView>, c: FolderDeltaView) -> bool {
    exists|k: int| 0 <= k < kept.len() && below(c.path, #[trigger] kept[k].path)
}

/// The changes to report, from the candidates (largest first) and, for each,
/// whether one of its subfolders already explains most of it: candidates
/// are taken in order, skipping those a subfolder explains and those below
/// a folder already taken, until `MAX_CHANGES` are taken.
pub open spec fn select_spec(c: Seq<FolderDeltaView>, explained: Seq<bool>) -> Seq<FolderDeltaView>
    decreases c.len(),
{
    if c.len() == 0 || explained.len() == 0 {
        Seq::empty()
    } else {
        let kept = select_spec(c.drop_last(), explained.drop_last());
        if kept.len() >= MAX_CHANGES || explained.last() || ancestor_listed(kept, c.last()) {
            kept
        } else {
            kept.push(c.last())
        }
    }
}

/// Prefers specific subfolders: drops a candidate when `explained` says a
/// subfolder accounts for most of its change, and drops anything below a
/// folder already kept; keeps at most `MAX_CHANGES`.
pub fn select_changes(candidates: &Vec<FolderDelta>, explained: &Vec<bool>) -> (r: Vec<FolderDelta>)
    requires
        explained@.len() == candidates@.len(),
    ensures
        delta_views(r@) == select_spec(delta_views(candidates@), explained@),
{
    let mut kept: Vec<FolderDelta> = Vec::new();
    let mut i: usize = 0;
    proof {
        assert(delta_views(candidates@).take(0) =~= Seq::<FolderDeltaView>::empty());
    }
    while i < candidates.len()
        invariant
            i <= candidates@.len(),
            explained@.len() == candidates@.len(),
            delta_views(kept@) == select_spec(delta_views(candidates@).take(i as int), explained@.take(i as int)),
        decreases candidates@.len() - i,
    {
        let c = &candidates[i];
        let ghost kv = delta_views(kept@);
        proof {
            let t = delta_views(candidates@).take(i + 1);
            assert(t.drop_last() =~= delta_views(candidates@).take(i as int));
            assert(explained@.take(i + 1).drop_last() =~= explained@.take(i as int));
            assert(t.last() == c@);
            assert(explained@.take(i + 1).last() == explained@[i as int]);
        }
        if kept.len() < MAX_CHANGES && !explained[i] {
            let mut listed = false;
            let mut k: usize = 0;
            while k < kept.len()
                invariant
                    k <= kept@.len(),
                    kv == delta_views(kept@),
                    listed == exists|j: int| 0 <= j < k && below(c.path@, #[trigger] kv[j].path),
                decreases kept@.len() - k,
            {
                if is_below(c.path.as_str(), kept[k].path.as_str()) {
                    listed = true;
                }
                proof {
                    if below(c.path@, kv[k as int].path) {
                        assert(exists|j: int| 0 <= j < k + 1 && below(c.path@, #[trigger] kv[j].path));
                    }
                    if listed && !below(c.path@, kv[k as int].path) {
                        let j = choose|j: int| 0 <= j < k && below(c.path@, #[trigger] kv[j].path);
                        assert(0 <= j < k + 1 && below(c.path@, kv[j].path));
                    }
                }
                k = k + 1;
            }
            if !listed {
                let d = c.duplicate();
                kept.push(d);
                proof {
                    assert(delta_views(kept@) =~= kv.push(d@));
                }
            }
        }
        i = i + 1;
    }
    proof {
        assert(delta_views(candidates@).take(candidates@.len() as int) =~= delta_views(candidates@));
        assert(explained@.take(candidates@.len() as int) =~= explained@);
    }
    kept
}

/// At most this many results come back from a search of the drives.
pub const SEARCH_RESULT_CAP: usize = 500;

/// One search hit.
pub struct SearchResultItem {
    pub kind: String,
    pub name: String,
    pub path: String,
    pub size_bytes: u64,
}

pub struct SearchResultView {
    pub kind: Seq<char>,
    pub name: Seq<char>,
    pub path: Seq<char>,
    pub size: u64,
}

impl View for SearchResultItem {
    type V = SearchResultView;

    open spec fn view(&self) -> SearchResultView {
        SearchResultView { kind: self.kind@, name: self.name@, path: self.path@, size: self.size_bytes }
    }
}

impl SearchResultItem {
    pub fn duplicate(&self) -> (r: SearchResultItem)
        ensures
            r@ == self@,
    {
        SearchResultItem {
            kind: self.kind.clone(),
            name: self.name.clone(),
            path: self.path.clone(),
            size_bytes: self.size_bytes,
        }
    }
}

pub open spec fn result_views(s: Seq<SearchResultItem>) -> Seq<SearchResultView> {
    s.map_values(|r: SearchResultItem| r@)
}

pub open spec fn result_size(r: SearchResultView) -> int {
    r.size as int
}

/// The normalised query: trimmed, lowercased, and at least two bytes long.
pub open spec fn search_query_spec(query: Seq<char>) -> Option<Seq<char>> {
    let q = lowercase(trim(query));
    if encode_utf8(q).len() < 2 {
        None
    } else {
        Some(q)
    }
}

/// Normalises a search query; `None` when it is too short to search for.
pub fn search_query(query: &str) -> (r: Option<String>)
    ensures
        r matches Some(q) ==> search_query_spec(query@) == Some(q@),
        r is None ==> search_query_spec(query@) is None,
{
    let v = chars_of(query);
    let t = trim_chars(&v);
    let ts = string_of(&t);
    let q = to_lowercase(ts.as_str());
    if q.as_str().as_bytes().len() < 2 {
        None
    } else {
        Some(q)
    }
}

/// The query inside a LIKE pattern: `%` dropped, `_` escaped.
pub open spec fn like_body(q: Seq<char>) -> Seq<char>
    decreases q.len(),
{
    if q.len() == 0 {
        Seq::empty()
    } else {
        like_body(q.drop_last()) + if q.last() == '%' {
            Seq::empty()
        } else if q.last() == '_' {
            seq!['\\', '_']
        } else {
            seq![q.last()]
        }
    }
}

/// The LIKE pattern that finds names containing the query.
pub fn like_pattern(q: &str) -> (r: String)
    ensures
        r@ == seq!['%'] + like_body(q@) + seq!['%'],
{
    let v = chars_of(q);
    let mut out: Vec<char> = Vec::new();
    out.push('%');
    let mut i: usize = 0;
    while i < v.len()
        invariant
            v@ == q@,
            i <= v@.len(),
            out@ == seq!['%'] + like_body(v@.take(i as int)),
        decreases v@.len() - i,
    {
        proof {
            assert(v@.take(i + 1).drop_last() =~= v@.take(i as int));
        }
        let c = v[i];
        if c == '%' {
        } else if c == '_' {
            out.push('\\');
            out.push('_');
        } else {
            out.push(c);
        }
        proof {
            assert(out@ =~= seq!['%'] + like_body(v@.take(i + 1)));
        }
        i = i + 1;
    }
    out.push('%');
    proof {
        assert(v@.take(v@.len() as int) =~= v@);
    }
    string_of(&out)
}

/// A name matches a (normalised) query when its lowercased form contains it.
pub fn name_matches(name: &str, q: &str) -> (b: bool)
    ensures
        b == contains(lowercase(name@), q@),
{
    let lower = to_lowercase(name);
    let l = chars_of(lower.as_str());
    let w = chars_of(q);
    contains_chars(&l, &w)
}

/// Whether Windows has a removal of `path` queued for the next restart:
/// some entry of the queue (`PendingFileRenameOperations`) contains it,
/// both lowercased.
pub fn is_pending_delete(queued: &Vec<String>, path: &str) -> (b: bool)
    ensures
        b == exists|i: int| 0 <= i < queued@.len() && contains(lowercase(#[trigger] queued@[i]@), lowercase(path@)),
{
    let needle_text = to_lowercase(path);
    let needle = chars_of(needle_text.as_str());
    let mut i: usize = 0;
    while i < queued.len()
        invariant
            i <= queued@.len(),
            needle@ == lowercase(path@),
            forall|j: int| 0 <= j < i ==> !contains(lowercase(#[trigger] queued@[j]@), lowercase(path@)),
        decreases queued@.len() - i,
    {
        let lower = to_lowercase(queued[i].as_str());
        let hay = chars_of(lower.as_str());
        if contains_chars(&hay, &needle) {
            return true;
        }
        i = i + 1;
    }
    false
}

/// At most this many installed applications are listed in search results.
pub const MAX_APP_RESULTS: usize = 20;

/// The installed applications whose lowercased name contains `q`, in order.
pub open spec fn matching_app_views(apps: Seq<InstalledAppView>, q: Seq<char>) -> Seq<InstalledAppView>
    decreases apps.len(),
{
    if apps.len() == 0 {
        Seq::empty()
    } else {
        matching_app_views(apps.drop_last(), q) + if contains(lowercase(apps.last().name), q) {
            seq![apps.last()]
        } else {
            Seq::empty()
        }
    }
}

/// The search result that lists an installed application.
pub open spec fn app_result(a: InstalledAppView) -> SearchResultView {
    SearchResultView {
        kind: "app"@,
        name: a.name,
        path: match a.install_location {
            Some(p) => p,
            None => Seq::empty(),
        },
        size: a.estimated_bytes,
    }
}

proof fn lemma_matching_prefix_grows(apps: Seq<InstalledAppView>, q: Seq<char>, k: int)
    requires
        0 <= k <= apps.len(),
    ensures
        matching_app_views(apps.take(k), q).len() <= matching_app_views(apps, q).len(),
        matching_app_views(apps.take(k), q) =~= matching_app_views(apps, q).take(
            matching_app_views(apps.take(k), q).len() as int,
        ),
    decreases apps.len() - k,
{
    if k < apps.len() {
        lemma_matching_prefix_grows(apps, q, k + 1);
        assert(apps.take(k + 1).drop_last() =~= apps.take(k));
    } else {
        assert(apps.take(k) =~= apps);
    }
}

/// The search results for installed applications: those whose lowercased
/// name contains `q`, the first `MAX_APP_RESULTS` of them, in order, each
/// with its install folder (empty when unknown) and estimated size.
pub fn matching_apps(apps: &Vec<InstalledApp>, q: &str) -> (r: Vec<SearchResultItem>)
    ensures
        result_views(r@) == matching_app_views(app_views(apps@), q@).take(
            min_len(matching_app_views(app_views(apps@), q@).len(), MAX_APP_RESULTS as nat),
        ).map_values(|a: InstalledAppView| app_result(a)),
{
    let ghost av = app_views(apps@);
    let ghost all = matching_app_views(av, q@);
    let mut out: Vec<SearchResultItem> = Vec::new();
    let mut i: usize = 0;
    while i < apps.len() && out.len() < MAX_APP_RESULTS
        invariant
            i <= apps@.len(),
            av == app_views(apps@),
            all == matching_app_views(av, q@),
            out@.len() <= MAX_APP_RESULTS,
            out@.len() == matching_app_views(av.take(i as int), q@).len(),
            result_views(out@) == matching_app_views(av.take(i as int), q@).map_values(
                |a: InstalledAppView| app_result(a),
            ),
        decreases apps@.len() - i,
    {
        let a = &apps[i];
        let ghost prev = matching_app_views(av.take(i as int), q@);
        proof {
            assert(av.take(i + 1).drop_last() =~= av.take(i as int));
            assert(av.take(i + 1).last() == a@);
        }
        if name_matches(a.name.as_str(), q) {
            let path = match &a.install_location {
                Some(p) => p.clone(),
                None => String::new(),
            };
            let ghost before = result_views(out@);
            out.push(SearchResultItem { kind: "app".to_owned(), name: a.name.clone(), path, size_bytes: a.estimated_bytes });
            proof {
                assert(matching_app_views(av.take(i + 1), q@) =~= prev.push(a@));
                assert(result_views(out@) =~= before.push(app_result(a@)));
                assert(prev.push(a@).map_values(|a: InstalledAppView| app_result(a)) =~= prev.map_values(
                    |a: InstalledAppView| app_result(a),
                ).push(app_result(a@)));
            }
        } else {
            proof {
                assert(matching_app_views(av.take(i + 1), q@) =~= prev);
            }
        }
        i = i + 1;
    }
    proof {
        lemma_matching_prefix_grows(av, q@, i as int);
        let got = matching_app_views(av.take(i as int), q@);
        if i == apps@.len() {
            assert(av.take(i as int) =~= av);
        }
        assert(got =~= all.take(min_len(all.len(), MAX_APP_RESULTS as nat)));
    }
    out
}

pub open spec fn min_len(a: nat, b: nat) -> int {
    if a < b {
        a as int
    } else {
        b as int
    }
}

/// Folders never worth walking in a search: the component store, the
/// Recycle Bin and System Volume Information (by lowercased name).
pub open spec fn skipped_dir(name_lower: Seq<char>) -> bool {
    name_lower == "winsxs"@ || name_lower == "$recycle.bin"@ || name_lower == "system volume information"@
}

/// Whether a search descends into a folder with this lowercased name.
pub fn search_descends(name_lower: &str) -> (b: bool)
    ensures
        b == !skipped_dir(name_lower@),
{
    let v = chars_of(name_lower);
    let a = chars_of("winsxs");
    let b = chars_of("$recycle.bin");
    let c = chars_of("system volume information");
    !(eq_chars(&v, &a) || eq_chars(&v, &b) || eq_chars(&v, &c))
}

/// The final list of a search: largest first, at most `SEARCH_RESULT_CAP`.
pub fn finish_search(found: &Vec<SearchResultItem>) -> (out: Vec<SearchResultItem>)
    ensures
        largest_first(
            result_views(found@),
            |r: SearchResultView| result_size(r),
            SEARCH_RESULT_CAP as nat,
            result_views(out@),
        ),
{
    let mut sizes: Vec<u64> = Vec::new();
    let mut i: usize = 0;
    while i < found.len()
        invariant
            i <= found@.len(),
            sizes@.len() == i,
            forall|j: int| 0 <= j < i ==> sizes@[j] == found@[j].size_bytes,
        decreases found@.len() - i,
    {
        sizes.push(found[i].size_bytes);
        i = i + 1;
    }
    let chosen = largest_positions(&sizes, SEARCH_RESULT_CAP);
    let ghost order = choose|order: Seq<usize>|
        stable_desc_order(sizes@, order) && order.len() == sizes@.len() && chosen@ == order.take(
            capped(sizes@.len(), SEARCH_RESULT_CAP as nat) as int,
        );
    let mut out: Vec<SearchResultItem> = Vec::new();
    let mut k: usize = 0;
    while k < chosen.len()
        invariant
            k <= chosen@.len(),
            chosen@ == order.take(capped(sizes@.len(), SEARCH_RESULT_CAP as nat) as int),
            stable_desc_order(sizes@, order),
            order.len() == sizes@.len(),
            sizes@.len() == found@.len(),
            result_views(out@) == pick(result_views(found@), order).take(k as int),
        decreases chosen@.len() - k,
    {
        let item = found[chosen[k]].duplicate();
        let ghost prev = out@;
        out.push(item);
        proof {
            assert(result_views(out@) =~= result_views(prev).push(item@));
            assert(pick(result_views(found@), order)[k as int] == result_views(found@)[order[k as int] as int]);
            assert(result_views(out@) =~= pick(result_views(found@), order).take(k + 1));
        }
        k = k + 1;
    }
    proof {
        lemma_pick_largest(
            result_views(found@),
            |r: SearchResultView| result_size(r),
            sizes@,
            order,
            SEARCH_RESULT_CAP as nat,
        );
    }
    out
}

/// A drive as the dashboard shows it.
pub struct DriveInfo {
    pub letter: String,
    pub label: String,
    pub total_bytes: u64,
    pub used_bytes: u64,
    pub free_bytes: u64,
    pub is_removable: bool,
}

pub struct DriveInfoView {
    pub letter: Seq<char>,
    pub label: Seq<char>,
    pub total: u64,
    pub used: u64,
    pub free: u64,
    pub removable: bool,
}

impl View for DriveInfo {
    type V = DriveInfoView;

    open spec fn view(&self) -> DriveInfoView {
        DriveInfoView {
            letter: self.letter@,
            label: self.label@,
            total: self.total_bytes,
            used: self.used_bytes,
            free: self.free_bytes,
            removable: self.is_removable,
        }
    }
}

impl DriveInfo {
    pub fn duplicate(&self) -> (r: DriveInfo)
        ensures
            r@ == self@,
    {
        DriveInfo {
            letter: self.letter.clone(),
            label: self.label.clone(),
            total_bytes: self.total_bytes,
            used_bytes: self.used_bytes,
            free_bytes: self.free_bytes,
            is_removable: self.is_removable,
        }
    }
}

/// The label shown for a drive without a volume name.
pub const DEFAULT_DRIVE_LABEL: &'static str = "Local Disk";

pub open spec fn drive_info_spec(mount: Seq<char>, name: Seq<char>, total: u64, available: u64, removable: bool) -> DriveInfoView {
    DriveInfoView {
        letter: strip_char_end(mount, '\\'),
        label: if name.len() == 0 {
            DEFAULT_DRIVE_LABEL@
        } else {
            name
        },
        total,
        used: sat_sub(total, available),
        free: available,
        removable,
    }
}

/// A drive from what the system reports for it: its mount point without
/// trailing backslashes as the letter, its name (or `Local Disk`), and its
/// capacity, used and available bytes.
pub fn drive_info(mount: &str, name: &str, total: u64, available: u64, removable: bool) -> (r: DriveInfo)
    ensures
        r@ == drive_info_spec(mount@, name@, total, available, removable),
{
    let v = chars_of(mount);
    let mut n = v.len();
    proof {
        assert(v@.take(n as int) =~= v@);
    }
    while n > 0 && v[n - 1] == '\\'
        invariant
            n <= v@.len(),
            v@ == mount@,
            strip_char_end(mount@, '\\') == strip_char_end(v@.take(n as int), '\\'),
        decreases n,
    {
        proof {
            assert(v@.take(n as int).drop_last() =~= v@.take(n - 1));
        }
        n = n - 1;
    }
    proof {
        if n == 0 {
            assert(v@.take(0) =~= Seq::<char>::empty());
        }
    }
    let letter_chars = crate::text::slice_chars(&v, 0, n);
    proof {
        assert(letter_chars@ =~= v@.take(n as int));
    }
    let name_chars = chars_of(name);
    let label = if name_chars.len() == 0 {
        DEFAULT_DRIVE_LABEL.to_owned()
    } else {
        name.to_owned()
    };
    DriveInfo {
        letter: string_of(&letter_chars),
        label,
        total_bytes: total,
        used_bytes: total.saturating_sub(available),
        free_bytes: available,
        is_removable: removable,
    }
}

pub open spec fn drive_views(s: Seq<DriveInfo>) -> Seq<DriveInfoView> {
    s.map_values(|d: DriveInfo| d@)
}

/// The drives a scan covers: all of them when no letters are given,
/// otherwise those whose letter is among the letters, in order.
pub open spec fn chosen_drives(drives: Seq<DriveInfoView>, letters: Seq<Seq<char>>) -> Seq<DriveInfoView>
    decreases drives.len(),
{
    if drives.len() == 0 {
        Seq::empty()
    } else {
        chosen_drives(drives.drop_last(), letters) + if letters.len() == 0 || letters.contains(
            drives.last().letter,
        ) {
            seq![drives.last()]
        } else {
            Seq::empty()
        }
    }
}

/// The error when no drive matches.
pub const NO_MATCHING_DRIVES: &'static str = "No matching drives to scan";

/// The drives to scan, or an error when none matches.
pub fn select_drives(drives: &Vec<DriveInfo>, letters: &Vec<String>) -> (r: Result<Vec<DriveInfo>, String>)
    ensures
        r matches Ok(v) ==> drive_views(v@) == chosen_drives(drive_views(drives@), string_views(letters@))
            && v@.len() > 0,
        r matches Err(e) ==> e@ == NO_MATCHING_DRIVES@ && chosen_drives(
            drive_views(drives@),
            string_views(letters@),
        ).len() == 0,
{
    let ghost ls = string_views(letters@);
    let mut out: Vec<DriveInfo> = Vec::new();
    let mut i: usize = 0;
    proof {
        assert(drive_views(drives@).take(0) =~= Seq::<DriveInfoView>::empty());
    }
    while i < drives.len()
        invariant
            i <= drives@.len(),
            ls == string_views(letters@),
            drive_views(out@) == chosen_drives(drive_views(drives@).take(i as int), ls),
        decreases drives@.len() - i,
    {
        let d = &drives[i];
        let mut wanted = letters.len() == 0;
        let dl = chars_of(d.letter.as_str());
        let mut k: usize = 0;
        while k < letters.len() && !wanted
            invariant
                k <= letters@.len(),
                ls == string_views(letters@),
                dl@ == d.letter@,
                wanted == (ls.len() == 0 || exists|j: int| 0 <= j < k && ls[j] == d.letter@),
            decreases letters@.len() - k,
        {
            let l = chars_of(letters[k].as_str());
            if eq_chars(&l, &dl) {
                wanted = true;
                proof {
                    assert(ls[k as int] == d.letter@);
                }
            }
            k = k + 1;
        }
        proof {
            if wanted && ls.len() > 0 {
                let j = choose|j: int| 0 <= j < k && ls[j] == d.letter@;
                assert(ls.contains(d.letter@));
            }
            if !wanted {
                assert(k == letters@.len());
                if ls.contains(d.letter@) {
                    let j = choose|j: int| 0 <= j < ls.len() && ls[j] == d.letter@;
                    assert(false);
                }
            }
            let t = drive_views(drives@).take(i + 1);
            assert(t.drop_last() =~= drive_views(drives@).take(i as int));
            assert(t.last() == d@);
        }
        let ghost prev = out@;
        if wanted {
            let c = d.duplicate();
            out.push(c);
            proof {
                assert(drive_views(out@) =~= drive_views(prev).push(c@));
            }
        }
        i = i + 1;
    }
    proof {
        assert(drive_views(drives@).take(drives@.len() as int) =~= drive_views(drives@));
    }
    if out.len() == 0 {
        Err(NO_MATCHING_DRIVES.to_owned())
    } else {
        Ok(out)
    }
}

/// The root folder a scan of a drive starts from: the drive (such as `C:`)
/// and `\`.
pub fn drive_root(letter: &str) -> (r: String)
    ensures
        r@ == letter@ + seq!['\\'],
{
    let mut v = chars_of(letter);
    v.push('\\');
    proof {
        assert(v@ =~= letter@ + seq!['\\']);
    }
    string_of(&v)
}

/// A folder row of the dashboard's breakdown.
pub struct FolderEntry {
    pub path: String,
    pub name: String,
    pub size_bytes: u64,
    pub file_count: u64,
    /// `None` for a row recorded before recoverable space was measured,
    /// which is not the same as zero.
    pub recoverable_bytes: Option<u64>,
    pub classification: Option<Classification>,
}

/// A stored folder row for the breakdown: its recoverable bytes only when
/// they were measured, and the folder's classification.
pub fn folder_entry(
    path: String,
    name: String,
    size_bytes: u64,
    file_count: u64,
    recoverable_bytes: u64,
    measured: bool,
) -> (r: FolderEntry)
    ensures
        r.path@ == path@,
        r.name@ == name@,
        r.size_bytes == size_bytes,
        r.file_count == file_count,
        r.recoverable_bytes == if measured {
            Some(recoverable_bytes)
        } else {
            None
        },
        opt_view(r.classification) == verdict(path@, true),
{
    let classification = classify(path.as_str(), true);
    FolderEntry {
        path,
        name,
        size_bytes,
        file_count,
        recoverable_bytes: if measured {
            Some(recoverable_bytes)
        } else {
            None
        },
        classification,
    }
}

/// A large file of the dashboard.
pub struct LargeFile {
    pub path: String,
    pub name: String,
    pub extension: String,
    pub size_bytes: u64,
    pub modified_at: String,
    pub classification: Option<Classification>,
}

/// A stored large-file row, classified on its own or by its nearest
/// classified folder.
pub fn large_file(path: String, name: String, extension: String, size_bytes: u64, modified_at: String) -> (r: LargeFile)
    ensures
        r.path@ == path@,
        r.name@ == name@,
        r.extension@ == extension@,
        r.size_bytes == size_bytes,
        r.modified_at@ == modified_at@,
        opt_view(r.classification) == effective_verdict(path@, false),
{
    let classification = classify_effective(path.as_str(), false);
    LargeFile { path, name, extension, size_bytes, modified_at, classification }
}

/// The error for a link that is not a web address.
pub const NOT_A_WEB_URL: &'static str = "Only http(s) URLs can be opened.";

/// Only http(s) links may be opened; never another scheme.
pub fn check_external_url(url: &str) -> (r: Result<(), String>)
    ensures
        r is Ok <==> (starts_with(url@, "https://"@) || starts_with(url@, "http://"@)),
        r matches Err(e) ==> e@ == NOT_A_WEB_URL@,
{
    let v = chars_of(url);
    let a = chars_of("https://");
    let b = chars_of("http://");
    if starts_with_chars(&v, &a) || starts_with_chars(&v, &b) {
        Ok(())
    } else {
        Err(NOT_A_WEB_URL.to_owned())
    }
}

/// The raw argument for Explorer: a folder is opened (quoted), a file is
/// revealed and selected in its folder.
pub fn explorer_argument(path: &str, is_dir: bool) -> (r: String)
    ensures
        r@ == if is_dir {
            "\""@ + path@ + "\""@
        } else {
            "/select,\""@ + path@ + "\""@
        },
{
    let mut s = if is_dir {
        "\"".to_owned()
    } else {
        "/select,\"".to_owned()
    };
    push_str(&mut s, path);
    push_str(&mut s, "\"");
    s
}

/// A cleanup goes into the journal unless it removed nothing at all.
pub fn worth_logging(item_count: usize, freed: u64) -> (b: bool)
    ensures
        b == !(item_count == 0 && freed == 0),
{
    !(item_count == 0 && freed == 0)
}

} // verus!
