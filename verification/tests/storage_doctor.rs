use storage_doctor::cleaner::{find_safe_items, measure_dir, Entry};
use storage_doctor::commands::{ancestors_of, build_force_delete_script, is_pending_delete, like_subtree, recycle_bin_drive};
use storage_doctor::dupes::{first_jobs, hashed_job, make_group, rank_groups, ContentHasher, DupeFile, PREFIX_LEN};
use storage_doctor::scanner::scan;
use storage_doctor::shell::{command_line, force_delete_target};
use storage_doctor::thumbs::app_icon_source;
use storage_doctor::uninstall::{
    build_force_uninstall_script, env_refs, expand_env_vars_with, is_edge, msi_product_code, name_variants,
    newest_version, parse_version, split_command_line, split_command_line_given, uninstall_command, command_candidates, ForceTargets, InstalledApp,
};

fn file(path: &str, size: u64) -> Entry {
    Entry::File { path: path.to_string(), size, modified: String::new() }
}

fn dir(path: &str, children: Vec<Entry>) -> Entry {
    Entry::Dir { path: path.to_string(), readable: true, children }
}

/// A tree with one cache folder, one loose log, and personal files that
/// must never be counted as reclaimable.
fn cleanup_fixture(root: &str) -> Entry {
    dir(
        root,
        vec![
            dir(&format!(r"{root}\Documents"), vec![file(&format!(r"{root}\Documents\thesis.docx"), 3_000_000)]),
            dir(
                &format!(r"{root}\Cache"),
                vec![file(&format!(r"{root}\Cache\blob-1"), 2_000_000), file(&format!(r"{root}\Cache\blob-2"), 1_000_000)],
            ),
            dir(
                &format!(r"{root}\app"),
                vec![
                    file(&format!(r"{root}\app\run.log"), 1_500_000),
                    // Under the 512 KB floor, so neither side should offer it.
                    file(&format!(r"{root}\app\tiny.log"), 1_000),
                ],
            ),
        ],
    )
}

#[test]
fn row_figure_matches_what_the_cleanup_dialog_offers() {
    let root = cleanup_fixture(r"C:\Users\me\AppData\Local\Temp\storage doctor measure test");

    let measured = measure_dir(&root);
    let listed: u64 = find_safe_items(&root).iter().map(|i| i.size_bytes).sum();

    assert_eq!(
        measured.recoverable_bytes, listed,
        "row says {} but the dialog can only offer {}",
        measured.recoverable_bytes, listed
    );
    // Cache folder (3 MB) + the log over the floor (1.5 MB).
    assert_eq!(measured.recoverable_bytes, 4_500_000);
    // Personal files are counted in the size but never as recoverable.
    assert_eq!(measured.size_bytes, 7_501_000);
    assert_eq!(measured.file_count, 5);
}

#[test]
fn folders_with_nothing_to_clear_report_zero() {
    let root_path = r"C:\Users\me\AppData\Local\Temp\storage doctor personal only test";
    let root = dir(
        root_path,
        vec![dir(&format!(r"{root_path}\Pictures"), vec![file(&format!(r"{root_path}\Pictures\holiday.jpg"), 4_000_000)])],
    );

    let measured = measure_dir(&root);
    assert_eq!(measured.recoverable_bytes, 0);
    assert_eq!(measured.size_bytes, 4_000_000);
    assert!(find_safe_items(&root).is_empty());
}

#[test]
fn force_delete_script_stops_lockers_before_deleting_and_schedules_reboot_fallback() {
    let script = build_force_delete_script(&vec![r"C:\stuck\file.txt".to_string()], false);
    assert!(script.contains("FindLockerPids"));
    assert!(script.contains("Stop-Process -Id $procId"));
    assert!(script.contains("SendToRecycleBin"));
    assert!(script.contains("ScheduleForReboot"));
    // Recycle Bin path is used, not a permanent Remove-Item.
    assert!(!script.contains(r"Remove-Item -LiteralPath 'C:\stuck\file.txt' -Recurse"));
    // The kill step must run, and finish, before the delete attempt.
    let kill_pos = script.find("FindLockerPids").unwrap();
    let delete_pos = script.find("SendToRecycleBin").unwrap();
    assert!(kill_pos < delete_pos, "processes must be stopped before deleting");
}

#[test]
fn force_delete_script_permanent_mode_skips_the_recycle_bin() {
    let script = build_force_delete_script(&vec![r"C:\stuck\file.txt".to_string()], true);
    assert!(script.contains(r"Remove-Item -LiteralPath 'C:\stuck\file.txt' -Recurse -Force"));
    assert!(!script.contains("SendToRecycleBin"));
}

#[test]
fn force_delete_script_escapes_single_quotes_in_paths() {
    let script = build_force_delete_script(&vec![r"C:\it's\stuck.txt".to_string()], false);
    assert!(script.contains(r"it''s"));
    assert!(!script.contains(r"'C:\it's\stuck.txt'"));
}

/// The restart queue holds other paths; one never scheduled is not in it.
#[test]
fn pending_reboot_delete_is_false_for_a_path_never_scheduled() {
    let queued = vec![r"\??\C:\Windows\Temp\old.tmp".to_string(), String::new()];
    assert!(!is_pending_delete(&queued, r"C:\this\path\was\never\scheduled\by\storage\doctor\tests.txt"));
    assert!(is_pending_delete(&queued, r"c:\windows\temp\OLD.tmp"));
}

#[test]
fn ancestors_walk_up_to_the_drive_root() {
    assert_eq!(ancestors_of(r"C:\Users\me\Downloads"), vec![r"C:\Users\me", r"C:\Users", r"C:\"]);
    assert!(ancestors_of(r"C:\").is_empty());
}

#[test]
fn subtree_pattern_matches_descendants_only() {
    let db = rusqlite::Connection::open_in_memory().unwrap();
    db.execute("CREATE TABLE folders (path TEXT)", []).unwrap();
    for path in [
        r"C:\my_app",         // the target itself
        r"C:\my_app\cache",   // descendant — must go
        r"C:\my_app\a\b",     // deeper descendant — must go
        r"C:\myXapp\cache",   // an unescaped `_` would wrongly match this
        r"C:\my_application", // shares the prefix but not the separator
        r"C:\other",
    ] {
        db.execute("INSERT INTO folders VALUES (?1)", [path]).unwrap();
    }

    let pattern = like_subtree(r"C:\my_app");
    db.execute(
        r"DELETE FROM folders WHERE path = ?1 OR path LIKE ?2 ESCAPE '\'",
        (r"C:\my_app", pattern.as_str()),
    )
    .unwrap();

    let mut stmt = db.prepare("SELECT path FROM folders ORDER BY path").unwrap();
    let remaining: Vec<String> = stmt.query_map([], |row| row.get(0)).unwrap().map(Result::unwrap).collect();
    assert_eq!(
        remaining,
        // Binary collation: `X` (0x58) sorts before `_` (0x5F).
        vec![r"C:\myXapp\cache", r"C:\my_application", r"C:\other"]
    );
}

#[test]
fn recycle_bin_paths_are_recognised_per_drive() {
    assert_eq!(recycle_bin_drive(r"D:\$RECYCLE.BIN"), Some("D".into()));
    assert_eq!(recycle_bin_drive(r"c:\$Recycle.Bin\S-1-5-21"), Some("c".into()));
    assert_eq!(recycle_bin_drive(r"C:\Users\me\$RECYCLE.BIN"), None);
}

fn content_hash(content: &[u8]) -> String {
    let mut hasher = ContentHasher::new();
    hasher.update(content);
    hasher.finish()
}

#[test]
fn detects_small_duplicates_and_skips_empty_files() {
    let dir_path = r"C:\Users\me\AppData\Local\Temp\storage doctor dupes test";
    let files: Vec<(&str, u8, usize)> = vec![
        // 100 bytes, identical pair.
        ("tiny-a.bin", 0xAA, 100),
        ("tiny-b.bin", 0xAA, 100),
        // 100 KB, identical pair.
        ("small-a.bin", 0xBB, 100 * 1024),
        ("small-b.bin", 0xBB, 100 * 1024),
        // Same size as the 100-byte pair but different content — must not group.
        ("tiny-different.bin", 0xCC, 100),
        // Empty files are deliberately ignored.
        ("empty-a.bin", 0x00, 0),
        ("empty-b.bin", 0x00, 0),
    ];
    let sizes: Vec<u64> = files.iter().map(|f| f.2 as u64).collect();

    let mut groups = Vec::new();
    let mut jobs = first_jobs(&sizes);
    while let Some(job) = jobs.pop() {
        let hashes: Vec<Option<String>> = job
            .files
            .iter()
            .map(|&i| {
                let content = vec![files[i].1; files[i].2];
                let end = if job.prefix_pass { content.len().min(PREFIX_LEN as usize) } else { content.len() };
                Some(content_hash(&content[..end]))
            })
            .collect();
        let (next, found) = hashed_job(&job, &hashes);
        jobs.extend(next);
        for group in found {
            let dupes: Vec<DupeFile> = group
                .files
                .iter()
                .map(|&i| DupeFile { path: format!(r"{dir_path}\{}", files[i].0), modified_at: String::new() })
                .collect();
            groups.push(make_group(&group.hash, group.size, &dupes));
        }
    }
    let groups = rank_groups(&groups);

    let sizes: Vec<u64> = groups.iter().map(|g| g.size_bytes).collect();
    assert!(sizes.contains(&100), "100-byte duplicates not detected: {sizes:?}");
    assert!(sizes.contains(&(100 * 1024)), "100 KB duplicates not detected: {sizes:?}");
    assert!(!sizes.contains(&0), "empty files should not be grouped: {sizes:?}");

    // Each group holds exactly the two identical copies — the same-size
    // file with different content is excluded.
    for group in &groups {
        assert_eq!(group.files.len(), 2, "unexpected group of {} files", group.files.len());
    }
    assert_eq!(groups.len(), 2, "expected exactly two groups");
}

#[test]
fn parses_the_force_delete_target_in_both_forms() {
    let split = vec!["storage-doctor.exe".to_string(), "--force-delete".to_string(), r"C:\stuck folder".to_string()];
    assert_eq!(force_delete_target(&split).as_deref(), Some(r"C:\stuck folder"));

    let joined = vec!["storage-doctor.exe".to_string(), r"--force-delete=C:\a\b.txt".to_string()];
    assert_eq!(force_delete_target(&joined).as_deref(), Some(r"C:\a\b.txt"));
}

#[test]
fn no_target_without_the_flag_or_value() {
    assert_eq!(force_delete_target(&["storage-doctor.exe".to_string()]), None);
    assert_eq!(force_delete_target(&["storage-doctor.exe".to_string(), "--force-delete".to_string()]), None);
}

#[test]
fn command_line_is_quoted_for_spaces_and_carries_the_flag() {
    let cmd = command_line(r"C:\Program Files\Storage Doctor\storage-doctor.exe");
    assert_eq!(cmd, r#""C:\Program Files\Storage Doctor\storage-doctor.exe" --force-delete "%1""#);
}

#[test]
fn display_icon_index_suffix_is_stripped() {
    let notepad = r"C:\Windows\System32\notepad.exe";
    if !std::path::Path::new(notepad).is_file() {
        return;
    }
    assert_eq!(app_icon_source(Some(&format!("{notepad},0")), None, None), Some(notepad.to_string()));
    assert_eq!(app_icon_source(Some(&format!("\"{notepad}\",-102")), None, None), Some(notepad.to_string()));
    // A comma that is part of the name must survive.
    assert_eq!(app_icon_source(Some(r"C:\a,b\gone.exe"), None, None), None);
}

#[test]
fn name_variants_drops_publisher_prefix_and_short_tokens() {
    let variants = name_variants("Google Chrome", "Google LLC");
    assert!(variants.contains(&"googlechrome".to_string()));
    assert!(variants.contains(&"chrome".to_string()));
}

#[test]
fn is_edge_matches_only_the_exact_display_name() {
    assert!(is_edge("Microsoft Edge"));
    assert!(!is_edge("Microsoft Edge WebView2 Runtime"));
    assert!(!is_edge("Notepad++"));
}

#[test]
fn parse_version_reads_dotted_numeric_folders() {
    assert_eq!(parse_version("124.0.2478.51"), Some(vec![124, 0, 2478, 51]));
    assert_eq!(parse_version("Installer"), None);
    assert_eq!(parse_version(""), None);
}

#[test]
fn newer_edge_version_folder_wins() {
    // Version folders, each holding `Installer\setup.exe`.
    let names: Vec<String> = ["120.0.100.1", "124.0.2478.51", "119.9.9.9"].iter().map(|s| s.to_string()).collect();
    let has_setup = vec![true, true, true];

    let found = newest_version(&names, &has_setup).expect("should find a setup.exe");
    assert!(names[found].contains("124.0.2478.51"));
}

#[test]
fn force_uninstall_script_only_runs_edges_own_uninstaller_for_edge_itself() {
    let not_edge = InstalledApp {
        name: "Notepad++".to_string(),
        version: "8.6".to_string(),
        publisher: "Don Ho".to_string(),
        install_location: None,
        estimated_bytes: 0,
        uninstall_string: None,
        display_icon: None,
    };
    let targets = ForceTargets { edge_setup: None, remaining_paths: Vec::new(), uninstall_keys: Vec::new(), shortcuts: Vec::new() };
    let (script, attempted_edge) = build_force_uninstall_script(&not_edge, &targets);
    assert!(!attempted_edge);
    assert!(!script.contains("--system-level"));
}

#[test]
fn quoted_program_keeps_arguments_verbatim() {
    let (program, args) = split_command_line(
        r#""C:\windows\SysWOW64\RunDll32.EXE" "C:\Program Files\NVIDIA Corporation\Installer2\InstallerCore\NVI2.DLL",UninstallPackage Display.Driver"#,
    );
    assert_eq!(program, r"C:\windows\SysWOW64\RunDll32.EXE");
    assert_eq!(
        args,
        r#""C:\Program Files\NVIDIA Corporation\Installer2\InstallerCore\NVI2.DLL",UninstallPackage Display.Driver"#
    );
}

#[test]
fn quoted_program_without_arguments() {
    let (program, args) = split_command_line(r#""C:\Program Files\Audacity\unins000.exe""#);
    assert_eq!(program, r"C:\Program Files\Audacity\unins000.exe");
    assert_eq!(args, "");
}

#[test]
fn bare_command_falls_back_to_first_token() {
    let (program, args) = split_command_line(r#"CMD /C "C:\Program Files\HP\Documentation\Doc_Uninstall.cmd""#);
    assert_eq!(program, "CMD");
    assert_eq!(args, r#"/C "C:\Program Files\HP\Documentation\Doc_Uninstall.cmd""#);
}

/// Splits `s` as `split_command_line` does on a disk where `existing` is the
/// only file.
fn split_with_only_file(s: &str, existing: &str) -> (String, String) {
    let found = command_candidates(s).iter().position(|c| c == existing);
    split_command_line_given(s, found)
}

#[test]
fn unquoted_path_with_spaces_resolves_against_disk() {
    // The whole string is the program only when it exists on disk;
    // otherwise the first token is used. The disk holds this one file.
    let full = r"C:\Users\me\AppData\Local\Temp\storage doctor test dir\uninstall.exe".to_string();

    let (program, args) = split_with_only_file(&full, &full);
    assert_eq!(program, full);
    assert_eq!(args, "");

    let (program, args) = split_with_only_file(&format!("{full} /S"), &full);
    assert_eq!(program, full);
    assert_eq!(args, "/S");
}

#[test]
fn msi_product_code_only_matches_msiexec_programs() {
    assert_eq!(
        msi_product_code("MsiExec.exe /I{20C01991-CCD1-2C06-7A9A-B10A9B4AF807}").as_deref(),
        Some("{20C01991-CCD1-2C06-7A9A-B10A9B4AF807}")
    );
    assert_eq!(
        msi_product_code(r"msiexec.exe /x {AF599C42-A2E5-4251-B7EE-49251227A340} /L*V C:\Temp\hss.log").as_deref(),
        Some("{AF599C42-A2E5-4251-B7EE-49251227A340}")
    );
    // A bundle uninstaller whose *path* contains a GUID is not an MSI.
    assert_eq!(
        msi_product_code(
            r#""C:\ProgramData\Package Cache\{d8bbe9f9-7c5b-42c6-b715-9ee898a2e515}\VC_redist.x64.exe"  /uninstall"#
        ),
        None
    );
}

#[test]
fn missing_uninstaller_reports_the_stale_command() {
    let err = uninstall_command(r"C:\No Such Dir\uninstall.exe /S").unwrap_err();
    assert!(err.contains("no longer on disk"), "unexpected error: {err}");
}

/// Expands `s` with `STORAGE_DOCTOR_TEST_VAR` set to `C:\Apps` and no other
/// variable set.
fn expand_with_test_var(s: &str) -> String {
    let values: Vec<Option<String>> = env_refs(s)
        .iter()
        .map(|name| if name == "STORAGE_DOCTOR_TEST_VAR" { Some(r"C:\Apps".to_string()) } else { None })
        .collect();
    expand_env_vars_with(s, &values)
}

#[test]
fn env_vars_are_expanded_and_stray_percents_kept() {
    assert_eq!(expand_with_test_var(r"%STORAGE_DOCTOR_TEST_VAR%\uninstall.exe"), r"C:\Apps\uninstall.exe");
    assert_eq!(expand_with_test_var("50% off"), "50% off");
    assert_eq!(expand_with_test_var("%NOT_A_REAL_VAR_12345%\\x"), "%NOT_A_REAL_VAR_12345%\\x");
}

/// A tree shaped like the one that exposed the bug: a folder named `cache`
/// nested two levels down, alongside content that must never be offered.
fn scan_fixture(root: &str) -> Entry {
    dir(
        root,
        vec![
            dir(
                &format!(r"{root}\project"),
                vec![
                    dir(&format!(r"{root}\project\cache"), vec![file(&format!(r"{root}\project\cache\blob"), 12_000_000)]),
                    dir(&format!(r"{root}\project\src"), vec![file(&format!(r"{root}\project\src\main.rs"), 11_000_000)]),
                ],
            ),
            dir(&format!(r"{root}\media"), vec![file(&format!(r"{root}\media\clip.mp4"), 14_000_000)]),
        ],
    )
}

fn find_entry<'a>(e: &'a Entry, path: &str) -> Option<&'a Entry> {
    match e {
        Entry::Dir { path: p, children, .. } => {
            if p == path {
                return Some(e);
            }
            children.iter().find_map(|c| find_entry(c, path))
        },
        _ => None,
    }
}

#[test]
fn scan_records_recoverable_space_for_every_folder() {
    let root = scan_fixture(r"C:\Users\me\AppData\Local\Temp\storage doctor scan measure test");
    let outcome = scan(&vec![root]);

    let find = |name: &str| {
        outcome.folders.iter().find(|f| f.name == name).unwrap_or_else(|| {
            panic!("{name} was not recorded; got {:?}", outcome.folders.iter().map(|f| &f.name).collect::<Vec<_>>())
        })
    };

    let project = find("project");
    assert_eq!(project.size_bytes, 23_000_000);
    assert_eq!(project.recoverable_bytes, 12_000_000, "the cache folder nested inside it should be reclaimable");

    // A folder that is itself disposable counts in full.
    let cache = find("cache");
    assert_eq!(cache.recoverable_bytes, cache.size_bytes);

    // Nothing here is disposable, so the row must offer no cleanup at all.
    assert_eq!(find("media").recoverable_bytes, 0);
}

#[test]
fn scanned_figure_matches_a_live_measurement() {
    let root_path = r"C:\Users\me\AppData\Local\Temp\storage doctor scan agreement test";
    let outcome = scan(&vec![scan_fixture(root_path)]);
    let root = scan_fixture(root_path);

    for recorded in &outcome.folders {
        let live = measure_dir(find_entry(&root, &recorded.path).unwrap());
        assert_eq!(
            recorded.recoverable_bytes, live.recoverable_bytes,
            "{} was scanned as {} recoverable but measures {} live",
            recorded.path, recorded.recoverable_bytes, live.recoverable_bytes
        );
        assert_eq!(recorded.size_bytes, live.size_bytes, "{}", recorded.path);
    }
}
