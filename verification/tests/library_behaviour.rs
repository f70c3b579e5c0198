use storage_doctor::apps::{app_report, app_specs, dir_stats, MeasuredLocation};
use storage_doctor::classify::{classify, safety};
use storage_doctor::cleaner::{measure_dir, Entry, Measure};
use storage_doctor::commands::{
    browse_listing, check_external_url, delete_action, record_attempt, DeleteAction, drive_root, explorer_argument, finish_search, matching_apps, name_matches,
    search_descends, SearchResultItem, NOT_A_WEB_URL,
};
use storage_doctor::dupes::{after_hashing, first_jobs, hashed_job, hash_groups, size_groups, ContentHasher, HashJob, HashOutcome, PREFIX_LEN};
use storage_doctor::order::order_desc;
use storage_doctor::recommendations::{
    candidate_specs, old_installers, old_installers_at, recommendation_rows, Candidate, InstallerFile,
};
use storage_doctor::scanner::system_time_to_rfc3339;
use storage_doctor::shell::{command_line, deletable_given, is_registered};
use storage_doctor::thumbs::{app_icon_source, best_exe, icon_choice_exec, bitmap_size, icon_folder, png_data_uri, png_from_bgra, ExeCandidate};
use storage_doctor::uninstall::{
    base_name, choose_candidate, in_path_order, command_candidates, force_report, is_known_process, largest_leftovers_first, norm, outermost_paths, shortcut_matches,
    split_command_line_probed, uninstall_command, uninstall_command_given, ForceChecks, InstalledApp, Leftover, NO_UNINSTALLER, STEP_EDGE, STEP_PROCESSES,
    UNPARSEABLE_UNINSTALLER,
};
use storage_doctor::winpath::path_starts_with;

fn file(path: &str, size: u64) -> Entry {
    Entry::File { path: path.to_string(), size, modified: String::new() }
}

fn dir(path: &str, children: Vec<Entry>) -> Entry {
    Entry::Dir { path: path.to_string(), readable: true, children }
}

fn installer(path: &str, size_bytes: u64, modified_at: &str) -> InstallerFile {
    InstallerFile { path: path.to_string(), size_bytes, modified_at: modified_at.to_string() }
}

/// 2024-07-01T00:00:00Z.
const JULY_2024: (i64, u32) = (1_719_792_000, 0);

#[test]
fn old_installers_keep_only_files_older_than_the_cutoff() {
    let files = vec![
        installer(r"C:\Users\me\Downloads\old.exe", 100, "2020-01-01T00:00:00Z"),
        installer(r"C:\Users\me\Downloads\recent.msi", 50, "2024-06-01T00:00:00+00:00"),
        installer(r"C:\Users\me\Downloads\unknown.iso", 7, "not a date"),
        // 2024-01-02T23:59:59Z: one second before the cutoff.
        installer(r"C:\Users\me\Downloads\edge-old.exe", 3, "2024-01-03T00:59:59+01:00"),
        // 2024-01-03T00:59:59Z: after the cutoff.
        installer(r"C:\Users\me\Downloads\edge-new.exe", 4, "2024-01-02T23:59:59-01:00"),
    ];
    let c = old_installers_at(&files, JULY_2024).expect("two files are old");
    assert_eq!(c.id, "old-installers");
    assert_eq!(c.name, "Old Installers in Downloads");
    assert_eq!(
        c.description,
        "2 installer/ISO file(s) in Downloads not modified in over 6 months. Delete them if no longer required."
    );
    assert_eq!(c.recoverable_bytes, 103);
    assert_eq!(c.risk, "medium");
    assert!(!c.recommended);
    assert_eq!(c.paths, vec![r"C:\Users\me\Downloads\old.exe", r"C:\Users\me\Downloads\edge-old.exe"]);
}

#[test]
fn no_old_installers_means_no_recommendation() {
    let files = vec![installer(r"C:\Users\me\Downloads\recent.msi", 50, "2024-06-01T00:00:00Z")];
    assert!(old_installers_at(&files, JULY_2024).is_none());
    assert!(old_installers_at(&Vec::new(), JULY_2024).is_none());
}

#[test]
fn installers_from_the_last_century_are_old_today() {
    let files = vec![installer(r"C:\Users\me\Downloads\setup.exe", 10, "1999-12-31T23:59:59Z")];
    let c = old_installers(&files).expect("a file from 1999 is old");
    assert_eq!(c.recoverable_bytes, 10);
}

fn candidate(id: &str, bytes: u64, paths: Vec<&str>) -> Candidate {
    Candidate {
        id: id.to_string(),
        name: format!("{id} name"),
        description: format!("{id} description"),
        recoverable_bytes: bytes,
        risk: "low".to_string(),
        recommended: true,
        paths: paths.into_iter().map(|p| p.to_string()).collect(),
    }
}

#[test]
fn total_recoverable_leaves_out_ignored_recommendations() {
    let candidates = vec![
        candidate("npm-cache", 10, vec![r#"C:\a"b"#]),
        candidate("yarn-cache", 5, vec![]),
        candidate("chrome-cache", 7, vec![r"C:\x", r"C:\y"]),
    ];
    let (rows, total) = recommendation_rows(&candidates, &vec!["yarn-cache".to_string()]);
    assert_eq!(total, 17);
    assert_eq!(rows.len(), 3);
    assert!(!rows[0].ignored && rows[1].ignored && !rows[2].ignored);
    assert_eq!(rows[0].paths_json, r#"["C:\\a\"b"]"#);
    assert_eq!(rows[1].paths_json, "[]");
    assert_eq!(rows[2].paths_json, r#"["C:\\x","C:\\y"]"#);
    assert_eq!(rows[2].recoverable_bytes, 7);
}

#[test]
fn the_recommendation_table_is_complete() {
    let specs = candidate_specs();
    assert_eq!(specs.len(), 19);
    assert_eq!(specs[0].id, "windows-temp");
    assert_eq!(specs[18].id, "adobe-media-cache");
}

#[test]
fn lowercasing_covers_unicode() {
    assert!(name_matches("Google CHROME", "chrome"));
    assert!(name_matches("ÄPFEL Viewer", "äpfel"));
    assert!(!name_matches("Firefox", "chrome"));
}

fn app(name: &str, location: Option<&str>, bytes: u64) -> InstalledApp {
    InstalledApp {
        name: name.to_string(),
        version: String::new(),
        publisher: String::new(),
        install_location: location.map(|l| l.to_string()),
        estimated_bytes: bytes,
        uninstall_string: None,
        display_icon: None,
    }
}

#[test]
fn app_search_results_match_names_case_insensitively() {
    let apps = vec![
        app("Google Chrome", Some(r"C:\Program Files\Google\Chrome"), 500),
        app("Firefox", None, 300),
        app("Chrome Remote Desktop", None, 20),
    ];
    let found = matching_apps(&apps, "chrome");
    assert_eq!(found.len(), 2);
    assert_eq!(found[0].kind, "app");
    assert_eq!(found[0].name, "Google Chrome");
    assert_eq!(found[0].path, r"C:\Program Files\Google\Chrome");
    assert_eq!(found[0].size_bytes, 500);
    assert_eq!(found[1].name, "Chrome Remote Desktop");
    assert_eq!(found[1].path, "");
}

#[test]
fn app_search_results_are_capped() {
    let apps: Vec<InstalledApp> = (0..30).map(|i| app(&format!("Tool {i}"), None, i)).collect();
    let found = matching_apps(&apps, "tool");
    assert_eq!(found.len(), 20);
    assert_eq!(found[19].name, "Tool 19");
}

#[test]
fn sha256_hex_digest_of_known_input() {
    let mut h = ContentHasher::new();
    h.update(b"ab");
    h.update(b"c");
    assert_eq!(h.finish(), "ba7816bf8f01cfea414140de5dae2223b00361a396177a9cb410ff61f20015ad");
}

#[test]
fn png_encoding_and_data_uri() {
    let png = png_from_bgra(1, 1, &vec![0, 0, 255, 255]).expect("a one-pixel image encodes");
    assert_eq!(&png[..8], &[137, 80, 78, 71, 13, 10, 26, 10]);
    assert!(png_from_bgra(0, 1, &vec![]).is_none());
    assert_eq!(png_data_uri(&vec![1, 2, 3]), "data:image/png;base64,AQID");
}

#[test]
fn largest_first_keeps_ties_in_order() {
    assert_eq!(order_desc(&vec![3, 9, 1, 9]), vec![1, 3, 0, 2]);
}

#[test]
fn browse_totals_equal_the_folder_measurement() {
    let base = r"C:\Users\me\Stuff";
    let children = || {
        vec![
            dir(&format!(r"{base}\Cache"), vec![file(&format!(r"{base}\Cache\blob"), 2_000_000)]),
            file(&format!(r"{base}\a.log"), 600_000),
            file(&format!(r"{base}\b.txt"), 1_000_000),
        ]
    };
    let listing = browse_listing(base, &children());
    let measured = measure_dir(&dir(base, children()));
    assert_eq!(listing.total_bytes, measured.size_bytes);
    assert_eq!(listing.total_files, measured.file_count);
    assert_eq!(listing.total_recoverable, measured.recoverable_bytes);
    assert_eq!(listing.total_recoverable, 2_600_000);
    assert!(listing.complete);
}

#[test]
fn safety_agrees_with_classify() {
    for (path, is_dir) in [
        (r"C:\Users\me\AppData\Local\Temp", true),
        (r"C:\Windows\WinSxS", true),
        (r"C:\Users\me\notes.log", false),
        (r"C:\Users\me\Documents", true),
    ] {
        assert_eq!(safety(path, is_dir), classify(path, is_dir).map(|c| c.safety));
    }
    assert_eq!(safety(r"C:\Users\me\AppData\Local\Temp", true).as_deref(), Some("safe"));
}

#[test]
fn folder_stats_skip_links_and_unreadable_folders() {
    let tree = dir(
        r"C:\data",
        vec![
            file(r"C:\data\a.bin", 10),
            Entry::Link,
            Entry::Unknown,
            Entry::Dir { path: r"C:\data\locked".to_string(), readable: false, children: vec![file(r"C:\data\locked\x", 99)] },
            dir(r"C:\data\sub", vec![file(r"C:\data\sub\b.bin", 5)]),
        ],
    );
    assert_eq!(dir_stats(&tree), (15, 2));
    assert_eq!(dir_stats(&file(r"C:\data\a.bin", 10)), (0, 0));
}

fn location(label: &str, path: &str, bytes: u64) -> MeasuredLocation {
    MeasuredLocation { label: label.to_string(), path: path.to_string(), bytes }
}

#[test]
fn app_total_counts_caches_inside_data_folders_once() {
    let roots = vec![location("Data", r"C:\L\Google\Chrome", 1000)];
    let caches = vec![
        location("Cache", r"C:\L\Google\Chrome\User Data\Default\Cache", 300),
        location("Shader Cache", r"C:\L\Other\ShaderCache", 200),
    ];
    let report = app_report("Google Chrome", &roots, &caches).expect("a data folder was found");
    assert_eq!(report.total_bytes, 1200);
    assert_eq!(report.recoverable_bytes, 500);
    assert_eq!(report.status, "analyzed");
    assert_eq!(report.components.len(), 3);
    assert!(!report.components[0].recoverable);
    assert!(report.components[1].recoverable && report.components[2].recoverable);
    assert!(app_report("Nothing", &Vec::new(), &caches).is_none());
}

#[test]
fn app_recoverable_never_exceeds_its_total() {
    let roots = vec![location("Data", r"C:\L\npm-cache", 100)];
    let caches = vec![location("Cache", r"C:\L\npm-cache", 300)];
    let report = app_report("npm", &roots, &caches).unwrap();
    assert_eq!(report.total_bytes, 100);
    assert_eq!(report.recoverable_bytes, 100);
}

#[test]
fn the_app_table_is_complete() {
    let specs = app_specs();
    assert_eq!(specs.len(), 17);
    assert_eq!(specs[0].name, "Google Chrome");
    assert_eq!(specs[16].name, "Adobe Creative Cloud");
}

#[test]
fn paths_start_with_whole_components() {
    assert!(path_starts_with(r"C:\a\b", r"C:\a"));
    assert!(path_starts_with(r"C:\a", r"C:\a\"));
    assert!(path_starts_with("C:/a/b", r"C:\a"));
    assert!(!path_starts_with(r"C:\ab", r"C:\a"));
    assert!(!path_starts_with(r"C:\a", r"C:\a\b"));
}

#[test]
fn leftovers_are_reported_once_and_outermost_only() {
    let found: Vec<String> =
        [r"C:\a\b", r"C:\a", r"C:\c", r"C:\a\", r"D:\c"].iter().map(|s| s.to_string()).collect();
    assert_eq!(outermost_paths(&found), vec![r"C:\a", r"C:\c", r"D:\c"]);
}

#[test]
fn leftovers_are_listed_largest_first() {
    let found = vec![
        Leftover { path: "a".to_string(), size_bytes: 5 },
        Leftover { path: "b".to_string(), size_bytes: 50 },
        Leftover { path: "c".to_string(), size_bytes: 5 },
    ];
    let sorted = largest_leftovers_first(found);
    let paths: Vec<&str> = sorted.iter().map(|l| l.path.as_str()).collect();
    assert_eq!(paths, vec!["b", "a", "c"]);
}

#[test]
fn icon_source_falls_back_in_order() {
    // The DisplayIcon file does not exist: what the install folder gave wins.
    assert_eq!(
        app_icon_source(Some(r"C:\No Such Dir\app.exe,0"), Some(r"C:\Apps\app.exe".to_string()), None),
        Some(r"C:\Apps\app.exe".to_string())
    );
    assert_eq!(app_icon_source(None, None, None), None);
    // A missing uninstaller gives no icon either.
    assert_eq!(app_icon_source(None, None, Some(r"C:\No Such Dir\uninstall.exe /S")), None);
}

#[test]
fn uninstall_command_errors() {
    assert_eq!(uninstall_command("   ").unwrap_err(), NO_UNINSTALLER);
    assert_eq!(uninstall_command(r#""" /S"#).unwrap_err(), UNPARSEABLE_UNINSTALLER);
    let (program, _) = uninstall_command("MsiExec.exe /I{20C01991-CCD1-2C06-7A9A-B10A9B4AF807}").unwrap();
    assert_eq!(program, "msiexec.exe");
    // A bare command is resolved by the shell, whatever the disk holds.
    assert_eq!(uninstall_command("CMD /C x").unwrap(), ("CMD".to_string(), "/C x".to_string()));
}

#[test]
fn search_skips_system_folders() {
    assert!(!search_descends("winsxs"));
    assert!(!search_descends("$recycle.bin"));
    assert!(search_descends("documents"));
}

#[test]
fn drive_roots_and_explorer_arguments() {
    assert_eq!(drive_root("D:"), r"D:\");
    assert_eq!(explorer_argument(r"C:\Users\me", true), r#""C:\Users\me""#);
    assert_eq!(explorer_argument(r"C:\Users\me\a.txt", false), r#"/select,"C:\Users\me\a.txt""#);
}

#[test]
fn only_web_links_are_opened() {
    assert!(check_external_url("https://example.com").is_ok());
    assert!(check_external_url("http://example.com").is_ok());
    assert_eq!(check_external_url(r"file:///C:/Windows").unwrap_err(), NOT_A_WEB_URL);
}

#[test]
fn context_menu_registration_is_recognised() {
    let exe = r"C:\Program Files\Storage Doctor\storage-doctor.exe";
    let registered = command_line(exe);
    assert!(is_registered(Some(&registered), Some(exe)));
    assert!(!is_registered(Some(&registered), Some(r"D:\other.exe")));
    assert!(!is_registered(None, Some(exe)));
    assert!(!is_registered(Some(&registered), None));
}

#[test]
fn bitmap_sizes_are_bounded() {
    assert_eq!(bitmap_size(32, -32, 64), Some((32, 32)));
    assert_eq!(bitmap_size(0, 32, 64), None);
    assert_eq!(bitmap_size(32, 0, 64), None);
    assert_eq!(bitmap_size(513, 10, 64), None);
    assert_eq!(bitmap_size(512, 512, 64), Some((512, 512)));
}

#[test]
fn install_folders_are_trimmed_and_unquoted() {
    assert_eq!(icon_folder(r#"  "C:\Program Files\App"  "#), r"C:\Program Files\App");
}

#[test]
fn the_best_executable_matches_the_folder_name() {
    let candidates = vec![
        ExeCandidate { file_name: "unins000.exe".to_string(), size: 9_000_000 },
        ExeCandidate { file_name: "helper.exe".to_string(), size: 5_000_000 },
        ExeCandidate { file_name: "Audacity.exe".to_string(), size: 1_000_000 },
        ExeCandidate { file_name: "readme.txt".to_string(), size: 50_000_000 },
    ];
    assert_eq!(best_exe("Audacity", &candidates), Some(2));
    assert_eq!(best_exe("Other", &candidates), Some(1));
    assert_eq!(best_exe("Other", &vec![ExeCandidate { file_name: "setup.exe".to_string(), size: 1 }]), None);
}

#[test]
fn names_are_normalised_and_versions_dropped() {
    assert_eq!(norm("Google-Chrome 2!"), "googlechrome2");
    assert_eq!(base_name("Foo 2.3.1 (x64)"), "Foo");
    assert_eq!(base_name("Audacity v3.4 64-bit"), "Audacity");
}

#[test]
fn shortcuts_and_processes_of_an_app_are_recognised() {
    let variants = vec!["audacity".to_string()];
    assert!(shortcut_matches(r"C:\Users\me\Desktop\Audacity.lnk", &variants));
    assert!(!shortcut_matches(r"C:\Users\me\Desktop\Audacity.exe", &variants));
    assert!(!shortcut_matches(r"C:\Users\me\Desktop\Other.lnk", &variants));
    let known = vec!["chrome.exe".to_string()];
    assert!(is_known_process("CHROME.EXE", &known));
    assert!(!is_known_process("firefox.exe", &known));
}

#[test]
fn a_force_uninstall_is_complete_once_registry_and_folder_are_gone() {
    let checks = ForceChecks {
        processes_running: false,
        edge_setup_present: true,
        files_gone: true,
        registry_gone: true,
        shortcuts_gone: false,
        install_dir_exists: false,
    };
    let report = force_report(&checks, true);
    assert!(report.complete);
    assert_eq!(report.steps.len(), 5);
    assert_eq!(report.steps[0].label, STEP_PROCESSES);
    assert!(report.steps[0].ok);
    assert_eq!(report.steps[1].label, STEP_EDGE);
    assert!(!report.steps[1].ok);
    assert!(!report.steps[4].ok);
    assert_eq!(force_report(&checks, false).steps.len(), 4);
    let stuck = ForceChecks { install_dir_exists: true, ..checks };
    assert!(!force_report(&stuck, false).complete);
}

#[test]
fn file_search_results_are_largest_first_and_capped() {
    let found: Vec<SearchResultItem> = (0..600u64)
        .map(|i| SearchResultItem { kind: "file".to_string(), name: format!("f{i}"), path: format!(r"C:\f{i}"), size_bytes: i % 7 })
        .collect();
    let out = finish_search(&found);
    assert_eq!(out.len(), 500);
    assert!(out.windows(2).all(|w| w[0].size_bytes >= w[1].size_bytes));
    assert_eq!(out[0].size_bytes, 6);
    assert_eq!(out[0].name, "f6");
}

#[test]
fn probed_split_takes_the_longest_existing_prefix() {
    let line = r"C:\Apps\setup.exe files\uninst.exe /S";
    let candidates = command_candidates(line);
    assert_eq!(
        candidates,
        vec![line.to_string(), r"C:\Apps\setup.exe".to_string(), r"C:\Apps\setup.exe files\uninst.exe".to_string()]
    );
    let answers = vec![false, true, true];
    assert_eq!(choose_candidate(line, &answers), Some(2));
    assert_eq!(
        split_command_line_probed(line, &answers),
        (r"C:\Apps\setup.exe files\uninst.exe".to_string(), "/S".to_string())
    );
    let only_short = vec![false, true, false];
    assert_eq!(choose_candidate(line, &only_short), Some(1));
    assert_eq!(
        split_command_line_probed(line, &only_short),
        (r"C:\Apps\setup.exe".to_string(), r"files\uninst.exe /S".to_string())
    );
    let whole = vec![true, true, true];
    assert_eq!(choose_candidate(line, &whole), Some(0));
    assert_eq!(split_command_line_probed(line, &whole), (line.to_string(), String::new()));
    let none = vec![false, false, false];
    assert_eq!(choose_candidate(line, &none), None);
    assert_eq!(
        split_command_line_probed(line, &none),
        (r"C:\Apps\setup.exe".to_string(), r"files\uninst.exe /S".to_string())
    );
}

#[test]
fn uninstall_command_given_reports_a_missing_program() {
    let line = r"C:\Gone\uninst.exe /S";
    let stale = uninstall_command_given(line, Some(1), false);
    let message = stale.unwrap_err();
    assert!(message.contains("no longer on disk"));
    assert!(message.contains(line));
    assert_eq!(
        uninstall_command_given(line, Some(1), true),
        Ok((r"C:\Gone\uninst.exe".to_string(), "/S".to_string()))
    );
    assert_eq!(uninstall_command_given("uninst.exe /S", None, false), Ok(("uninst.exe".to_string(), "/S".to_string())));
    assert_eq!(uninstall_command_given("   ", None, true), Err(NO_UNINSTALLER.to_string()));
}

#[test]
fn icon_choice_follows_the_disk_answers() {
    let d = Some(r"C:\A\a.ico".to_string());
    let i = Some(r"C:\A\a.exe".to_string());
    let p = Some(r"C:\A\uninst.exe".to_string());
    assert_eq!(icon_choice_exec(d.clone(), true, i.clone(), p.clone(), true), d);
    assert_eq!(icon_choice_exec(d.clone(), false, i.clone(), p.clone(), true), i);
    assert_eq!(icon_choice_exec(d.clone(), false, None, p.clone(), true), p);
    assert_eq!(icon_choice_exec(d, false, None, p, false), None);
    assert_eq!(icon_choice_exec(None, true, None, None, true), None);
}

#[test]
fn rfc3339_of_epoch_parts() {
    assert_eq!(system_time_to_rfc3339(0, 0), Some("1970-01-01T00:00:00+00:00".to_string()));
    assert_eq!(system_time_to_rfc3339(1_700_000_000, 500_000_000), Some("2023-11-14T22:13:20.500+00:00".to_string()));
    assert_eq!(system_time_to_rfc3339(-1, 0), Some("1969-12-31T23:59:59+00:00".to_string()));
    assert_eq!(system_time_to_rfc3339(i64::MAX, 0), None);
}

#[test]
fn deletable_is_a_file_or_a_folder() {
    assert!(deletable_given(true, false));
    assert!(deletable_given(false, true));
    assert!(!deletable_given(false, false));
}

fn hashes(v: &[Option<&str>]) -> Vec<Option<String>> {
    v.iter().map(|h| h.map(|x| x.to_string())).collect()
}

#[test]
fn size_groups_in_first_appearance_order_without_empty_files() {
    let sizes = vec![100, 0, 7, 100, 5, 0, 5, 9, 100];
    assert_eq!(size_groups(&sizes), vec![vec![0, 3, 8], vec![4, 6]]);
    assert!(size_groups(&vec![1, 2, 3]).is_empty());
}

#[test]
fn hash_groups_skip_unreadable_files() {
    let h = hashes(&[Some("aa"), None, Some("bb"), Some("aa"), None, Some("bb"), Some("cc")]);
    assert_eq!(hash_groups(&h), vec![vec![0, 3], vec![2, 5]]);
}

#[test]
fn after_hashing_asks_for_full_hashes_of_long_files_only() {
    let h = hashes(&[Some("aa"), Some("bb"), Some("aa")]);
    match &after_hashing(PREFIX_LEN + 1, true, &h)[..] {
        [HashOutcome::HashInFull { members }] => assert_eq!(members, &vec![0, 2]),
        _ => panic!("expected one full-hash job"),
    }
    for (size, prefix_pass) in [(PREFIX_LEN, true), (PREFIX_LEN + 1, false), (10, false)] {
        match &after_hashing(size, prefix_pass, &h)[..] {
            [HashOutcome::Identical { hash, members }] => {
                assert_eq!(hash, "aa");
                assert_eq!(members, &vec![0, 2]);
            }
            _ => panic!("expected one group of identical files"),
        }
    }
}

#[test]
fn duplicate_jobs_map_back_to_the_files_found() {
    let sizes = vec![PREFIX_LEN + 10, 3, PREFIX_LEN + 10, 3, PREFIX_LEN + 10, 3];
    let jobs = first_jobs(&sizes);
    assert_eq!(jobs.len(), 2);
    assert_eq!((jobs[0].size, jobs[0].prefix_pass, jobs[0].files.clone()), (PREFIX_LEN + 10, true, vec![0, 2, 4]));
    assert_eq!((jobs[1].size, jobs[1].prefix_pass, jobs[1].files.clone()), (3, true, vec![1, 3, 5]));

    // Long files whose prefixes match go on to a full hash.
    let (next, found) = hashed_job(&jobs[0], &hashes(&[Some("p"), Some("q"), Some("p")]));
    assert!(found.is_empty());
    assert_eq!(next.len(), 1);
    assert_eq!((next[0].size, next[0].prefix_pass, next[0].files.clone()), (PREFIX_LEN + 10, false, vec![0, 4]));
    let (later, found) = hashed_job(&next[0], &hashes(&[Some("f"), Some("f")]));
    assert!(later.is_empty());
    assert_eq!(found.len(), 1);
    assert_eq!((found[0].hash.as_str(), found[0].size, found[0].files.clone()), ("f", PREFIX_LEN + 10, vec![0, 4]));

    // Short files are identical once their prefixes (the whole file) match.
    let (next, found) = hashed_job(&jobs[1], &hashes(&[Some("x"), None, Some("x")]));
    assert!(next.is_empty());
    assert_eq!(found.len(), 1);
    assert_eq!((found[0].hash.as_str(), found[0].size, found[0].files.clone()), ("x", 3, vec![1, 5]));

    let lone = HashJob { size: 3, prefix_pass: false, files: vec![7, 8] };
    let (next, found) = hashed_job(&lone, &hashes(&[Some("x"), Some("y")]));
    assert!(next.is_empty() && found.is_empty());
}

#[test]
fn delete_actions_follow_the_path_and_the_mode() {
    match delete_action(r"D:\$RECYCLE.BIN", true, true, true) {
        DeleteAction::EmptyRecycleBin { drive } => assert_eq!(drive, "D"),
        _ => panic!("the Recycle Bin is emptied"),
    }
    assert!(matches!(delete_action(r"C:\gone", false, false, true), DeleteAction::Skip));
    assert!(matches!(delete_action(r"C:\dir", true, true, true), DeleteAction::RemoveFolder));
    assert!(matches!(delete_action(r"C:\f.txt", true, false, true), DeleteAction::RemoveFile));
    assert!(matches!(delete_action(r"C:\f.txt", true, false, false), DeleteAction::Recycle));
    assert!(matches!(delete_action(r"C:\dir", true, true, false), DeleteAction::Recycle));
}

#[test]
fn attempts_are_recorded_as_removals_or_failures() {
    let mut removals = Vec::new();
    let mut failed = Vec::new();
    let before = Measure { size_bytes: 100, file_count: 4, recoverable_bytes: 60 };
    let after = Measure { size_bytes: 10, file_count: 1, recoverable_bytes: 0 };
    record_attempt(&mut removals, &mut failed, &r"C:\Temp".to_string(), before, Some((after, false)));
    record_attempt(&mut removals, &mut failed, &r"C:\locked".to_string(), before, None);
    assert_eq!(failed, vec![r"C:\locked".to_string()]);
    assert_eq!(removals.len(), 1);
    let r = &removals[0];
    assert_eq!((r.path.as_str(), r.bytes, r.files, r.recoverable, r.vanished), (r"C:\Temp", 90, 3, 60, false));
}

#[test]
fn leftover_candidates_go_in_path_order() {
    let paths: Vec<String> = ["b x", "a/", "b/x", "a", "b/x"].iter().map(|s| s.to_string()).collect();
    let expected: Vec<String> = ["a/", "a", "b/x", "b/x", "b x"].iter().map(|s| s.to_string()).collect();
    assert_eq!(in_path_order(&paths), expected);
    assert!(in_path_order(&Vec::new()).is_empty());
}

#[test]
fn verdict_ignores_letter_case() {
    for (path, is_dir) in [
        (r"C:\Windows\Temp", true),
        (r"C:\Users\Me\AppData\Local\Temp", true),
        (r"C:\pagefile.sys", false),
        (r"C:\Users\Me\Downloads\Setup.EXE", false),
    ] {
        let lower = path.to_lowercase();
        let a = classify(path, is_dir).map(|c| (c.category, c.safety, c.explanation));
        let b = classify(&lower, is_dir).map(|c| (c.category, c.safety, c.explanation));
        assert_eq!(a, b, "{path}");
    }
}
