use recovery_backup_core::archiver::extract_arguments;
use recovery_backup_core::cleanup::{is_expired, select_expired, BackupEntry, Stamp};
use recovery_backup_core::stats::{summarise, DirectoryStats};
use recovery_backup_core::supervisor::matching_pids;
use recovery_backup_core::text::{chars_of, is_space_char};
use recovery_backup_core::upload::remote_url;

const DAY: u64 = 86_400;

fn at(secs: u64) -> Stamp {
    Stamp { secs, nanos: 0 }
}

fn entry(ext: Option<&str>, modified: Stamp) -> BackupEntry {
    BackupEntry { is_file: true, extension: ext.map(|e| e.to_string()), modified }
}

#[test]
fn cleanup_by_extension() {
    let now = at(100 * DAY);
    let entries = vec![
        entry(Some("zip"), at(90 * DAY)),
        entry(Some("zip"), at(99 * DAY)),
        entry(Some("log"), at(90 * DAY)),
    ];
    assert_eq!(select_expired(&entries, now, 7, "zip"), vec![0]);
}

#[test]
fn cleanup_with_zero_age_takes_every_matching_file() {
    let now = Stamp { secs: 1_000, nanos: 5 };
    let entries = vec![
        entry(Some("zip"), at(999)),
        entry(Some("zip"), Stamp { secs: 1_000, nanos: 4 }),
        entry(Some("zip"), at(0)),
        entry(Some("7z"), at(1)),
        entry(None, at(1)),
    ];
    assert_eq!(select_expired(&entries, now, 0, "zip"), vec![0, 1, 2]);
}

#[test]
fn cleanup_cutoff_is_strict() {
    let now = Stamp { secs: 10 * DAY, nanos: 7 };
    assert!(is_expired(Stamp { secs: 9 * DAY, nanos: 6 }, now, 1));
    assert!(!is_expired(Stamp { secs: 9 * DAY, nanos: 7 }, now, 1));
    assert!(!is_expired(Stamp { secs: 9 * DAY, nanos: 8 }, now, 1));
    assert!(!is_expired(now, now, 0));
}

#[test]
fn cleanup_with_an_age_beyond_the_epoch_takes_nothing() {
    assert!(!is_expired(at(0), at(5 * DAY), 6));
    assert!(!is_expired(at(0), at(u64::MAX), u64::MAX));
    assert!(is_expired(at(0), at(u64::MAX), 1));
}

#[test]
fn cleanup_passes_over_directories_and_other_names() {
    let now = at(100 * DAY);
    let mut folder = entry(Some("zip"), at(1));
    folder.is_file = false;
    let entries = vec![folder, entry(Some("ZIP"), at(1)), entry(Some(""), at(1)), entry(Some("zip"), at(1))];
    assert_eq!(select_expired(&entries, now, 7, "zip"), vec![3]);
    assert_eq!(select_expired(&entries, now, 7, ""), vec![2]);
    assert_eq!(select_expired(&vec![], now, 7, "zip"), vec![]);
}

#[test]
fn stats_sum_sizes_and_count_files() {
    let stats = summarise("worlds".to_string(), &vec![200, 1000, 50]);
    assert_eq!(stats, DirectoryStats { path: "worlds".to_string(), size: 1250, file_count: 3 });
    let empty = summarise("none".to_string(), &vec![]);
    assert_eq!(empty, DirectoryStats { path: "none".to_string(), size: 0, file_count: 0 });
}

#[test]
fn stats_counters_wrap() {
    let stats = summarise("big".to_string(), &vec![u64::MAX, 2, u64::MAX]);
    assert_eq!(stats.size, 0);
    assert_eq!(stats.file_count, 3);
    let mut s = DirectoryStats::empty("d".to_string());
    s.add_file(7);
    s.add_subtree(u64::MAX, 4);
    assert_eq!(s, DirectoryStats { path: "d".to_string(), size: 6, file_count: 5 });
}

#[test]
fn pids_of_a_process_table() {
    let listing = "\r\nImage Name                     PID Session Name        Session#    Mem Usage\r\n\
========================= ======== ================ =========== ============\r\n\
System Idle Process              0 Services                   0          8 K\r\n\
bedrock_server.exe            4312 Console                    1    212,004 K\r\n\
svchost.exe                    900 Services                   0     10,000 K\r\n\
bedrock_server.exe            5120 Console                    1    100,000 K\r\n";
    assert_eq!(matching_pids(listing, "bedrock_server.exe"), vec!["4312", "5120"]);
    assert_eq!(matching_pids(listing, "svchost"), vec!["900"]);
    assert_eq!(matching_pids(listing, "nothing.exe"), Vec::<String>::new());
}

#[test]
fn pids_match_on_the_first_field_only() {
    assert_eq!(matching_pids("runner 12 server.exe\n", "server.exe"), Vec::<String>::new());
    assert_eq!(matching_pids("System Idle 0\n", "Idle"), Vec::<String>::new());
    assert_eq!(matching_pids("  my-server.exe\t77  x\n", "server"), vec!["77"]);
}

#[test]
fn pids_need_a_second_field() {
    assert_eq!(matching_pids("server.exe\nserver.exe   \nserver.exe 5", "server.exe"), vec!["5"]);
    assert_eq!(matching_pids("", "server.exe"), Vec::<String>::new());
    assert_eq!(matching_pids("a 1\n\n b 2 \n", ""), vec!["1", "2"]);
}

#[test]
fn remote_url_joins_with_single_slashes() {
    assert_eq!(remote_url("https://dav/", "/backups", "w.zip"), "https://dav/backups/w.zip");
    assert_eq!(remote_url("https://dav", "backups", "w.zip"), "https://dav/backups/w.zip");
    assert_eq!(remote_url("https://dav///", "///a/b/", "w.zip"), "https://dav/a/b//w.zip");
    assert_eq!(remote_url("", "", ""), "//");
    assert_eq!(remote_url("///", "///", "n"), "//n");
}

#[test]
fn remote_url_agrees_with_trimming() {
    let samples = [("h://x/y/", "/p/q", "f"), ("/", "/", "/"), ("a/b", "c/d/", "é.zip")];
    for (base, path, name) in samples {
        let expected = format!("{}/{}/{}", base.trim_end_matches('/'), path.trim_start_matches('/'), name);
        assert_eq!(remote_url(base, path, name), expected);
    }
}

#[test]
fn archiver_arguments_join_switch_and_directory() {
    assert_eq!(
        extract_arguments("b.zip", "C:\\srv\\worlds\\level1"),
        vec!["x", "b.zip", "-oC:\\srv\\worlds\\level1", "-y"]
    );
    assert_eq!(extract_arguments("", ""), vec!["x", "", "-o", "-y"]);
}

#[test]
fn white_space_agrees_with_the_standard_library() {
    let mut code: u32 = 0;
    while code <= 0x10ffff {
        if let Some(c) = char::from_u32(code) {
            assert_eq!(is_space_char(c), c.is_whitespace(), "{:x}", code);
        }
        code += 1;
    }
    assert!(!is_space_char('\u{feff}'));
    assert!(!is_space_char('\u{200b}'));
}

#[test]
fn chars_of_keeps_every_character() {
    assert_eq!(chars_of("aé日\u{1f600}"), vec!['a', 'é', '日', '\u{1f600}']);
    assert_eq!(chars_of(""), Vec::<char>::new());
}
