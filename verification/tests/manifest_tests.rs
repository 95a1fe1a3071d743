use recovery_backup_core::manifest::{parse_manifest, parse_manifest_line, ManifestRecord};

fn record(path: &str, length: u64) -> ManifestRecord {
    ManifestRecord { relative_path: path.to_string(), length }
}

#[test]
fn parses_both_separator_conventions() {
    let text = "Bedrock level/db/MANIFEST-000001:128, Bedrock level\\db\\000003.log:512";
    let records = parse_manifest(text, "Bedrock level");
    assert_eq!(
        records,
        vec![record("db/MANIFEST-000001", 128), record("db\\000003.log", 512)]
    );
}

#[test]
fn empty_text_has_no_records() {
    assert_eq!(parse_manifest("", "World"), vec![]);
    assert_eq!(parse_manifest("\n\n", "World"), vec![]);
    assert_eq!(parse_manifest("   \n", "World"), vec![]);
}

#[test]
fn foreign_roots_are_skipped() {
    let text = "Other/db/a.ldb:10,World/db/b.ldb:20\nElse/db/c.ldb:30\nWorld/db/d.log:40\n";
    let records = parse_manifest(text, "World");
    assert_eq!(records, vec![record("db/b.ldb", 20), record("db/d.log", 40)]);
}

#[test]
fn missing_length_is_zero() {
    assert_eq!(parse_manifest_line("World/db/a.ldb", "World"), vec![record("db/a.ldb", 0)]);
    assert_eq!(parse_manifest_line("World/db/a.ldb:", "World"), vec![record("db/a.ldb", 0)]);
}

#[test]
fn unreadable_length_is_zero() {
    assert_eq!(parse_manifest_line("World/db/a:12x", "World"), vec![record("db/a", 0)]);
    assert_eq!(parse_manifest_line("World/db/a:-3", "World"), vec![record("db/a", 0)]);
    assert_eq!(parse_manifest_line("World/db/a:+", "World"), vec![record("db/a", 0)]);
    assert_eq!(parse_manifest_line("World/db/a:1 2", "World"), vec![record("db/a", 0)]);
    assert_eq!(parse_manifest_line("World/db/a:12:34", "World"), vec![record("db/a", 0)]);
}

#[test]
fn length_accepts_sign_zeros_and_spaces() {
    assert_eq!(parse_manifest_line("World/db/a:+17", "World"), vec![record("db/a", 17)]);
    assert_eq!(parse_manifest_line("World/db/a: 0042 ", "World"), vec![record("db/a", 42)]);
    assert_eq!(
        parse_manifest_line("World/db/a:0000000000000000000000007", "World"),
        vec![record("db/a", 7)]
    );
}

#[test]
fn length_at_and_beyond_the_limit() {
    assert_eq!(
        parse_manifest_line("World/db/a:18446744073709551615", "World"),
        vec![record("db/a", u64::MAX)]
    );
    assert_eq!(
        parse_manifest_line("World/db/a:18446744073709551616", "World"),
        vec![record("db/a", 0)]
    );
    assert_eq!(
        parse_manifest_line("World/db/a:99999999999999999999999", "World"),
        vec![record("db/a", 0)]
    );
}

#[test]
fn length_agrees_with_the_standard_parser() {
    let fields = ["0", "7", "+7", "007", "", "+", "-1", "1e3", " 5", "18446744073709551615",
        "18446744073709551616", "٣", "12a"];
    for field in fields {
        let line = format!("W/p:{}", field);
        let expected = field.trim().parse::<u64>().unwrap_or(0);
        assert_eq!(parse_manifest_line(&line, "W"), vec![record("p", expected)], "{:?}", field);
    }
}

#[test]
fn tokens_and_paths_are_trimmed() {
    let records = parse_manifest("  World//\\db/x.log : 9 ,\tWorld/level.dat:3\r\n", "World");
    assert_eq!(records, vec![record("db/x.log", 9), record("level.dat", 3)]);
}

#[test]
fn duplicates_are_kept_in_order() {
    let records = parse_manifest("W/db/a:1,W/db/a:2\nW/db/a:3", "W");
    assert_eq!(records, vec![record("db/a", 1), record("db/a", 2), record("db/a", 3)]);
}

#[test]
fn root_alone_gives_an_empty_path() {
    assert_eq!(parse_manifest_line("World", "World"), vec![record("", 0)]);
    assert_eq!(parse_manifest_line("Worldly/db:4", "World"), vec![record("ly/db", 4)]);
}

#[test]
fn non_ascii_names_are_cut_by_characters() {
    let records = parse_manifest("世界/db/数据.ldb:77,世界/レベル.dat:5", "世界");
    assert_eq!(records, vec![record("db/数据.ldb", 77), record("レベル.dat", 5)]);
}
