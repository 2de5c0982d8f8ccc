use night_device_report::{
    check_cargo_updates, find_header, match_header, parse_listing, parse_registry_rows,
    split_at_width, CargoUpdateCheckError, ColumnWidths, Lines, ListingOutcome, SemVer,
};

fn lines(text: &[&str]) -> Vec<String> {
    text.iter().map(|l| l.to_string()).collect()
}

fn version(v: &SemVer) -> String {
    format!("{}.{}.{}", v.major, v.minor, v.patch)
}

const HASH_A: &str = "0123456789abcdef0123456789abcdef01234567";
const HASH_B: &str = "89ABCDEF0123456789abcdef0123456789abcdef";

#[test]
fn split_ascii_prefix_has_target_length() {
    let line = "hello world";
    for w in 0..=line.len() {
        let (head, tail) = split_at_width(line, w).unwrap();
        assert_eq!(head.chars().count(), w);
        assert_eq!(format!("{head}{tail}"), line);
    }
}

#[test]
fn split_ascii_past_end_fails() {
    assert!(matches!(split_at_width("abc", 4), Err(CargoUpdateCheckError::SplitAtWidth)));
}

#[test]
fn split_never_bisects_wide_char() {
    let (head, tail) = split_at_width("日本語", 2).unwrap();
    assert_eq!(head, "日");
    assert_eq!(tail, "本語");
    let (head, tail) = split_at_width("日本語", 4).unwrap();
    assert_eq!(head, "日本");
    assert_eq!(tail, "語");
    assert!(matches!(split_at_width("日本語", 3), Err(CargoUpdateCheckError::SplitAtWidth)));
    assert!(matches!(split_at_width("日本語", 1), Err(CargoUpdateCheckError::SplitAtWidth)));
}

#[test]
fn split_mixed_width_counts_columns() {
    let (head, tail) = split_at_width("a日b rest", 4).unwrap();
    assert_eq!(head, "a日b");
    assert_eq!(tail, " rest");
}

#[test]
fn header_widths_from_padding() {
    let cw = match_header("Package   Installed Latest  Needs update").unwrap();
    assert_eq!(cw, ColumnWidths { package: 10, installed: 10, latest: 8 });
}

#[test]
fn header_rejects_other_lines() {
    assert!(match_header("Package Installed Latest Needs update ").is_none());
    assert!(match_header("PackageInstalled Latest Needs update").is_none());
    assert!(match_header("Package Installed Latest").is_none());
    assert!(match_header("Updating registry 'https://github.com/rust-lang/crates.io-index'").is_none());
    assert!(match_header("").is_none());
}

#[test]
fn header_found_after_any_preceding_lines() {
    let header = "Package    Installed  Latest   Needs update";
    let expected = match_header(header).unwrap();
    for n in 0..5 {
        let mut text: Vec<String> = (0..n).map(|i| format!("banner line {i}: Package")).collect();
        text.push(header.to_string());
        text.push("after".to_string());
        let mut cursor = Lines::new(text);
        assert_eq!(find_header(&mut cursor).unwrap(), expected);
    }
}

#[test]
fn missing_header_fails() {
    let mut cursor = Lines::new(lines(&["Updating registry", "nothing here"]));
    assert!(matches!(find_header(&mut cursor), Err(CargoUpdateCheckError::MissingTableHeader)));
}

#[test]
fn registry_table_keeps_rows_needing_update() {
    let text = "Package   Installed Latest  Needs update\nfoo       v1.0.0    v1.2.0  Yes\nbar       v2.0.0    v2.0.0  No\n\n";
    let mut cursor = Lines::new(text.lines().map(String::from).collect());
    let cw = find_header(&mut cursor).unwrap();
    let table = parse_registry_rows(&mut cursor, cw).unwrap();
    assert_eq!(table.len(), 1);
    let foo = table.get("foo").unwrap();
    assert_eq!(version(&foo.installed), "1.0.0");
    assert_eq!(version(&foo.latest), "1.2.0");
    assert!(table.get("bar").is_none());
    assert!(cursor.is_done());
}

#[test]
fn latest_annotation_is_ignored() {
    let text = lines(&[
        "Package   Installed Latest           Needs update",
        "foo       v1.0.0    v1.2.0 (yanked)  Yes",
    ]);
    let mut cursor = Lines::new(text);
    let cw = find_header(&mut cursor).unwrap();
    let table = parse_registry_rows(&mut cursor, cw).unwrap();
    let foo = table.get("foo").unwrap();
    assert_eq!(version(&foo.latest), "1.2.0");
}

#[test]
fn invalid_flag_fails() {
    let text = lines(&[
        "Package   Installed Latest  Needs update",
        "foo       v1.0.0    v1.2.0  Maybe",
    ]);
    let mut cursor = Lines::new(text);
    let cw = find_header(&mut cursor).unwrap();
    assert!(matches!(parse_registry_rows(&mut cursor, cw), Err(CargoUpdateCheckError::NeedsUpdate)));
}

#[test]
fn subcommand_missing_is_unavailable() {
    let r = check_cargo_updates(ListingOutcome::Exited(Some(101)));
    assert!(matches!(r, Ok(None)));
}

#[test]
fn cargo_missing_is_unavailable() {
    assert!(matches!(check_cargo_updates(ListingOutcome::NotFound), Ok(None)));
}

#[test]
fn other_exit_is_an_error() {
    assert!(matches!(
        check_cargo_updates(ListingOutcome::Exited(Some(1))),
        Err(CargoUpdateCheckError::CommandExit(Some(1)))
    ));
    assert!(matches!(
        check_cargo_updates(ListingOutcome::Exited(None)),
        Err(CargoUpdateCheckError::CommandExit(None))
    ));
}

#[test]
fn wide_name_splits_at_display_column() {
    let text = lines(&[
        "Package   Installed Latest  Needs update",
        "日abcdefg v1.0.0    v1.1.0  Yes",
    ]);
    assert_eq!("日abcdefg ".chars().count(), 9);
    let mut cursor = Lines::new(text);
    let cw = find_header(&mut cursor).unwrap();
    assert_eq!(cw.package, 10);
    let table = parse_registry_rows(&mut cursor, cw).unwrap();
    let entry = table.get("日abcdefg").unwrap();
    assert_eq!(version(&entry.installed), "1.0.0");
    assert_eq!(version(&entry.latest), "1.1.0");
}

#[test]
fn generated_table_round_trips() {
    let rows = [
        ("alpha", "0.1.0", "0.2.0", true),
        ("beta", "1.0.0", "1.0.0", false),
        ("gamma-tool", "2.3.4", "3.0.0-rc.1", true),
        ("d", "0.0.1", "0.0.1", false),
    ];
    let (pw, iw, lw) = (12, 11, 13);
    let mut text = vec![format!("{:pw$}{:iw$}{:lw$}Needs update", "Package", "Installed", "Latest")];
    for (name, installed, latest, needs) in rows {
        let flag = if needs { "Yes" } else { "No" };
        text.push(format!("{name:pw$}{:iw$}{:lw$}{flag}", format!("v{installed}"), format!("v{latest}")));
    }
    text.push(String::new());
    text.push("next".to_string());
    let mut cursor = Lines::new(text);
    let cw = find_header(&mut cursor).unwrap();
    assert_eq!(cw, ColumnWidths { package: pw, installed: iw, latest: lw });
    let table = parse_registry_rows(&mut cursor, cw).unwrap();
    let names: Vec<&str> = table.entries().iter().map(|e| e.name.as_str()).collect();
    assert_eq!(names, vec!["alpha", "gamma-tool"]);
    let gamma = table.get("gamma-tool").unwrap();
    assert_eq!(version(&gamma.latest), "3.0.0");
    assert_eq!(gamma.latest.pre, "rc.1");
    assert!(!cursor.is_done());
}

#[test]
fn duplicate_needing_update_fails() {
    let text = lines(&[
        "Package   Installed Latest  Needs update",
        "foo       v1.0.0    v1.2.0  Yes",
        "foo       v1.1.0    v1.2.0  Yes",
    ]);
    let mut cursor = Lines::new(text);
    let cw = find_header(&mut cursor).unwrap();
    assert!(matches!(
        parse_registry_rows(&mut cursor, cw),
        Err(CargoUpdateCheckError::DuplicatePackage)
    ));
}

#[test]
fn duplicate_with_no_flag_is_accepted() {
    let text = lines(&[
        "Package   Installed Latest  Needs update",
        "foo       v1.0.0    v1.2.0  Yes",
        "foo       v1.2.0    v1.2.0  No",
        "bar       v1.0.0    v1.0.0  No",
        "bar       v1.0.0    v1.0.0  No",
    ]);
    let mut cursor = Lines::new(text);
    let cw = find_header(&mut cursor).unwrap();
    let table = parse_registry_rows(&mut cursor, cw).unwrap();
    assert_eq!(table.len(), 1);
    assert!(table.contains("foo"));
}

#[test]
fn missing_version_prefix_fails() {
    let text = lines(&[
        "Package   Installed Latest  Needs update",
        "foo       1.0.0     v1.2.0  Yes",
    ]);
    let mut cursor = Lines::new(text);
    let cw = find_header(&mut cursor).unwrap();
    assert!(matches!(parse_registry_rows(&mut cursor, cw), Err(CargoUpdateCheckError::VersionPrefix)));
}

#[test]
fn bad_version_fails_even_on_no_row() {
    let text = lines(&[
        "Package   Installed Latest  Needs update",
        "foo       v1.0      v1.2.0  No",
    ]);
    let mut cursor = Lines::new(text);
    let cw = find_header(&mut cursor).unwrap();
    assert!(matches!(parse_registry_rows(&mut cursor, cw), Err(CargoUpdateCheckError::SemVer(_))));
}

#[test]
fn short_row_fails_to_split() {
    let text = lines(&["Package   Installed Latest  Needs update", "foo       v1.0.0"]);
    let mut cursor = Lines::new(text);
    let cw = find_header(&mut cursor).unwrap();
    assert!(matches!(parse_registry_rows(&mut cursor, cw), Err(CargoUpdateCheckError::SplitAtWidth)));
}

fn full_listing(git_rows: &[String]) -> Vec<String> {
    let mut text = lines(&[
        "    Updating registry 'https://github.com/rust-lang/crates.io-index'",
        "",
        "Package   Installed Latest  Needs update",
        "foo       v1.0.0    v1.2.0  Yes",
        "",
    ]);
    text.push(format!("{:10}{:41}{:41}Needs update", "Package", "Installed", "Latest"));
    text.extend(git_rows.iter().cloned());
    text
}

#[test]
fn listing_reads_both_tables() {
    let text = full_listing(&[
        format!("{:10}{:41}{:41}Yes", "tool", HASH_A, HASH_B),
        format!("{:10}{:41}{:41}No", "other", HASH_B, HASH_B),
    ]);
    let (registry, git) = parse_listing(text.clone()).unwrap();
    assert_eq!(registry.len(), 1);
    assert_eq!(git.len(), 1);
    let tool = git.get("tool").unwrap();
    assert_eq!(tool.installed.bytes[0], 0x01);
    assert_eq!(tool.installed.bytes[19], 0x67);
    assert_eq!(tool.latest.bytes[0], 0x89);
    assert_eq!(tool.latest.bytes[3], 0xef);
    assert_eq!(tool.latest.bytes.len(), 20);
    let outcome = check_cargo_updates(ListingOutcome::Listed(text)).unwrap().unwrap();
    assert_eq!(outcome.0.len(), 1);
    assert_eq!(outcome.1.len(), 1);
}

#[test]
fn bad_hash_fails() {
    let text = full_listing(&[format!("{:10}{:41}{:41}Yes", "tool", "abc123", HASH_B)]);
    assert!(matches!(parse_listing(text), Err(CargoUpdateCheckError::GitHash(_))));
    let text = full_listing(&[format!("{:10}{:41}{:41}Yes", "tool", HASH_A.replace('a', "g"), HASH_B)]);
    assert!(matches!(parse_listing(text), Err(CargoUpdateCheckError::GitHash(_))));
}

#[test]
fn missing_git_header_fails() {
    let text = lines(&[
        "Package   Installed Latest  Needs update",
        "foo       v1.0.0    v1.2.0  Yes",
        "",
    ]);
    assert!(matches!(parse_listing(text), Err(CargoUpdateCheckError::MissingTableHeader)));
}

#[test]
fn duplicate_in_git_table_fails() {
    let text = full_listing(&[
        format!("{:10}{:41}{:41}Yes", "tool", HASH_A, HASH_B),
        format!("{:10}{:41}{:41}Yes", "tool", HASH_B, HASH_A),
    ]);
    assert!(matches!(parse_listing(text), Err(CargoUpdateCheckError::DuplicatePackage)));
}

#[test]
fn version_keeps_pre_release_and_build() {
    let text = lines(&[
        "Package   Installed          Latest  Needs update",
        "foo       v1.0.0-beta.2+abc  v1.2.0  Yes",
    ]);
    let mut cursor = Lines::new(text);
    let cw = find_header(&mut cursor).unwrap();
    let table = parse_registry_rows(&mut cursor, cw).unwrap();
    let foo = table.get("foo").unwrap();
    assert_eq!(version(&foo.installed), "1.0.0");
    assert_eq!(foo.installed.pre, "beta.2");
    assert_eq!(foo.installed.build, "abc");
    assert_eq!(foo.latest.pre, "");
}

#[test]
fn split_ascii_control_chars_count_one_column() {
    let (head, tail) = split_at_width("a\tb c", 2).unwrap();
    assert_eq!(head, "a\t");
    assert_eq!(tail, "b c");
}

#[test]
fn empty_table_has_no_entries() {
    let text = lines(&["Package   Installed Latest  Needs update", "", "rest"]);
    let mut cursor = Lines::new(text);
    let cw = find_header(&mut cursor).unwrap();
    let table = parse_registry_rows(&mut cursor, cw).unwrap();
    assert_eq!(table.len(), 0);
    assert!(!cursor.is_done());
}

#[test]
fn empty_listing_has_no_header() {
    assert!(matches!(parse_listing(Vec::new()), Err(CargoUpdateCheckError::MissingTableHeader)));
    assert!(matches!(
        check_cargo_updates(ListingOutcome::Listed(Vec::new())),
        Err(CargoUpdateCheckError::MissingTableHeader)
    ));
}

#[test]
fn flag_must_match_exactly() {
    let text = lines(&[
        "Package   Installed Latest  Needs update",
        "foo       v1.0.0    v1.2.0  yes",
    ]);
    let mut cursor = Lines::new(text);
    let cw = find_header(&mut cursor).unwrap();
    assert!(matches!(parse_registry_rows(&mut cursor, cw), Err(CargoUpdateCheckError::NeedsUpdate)));
}
