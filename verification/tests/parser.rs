//! Runtime tests of the subvolume report parser.

use snapkeep::{parse_report, ReportError, SubvolumeBuilder};

/// Seconds since the Unix epoch of the civil time 2023-01-01 00:00:00.
const EPOCH_2023_01_01: i64 = 1672531200;

#[test]
fn parse_full_report() {
    let report = "root/data\n\
                  \tName: \t\tdata\n\
                  \tUUID: \t\t7f3a-11aa\n\
                  \tParent UUID: \t-\n\
                  \tCreation time: \t2023-01-01 00:00:00 +0000\n\
                  \tFlags: \t\treadonly\n\
                  \tSnapshot(s):\n\
                  \t\t\t.snapshots/data-1\n\
                  \t\t\t.snapshots/data-2\n";
    let subvol = parse_report(report).unwrap();
    assert_eq!(subvol.name, "data");
    assert_eq!(subvol.uuid, "7f3a-11aa");
    assert_eq!(subvol.creation_time, EPOCH_2023_01_01);
    assert_eq!(subvol.snapshots, vec![".snapshots/data-1", ".snapshots/data-2"]);
}

#[test]
fn parse_offset_is_not_applied() {
    // The stored time is the civil time as written; the mandatory offset is
    // parsed but never applied.
    let plus = "Name: a\nUUID: b\nCreation time: 2023-01-01 00:00:00 +0530\n";
    let minus = "Name: a\nUUID: b\nCreation time: 2023-01-01 00:00:00 -0800\n";
    assert_eq!(parse_report(plus).unwrap().creation_time, EPOCH_2023_01_01);
    assert_eq!(parse_report(minus).unwrap().creation_time, EPOCH_2023_01_01);
}

#[test]
fn parse_zero_snapshots_is_empty_list() {
    let report = "Name: a\nUUID: b\nCreation time: 2023-01-01 00:00:00 +0000\nSnapshot(s):\n";
    let subvol = parse_report(report).unwrap();
    assert!(subvol.snapshots.is_empty());
}

#[test]
fn parse_missing_uuid_reports_exactly_that_field() {
    let report = "Name: a\nCreation time: 2023-01-01 00:00:00 +0000\n";
    match parse_report(report) {
        Err(ReportError::MissingFields { name, uuid, creation_time }) => {
            assert!(!name);
            assert!(uuid);
            assert!(!creation_time);
        }
        other => panic!("expected missing-field error, got {:?}", other),
    }
}

#[test]
fn parse_empty_report_misses_everything() {
    match parse_report("") {
        Err(ReportError::MissingFields { name, uuid, creation_time }) => {
            assert!(name && uuid && creation_time);
        }
        other => panic!("expected missing-field error, got {:?}", other),
    }
}

#[test]
fn parse_bad_creation_time_fails_with_value() {
    let report = "Name: a\nUUID: b\nCreation time: 01/02/2023 10:00\n";
    match parse_report(report) {
        Err(ReportError::CreationTimeUnparsable { value, .. }) => {
            assert_eq!(value, "01/02/2023 10:00");
        }
        other => panic!("expected creation-time error, got {:?}", other),
    }
}

#[test]
fn parse_missing_offset_fails() {
    // The fixed format demands the offset; a bare date-time must not parse,
    // and no default timestamp is substituted.
    let report = "Name: a\nUUID: b\nCreation time: 2023-01-01 00:00:00\n";
    assert!(matches!(
        parse_report(report),
        Err(ReportError::CreationTimeUnparsable { .. })
    ));
}

#[test]
fn parse_snapshot_region_collects_in_order() {
    let report = "Name: a\nUUID: b\nCreation time: 2023-01-01 00:00:00 +0000\n\
                  Snapshot(s):\n\tthird/one\n\tfirst/two\n\tsecond/three\nFlags: none\n";
    let subvol = parse_report(report).unwrap();
    assert_eq!(subvol.snapshots, vec!["third/one", "first/two", "second/three"]);
}

#[test]
fn parse_property_after_region_closes_it() {
    let report = "Name: a\nUUID: b\nCreation time: 2023-01-01 00:00:00 +0000\n\
                  Snapshot(s):\n\tkept/one\nFlags: none\n\tignored/line\n";
    let subvol = parse_report(report).unwrap();
    assert_eq!(subvol.snapshots, vec!["kept/one"]);
}

#[test]
fn parse_recognised_property_keeps_region_open() {
    // A recognised property such as `Name` does not close the snapshot
    // region; only an unrecognised property does.
    let report = "UUID: b\nCreation time: 2023-01-01 00:00:00 +0000\n\
                  Snapshot(s):\n\tone\nName: late\n\ttwo\n";
    let subvol = parse_report(report).unwrap();
    assert_eq!(subvol.name, "late");
    assert_eq!(subvol.snapshots, vec!["one", "two"]);
}

#[test]
fn parse_blank_lines_in_region_are_skipped() {
    let report = "Name: a\nUUID: b\nCreation time: 2023-01-01 00:00:00 +0000\n\
                  Snapshot(s):\n\tone\n\n   \n\ttwo\n";
    let subvol = parse_report(report).unwrap();
    assert_eq!(subvol.snapshots, vec!["one", "two"]);
}

#[test]
fn parse_snapshot_header_is_case_sensitive() {
    let report = "Name: a\nUUID: b\nCreation time: 2023-01-01 00:00:00 +0000\n\
                  snapshot(s):\n\tnot/captured\n";
    let subvol = parse_report(report).unwrap();
    assert!(subvol.snapshots.is_empty());
}

#[test]
fn parse_bare_lines_outside_region_are_ignored() {
    let report = "stray line\nName: a\nUUID: b\nCreation time: 2023-01-01 00:00:00 +0000\n";
    let subvol = parse_report(report).unwrap();
    assert!(subvol.snapshots.is_empty());
    assert_eq!(subvol.name, "a");
}

#[test]
fn parse_crlf_line_endings() {
    let report = "Name: a\r\nUUID: b\r\nCreation time: 2023-01-01 00:00:00 +0000\r\n";
    let subvol = parse_report(report).unwrap();
    assert_eq!(subvol.name, "a");
    assert_eq!(subvol.uuid, "b");
    assert_eq!(subvol.creation_time, EPOCH_2023_01_01);
}

#[test]
fn parse_later_property_overwrites_earlier() {
    let report = "Name: early\nName: late\nUUID: b\nCreation time: 2023-01-01 00:00:00 +0000\n";
    assert_eq!(parse_report(report).unwrap().name, "late");
}

#[test]
fn render_then_parse_reproduces_fields() {
    let rendered =
        snapkeep::report::render_report("alpha", "u-123", "2023-01-01 00:00:00 +0000");
    assert_eq!(
        rendered,
        "Name: alpha\nUUID: u-123\nCreation time: 2023-01-01 00:00:00 +0000"
    );
    let subvol = parse_report(&rendered).unwrap();
    assert_eq!(subvol.name, "alpha");
    assert_eq!(subvol.uuid, "u-123");
    assert_eq!(subvol.creation_time, EPOCH_2023_01_01);
    assert!(subvol.snapshots.is_empty());
}

#[test]
fn render_then_parse_keeps_bad_creation_text() {
    let rendered = snapkeep::report::render_report("alpha", "u-123", "not a time");
    match parse_report(&rendered) {
        Err(ReportError::CreationTimeUnparsable { value, .. }) => {
            assert_eq!(value, "not a time");
        }
        other => panic!("expected creation-time error, got {:?}", other),
    }
}

#[test]
fn builder_incremental_lines() {
    let mut builder = SubvolumeBuilder::new();
    builder.apply_line("Name: a").unwrap();
    builder.apply_line("UUID: b").unwrap();
    builder.apply_line("Creation time: 2023-01-01 00:00:00 +0000").unwrap();
    builder.apply_line("Snapshot(s):").unwrap();
    builder.apply_line("  snap/one  ").unwrap();
    let subvol = builder.finish().unwrap();
    assert_eq!(subvol.snapshots, vec!["snap/one"]);
    assert_eq!(subvol.creation_time, EPOCH_2023_01_01);
}
