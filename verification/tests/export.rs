use eidos_service::domain::SourceId;
use eidos_service::export::{
    columns, compact_stamp, csv_field, export_bounds, export_filename, opt, parse_flag,
    source_column, too_many_exports, write_bom, write_csv_row, write_footer, write_header,
    write_row, ExportFormat, ExportLimits, ExportRow, ExportStats, ExportWalk, Fetched, WalkStep,
};
use eidos_service::source_map::SourceMap;

fn field(s: &str) -> String {
    let mut out = Vec::new();
    csv_field(&mut out, s);
    String::from_utf8(out).unwrap()
}

#[test]
fn rfc4180_quoting() {
    assert_eq!(field("plain"), "plain");
    assert_eq!(field("a,b"), "\"a,b\"");
    assert_eq!(field("say \"hi\""), "\"say \"\"hi\"\"\"");
    assert_eq!(field("line1\r\nline2"), "\"line1\r\nline2\"");
    // Unicode needs no quoting and must pass through byte for byte.
    assert_eq!(field("naïve — Ωμέγα 漢字"), "naïve — Ωμέγα 漢字");
    assert_eq!(field(""), "");
}

fn sample_row() -> ExportRow {
    ExportRow {
        object_id: 1,
        entry_id: None,
        source: "zephyr".into(),
        kind: "file".into(),
        name: "a,b.txt".into(),
        path: None,
        extension: "txt".into(),
        size: 0,
        allocated_size: 0,
        modified: None,
        created: None,
        content_state: "pending".into(),
        hard_link_count: 1,
        score: None,
    }
}

#[test]
fn column_count_matches_row_cells() {
    let r = sample_row();
    let mut out = Vec::new();
    write_csv_row(&mut out, &r);
    let line = String::from_utf8(out).unwrap();
    assert!(line.ends_with("\r\n"));
    assert_eq!(line.matches(',').count() - 1, columns().len() - 1);
}

#[test]
fn a_row_is_written_cell_by_cell() {
    let mut out = Vec::new();
    write_csv_row(&mut out, &sample_row());
    assert_eq!(
        String::from_utf8(out).unwrap(),
        "1,,zephyr,file,\"a,b.txt\",,txt,0,0,,,pending,1,\r\n"
    );
}

#[test]
fn formats_know_their_names() {
    assert_eq!(ExportFormat::Csv.content_type(), "text/csv; charset=utf-8");
    assert_eq!(ExportFormat::Ndjson.extension(), "ndjson");
    assert_eq!(ExportFormat::default(), ExportFormat::Csv);
    assert_eq!(compact_stamp("2026-01-02T03:04:05.000000007Z"), "20260102T030405Z");
    assert_eq!(
        export_filename("2026-01-02T03:04:05.000000007Z", ExportFormat::Json),
        "eidos-export-20260102T030405Z.json"
    );
    assert_eq!(opt(&None), "");
    assert_eq!(opt(&Some("x".into())), "x");
    let mut names = SourceMap::new();
    names.insert(3, "zephyr".to_string());
    assert_eq!(source_column(&names, SourceId(3)), "zephyr");
    assert!(source_column(&names, SourceId(4)).contains('4'));
}

#[test]
fn flags_and_bounds_are_read_strictly() {
    for yes in ["1", "true"] {
        assert_eq!(parse_flag(yes), Ok(true), "{yes}");
    }
    for no in ["0", "false"] {
        assert_eq!(parse_flag(no), Ok(false), "{no}");
    }
    assert!(parse_flag("maybe").is_err());
    let limits = ExportLimits::default();
    assert_eq!(export_bounds(limits, None).1, 100_000);
    assert_eq!(export_bounds(limits, Some(7)).1, 7);
    assert_eq!(export_bounds(limits, Some(u64::MAX)).1, 100_000);
    assert!(too_many_exports(2).contains('2'));
}

#[test]
fn documents_are_framed() {
    let mut out = Vec::new();
    write_bom(&mut out, ExportFormat::Csv, true);
    assert_eq!(out, vec![0xEF, 0xBB, 0xBF]);
    out.clear();
    write_bom(&mut out, ExportFormat::Json, true);
    assert!(out.is_empty());
    write_header(&mut out, ExportFormat::Csv, "");
    assert_eq!(
        String::from_utf8(out.clone()).unwrap(),
        format!("{}\r\n", columns().join(","))
    );
    out.clear();
    write_row(&mut out, ExportFormat::Ndjson, &sample_row(), "{\"x\":1}", 0);
    write_row(&mut out, ExportFormat::Ndjson, &sample_row(), "{\"x\":2}", 1);
    assert_eq!(
        String::from_utf8(out.clone()).unwrap(),
        "{\"x\":1}\n{\"x\":2}\n"
    );
    out.clear();
    write_footer(&mut out, ExportFormat::Csv, "{}");
    assert!(out.is_empty());
}

#[test]
fn a_walk_stops_at_its_cap() {
    let mut w = ExportWalk::new(5);
    assert_eq!(w.take_page(3), 3);
    assert_eq!(w.page_sent(true, true), WalkStep::Fetch);
    assert!(w.page_fetched(Fetched::Page));
    assert_eq!(w.take_page(3), 2);
    assert_eq!(w.page_sent(true, true), WalkStep::Finish);
    assert!(w.truncated);
    assert_eq!(w.emitted, 5);
    assert_eq!(w.abort_message(), None);
    let mut stats = ExportStats::default();
    w.account(&mut stats, false, true);
    assert_eq!((stats.finished, stats.failed), (1, 0));
}

#[test]
fn a_failed_page_ends_the_walk_with_its_error() {
    let mut w = ExportWalk::new(5);
    w.take_page(2);
    w.page_sent(true, true);
    w.page_fetched(Fetched::Failed("index closed".into()));
    assert!(w.abort_message().unwrap().contains("index closed"));
    let mut stats = ExportStats::default();
    w.account(&mut stats, false, true);
    assert_eq!(stats.failed, 1);
    let mut gone = ExportWalk::new(5);
    gone.take_page(2);
    assert_eq!(gone.page_sent(false, true), WalkStep::Cancelled);
    let mut stats = ExportStats::default();
    gone.account(&mut stats, true, false);
    assert_eq!(stats.cancelled, 1);
}

#[test]
fn a_page_is_written_up_to_the_row_cap() {
    let rows = vec![sample_row(), sample_row(), sample_row()];
    let json: Vec<String> = ["{\"a\":1}", "{\"a\":2}", "{\"a\":3}"]
        .iter()
        .map(|s| s.to_string())
        .collect();
    let mut walk = ExportWalk::new(2);
    let mut out = Vec::new();
    walk.write_page(&mut out, ExportFormat::Ndjson, &rows, &json);
    assert_eq!(String::from_utf8(out).unwrap(), "{\"a\":1}\n{\"a\":2}\n");
    assert_eq!(walk.emitted, 2);
    assert!(walk.hit_cap);
    assert_eq!(walk.page_sent(true, true), WalkStep::Finish);
    assert!(walk.truncated);
}

#[test]
fn pages_of_a_json_document_are_separated_by_commas() {
    let json: Vec<String> = vec!["{}".into()];
    let rows = vec![sample_row()];
    let mut walk = ExportWalk::new(5);
    let mut out = Vec::new();
    walk.write_page(&mut out, ExportFormat::Json, &rows, &json);
    walk.write_page(&mut out, ExportFormat::Json, &rows, &json);
    assert_eq!(String::from_utf8(out).unwrap(), "{},{}");
    assert_eq!(walk.emitted, 2);
}
