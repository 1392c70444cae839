use memtrace_view::scanner::scan;
use memtrace_view::series::Sample;
use memtrace_view::series::SeriesKey;
use memtrace_view::series::flatten;
use memtrace_view::viewer::Chart;
use memtrace_view::viewer::DataViewer;
use memtrace_view::viewer::ParseError;

fn lines(v: &[&str]) -> Vec<String> {
    v.iter().map(|s| s.to_string()).collect()
}

fn series<'a>(dv: &'a DataViewer, key: SeriesKey) -> Option<&'a Vec<Sample>> {
    dv.data.iter().find(|(k, _)| *k == key).map(|(_, s)| s)
}

fn chart<'a>(dv: &'a DataViewer, key: SeriesKey) -> Option<&'a Chart> {
    dv.chart.iter().find(|(k, _)| *k == key).map(|(_, c)| c)
}

#[test]
fn single_snapshot_yields_zero_elapsed_inuse_sample() {
    let dv = scan(&lines(&[
        "HEAP SUMMARY Mon Jan 01 00:00:00 2024",
        "    in use: 500000 bytes",
    ]))
    .unwrap();
    assert_eq!(dv.data.len(), 1);
    let s = series(&dv, SeriesKey::InUse).unwrap();
    assert_eq!(s.as_slice(), &[Sample { elapsed_sec: 0, bytes: 500000 }]);
    assert_eq!(dv.chart.len(), 1);
    assert!(chart(&dv, SeriesKey::InUse).is_some());
    let x_hours = s[0].elapsed_sec as f64 / 3600.0;
    let y_kbytes = s[0].bytes as f64 / 1000.0;
    assert_eq!(x_hours, 0.0);
    assert_eq!(y_kbytes, 500.0);
}

#[test]
fn unit_conversions_hours_and_kbytes() {
    let dv = scan(&lines(&[
        "HEAP SUMMARY Mon Jan 01 00:00:00 2024",
        "    in use: 1000000 bytes",
        "HEAP SUMMARY Mon Jan 01 02:00:00 2024",
        "    in use: 1000000 bytes",
    ]))
    .unwrap();
    let s = series(&dv, SeriesKey::InUse).unwrap();
    assert_eq!(s.len(), 2);
    assert_eq!(s[1].elapsed_sec, 7200);
    assert_eq!(s[1].elapsed_sec as f64 / 3600.0, 2.0);
    assert_eq!(s[1].bytes as f64 / 1000.0, 1000.0);
}

#[test]
fn context_block_creates_uid_series_and_chart() {
    let dv = scan(&lines(&[
        "HEAP SUMMARY Mon Jan 01 00:00:00 2024",
        "3 allocs, 2000 bytes were not free",
        "foo",
        "bar",
        "",
        "    in use: 10000 bytes",
    ]))
    .unwrap();
    let c = chart(&dv, SeriesKey::Uid(1)).unwrap();
    assert_eq!(c.title.as_deref(), Some("Memory Context with UID:1"));
    assert_eq!(c.description.as_deref(), Some("foo\nbar\n\n"));
    let s = series(&dv, SeriesKey::Uid(1)).unwrap();
    assert_eq!(s.as_slice(), &[Sample { elapsed_sec: 0, bytes: 2000 }]);
    assert_eq!(s[0].bytes as f64 / 1000.0, 2.0);
}

#[test]
fn identical_callstacks_share_one_uid() {
    let dv = scan(&lines(&[
        "HEAP SUMMARY Mon Jan 01 00:00:00 2024",
        "5 allocs, 1000 bytes were not free",
        "alpha",
        "",
        "    in use: 4000 bytes",
        "HEAP SUMMARY Mon Jan 01 01:00:00 2024",
        "7 allocs, 3000 bytes were not free",
        "alpha",
        "",
        "    in use: 6000 bytes",
    ]))
    .unwrap();
    assert_eq!(dv.info.uid_count, 1);
    assert_eq!(dv.info.uids.len(), 1);
    let s = series(&dv, SeriesKey::Uid(1)).unwrap();
    assert_eq!(
        s.as_slice(),
        &[
            Sample { elapsed_sec: 0, bytes: 1000 },
            Sample { elapsed_sec: 3600, bytes: 3000 },
        ]
    );
    assert!(chart(&dv, SeriesKey::Uid(2)).is_none());
}

#[test]
fn distinct_callstacks_get_uids_in_first_seen_order() {
    let dv = scan(&lines(&[
        "HEAP SUMMARY Mon Jan 01 00:00:00 2024",
        "1 allocs, 100 bytes were not free",
        "first stack",
        "",
        "2 allocs, 200 bytes were not free",
        "second stack",
        "",
        "    in use: 300 bytes",
    ]))
    .unwrap();
    assert_eq!(dv.info.uid_count, 2);
    assert_eq!(dv.info.uids[0].0, "first stack\n\n");
    assert_eq!(dv.info.uids[0].1, 1);
    assert_eq!(dv.info.uids[1].0, "second stack\n\n");
    assert_eq!(dv.info.uids[1].1, 2);
    let t2 = chart(&dv, SeriesKey::Uid(2)).unwrap();
    assert_eq!(t2.title.as_deref(), Some("Memory Context with UID:2"));
}

#[test]
fn malformed_date_aborts_with_the_offending_text() {
    let r = scan(&lines(&["HEAP SUMMARY garbage"]));
    match r {
        Err(ParseError::Date { text }) => assert_eq!(text, "garbage"),
        other => panic!("expected a date error, got {:?}", other),
    }
}

#[test]
fn scanning_twice_yields_identical_documents() {
    let input = lines(&[
        "HEAP SUMMARY Mon Jan 01 00:00:00 2024",
        "4 allocs, 800 bytes were not free",
        "stack a",
        "",
        "    in use: 12345 bytes",
        "noise line",
        "HEAP SUMMARY Mon Jan 01 03:30:00 2024",
        "    in use: 23456 bytes",
    ]);
    let a = scan(&input).unwrap();
    let b = scan(&input).unwrap();
    assert_eq!(a, b);
}

#[test]
fn inuse_series_holds_two_numbers_per_inuse_line() {
    let dv = scan(&lines(&[
        "HEAP SUMMARY Mon Jan 01 00:00:00 2024",
        "    in use: 1 bytes",
        "HEAP SUMMARY Mon Jan 01 00:10:00 2024",
        "    in use: 2 bytes",
        "HEAP SUMMARY Mon Jan 01 00:20:00 2024",
        "    in use: 3 bytes",
    ]))
    .unwrap();
    let s = series(&dv, SeriesKey::InUse).unwrap();
    assert_eq!(s.len(), 3);
    let flat = flatten(s);
    assert_eq!(flat.len(), 6);
    assert_eq!(flat, vec![0, 1, 600, 2, 1200, 3]);
}

#[test]
fn inuse_line_without_byte_count_is_a_fatal_error() {
    let r = scan(&lines(&[
        "HEAP SUMMARY Mon Jan 01 00:00:00 2024",
        "    in use: nothing to report",
    ]));
    assert_eq!(r, Err(ParseError::InUseField));
}

#[test]
fn context_header_with_unrepresentable_count_is_a_fatal_error() {
    let r = scan(&lines(&[
        "99999999999999999999999999 allocs, 5 bytes were not free",
    ]));
    assert_eq!(r, Err(ParseError::ContextField));
}

#[test]
fn empty_log_yields_the_empty_document() {
    let dv = scan(&lines(&[])).unwrap();
    assert_eq!(dv.data.len(), 0);
    assert_eq!(dv.chart.len(), 1);
    assert!(chart(&dv, SeriesKey::InUse).is_some());
    assert_eq!(dv.info.uid_count, 0);
    assert_eq!(
        dv.dataview.title.as_deref(),
        Some("History of memory usage with Memtrace")
    );
    assert_eq!(dv.dataview.x_title.as_deref(), Some("Elapsed Time"));
    assert_eq!(dv.dataview.x_unit.as_deref(), Some("Hour"));
    assert_eq!(dv.dataview.y_title.as_deref(), Some("Memory in use"));
    assert_eq!(dv.dataview.y_unit.as_deref(), Some("KBytes"));
}

#[test]
fn unrecognized_lines_are_ignored() {
    let dv = scan(&lines(&[
        "some banner",
        "HEAP SUMMARY Mon Jan 01 00:00:00 2024",
        "other text with 12 digits",
        "    in use: 777 bytes",
        "trailing text",
    ]))
    .unwrap();
    let s = series(&dv, SeriesKey::InUse).unwrap();
    assert_eq!(s.as_slice(), &[Sample { elapsed_sec: 0, bytes: 777 }]);
    assert_eq!(dv.info.uid_count, 0);
}

#[test]
fn open_block_absorbs_marker_lines_as_body() {
    let dv = scan(&lines(&[
        "HEAP SUMMARY Mon Jan 01 00:00:00 2024",
        "9 allocs, 50 bytes were not free",
        "    in use: 111 bytes",
        "HEAP SUMMARY Mon Jan 01 09:00:00 2024",
        "",
        "    in use: 222 bytes",
    ]))
    .unwrap();
    let s = series(&dv, SeriesKey::InUse).unwrap();
    assert_eq!(s.as_slice(), &[Sample { elapsed_sec: 0, bytes: 222 }]);
    let c = chart(&dv, SeriesKey::Uid(1)).unwrap();
    assert_eq!(
        c.description.as_deref(),
        Some("    in use: 111 bytes\nHEAP SUMMARY Mon Jan 01 09:00:00 2024\n\n")
    );
}

#[test]
fn pending_context_attaches_to_the_next_inuse_line() {
    let dv = scan(&lines(&[
        "HEAP SUMMARY Mon Jan 01 00:00:00 2024",
        "    in use: 10 bytes",
        "2 allocs, 600 bytes were not free",
        "stack b",
        "",
        "HEAP SUMMARY Mon Jan 01 01:00:00 2024",
        "    in use: 20 bytes",
    ]))
    .unwrap();
    let s = series(&dv, SeriesKey::Uid(1)).unwrap();
    assert_eq!(s.as_slice(), &[Sample { elapsed_sec: 3600, bytes: 600 }]);
}

#[test]
fn dangling_block_and_contexts_are_dropped_at_end_of_input() {
    let dv = scan(&lines(&[
        "HEAP SUMMARY Mon Jan 01 00:00:00 2024",
        "    in use: 10 bytes",
        "2 allocs, 600 bytes were not free",
        "never terminated",
    ]))
    .unwrap();
    assert!(series(&dv, SeriesKey::Uid(1)).is_none());
    assert_eq!(dv.info.uid_count, 0);
    assert_eq!(dv.data.len(), 1);
}

#[test]
fn header_amid_block_starts_a_fresh_accumulation() {
    let dv = scan(&lines(&[
        "HEAP SUMMARY Mon Jan 01 00:00:00 2024",
        "1 allocs, 100 bytes were not free",
        "old text",
        "2 allocs, 200 bytes were not free",
        "new text",
        "",
        "    in use: 10 bytes",
    ]))
    .unwrap();
    assert_eq!(dv.info.uid_count, 1);
    let c = chart(&dv, SeriesKey::Uid(1)).unwrap();
    assert_eq!(c.description.as_deref(), Some("new text\n\n"));
    let s = series(&dv, SeriesKey::Uid(1)).unwrap();
    assert_eq!(s.as_slice(), &[Sample { elapsed_sec: 0, bytes: 200 }]);
}
