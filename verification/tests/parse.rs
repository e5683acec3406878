use muse_core::chart::{parse_chart, MuseEvent};
use muse_core::muse::MuseReader;

#[test]
fn from_str_basic() {
    let ev = MuseEvent::from_str("500 lane1:hit").unwrap();
    assert_eq!(ev.0, 500);
    assert_eq!(ev.1, "lane1:hit");
}

#[test]
fn from_str_trims_surrounding_whitespace() {
    let ev = MuseEvent::from_str("\t 800 start-chart  ").unwrap();
    assert_eq!(ev.0, 800);
    assert_eq!(ev.1, "start-chart");
}

#[test]
fn from_str_zero_time() {
    let ev = MuseEvent::from_str("0 start").unwrap();
    assert_eq!(ev.0, 0);
    assert_eq!(ev.1, "start");
}

#[test]
fn from_str_label_forwarded_verbatim() {
    let ev = MuseEvent::from_str("0 a:b:c").unwrap();
    assert_eq!(ev.1, "a:b:c");
}

#[test]
fn from_str_rejects_non_integer_time() {
    let e = MuseEvent::from_str("abc foo").unwrap_err();
    assert_eq!(e.0, "abc foo");
}

#[test]
fn from_str_rejects_missing_label() {
    let e = MuseEvent::from_str("12").unwrap_err();
    assert_eq!(e.0, "12");
}

#[test]
fn from_str_rejects_three_tokens() {
    assert!(MuseEvent::from_str("12 a b").is_err());
}

#[test]
fn from_str_rejects_doubled_separator() {
    assert!(MuseEvent::from_str("12  a").is_err());
}

#[test]
fn from_str_rejects_empty_line() {
    let e = MuseEvent::from_str("").unwrap_err();
    assert_eq!(e.0, "");
}

#[test]
fn from_str_rejects_whitespace_only_line() {
    assert!(MuseEvent::from_str("   ").is_err());
}

#[test]
fn from_str_rejects_negative_time() {
    assert!(MuseEvent::from_str("-5 x").is_err());
}

#[test]
fn from_str_rejects_time_overflow() {
    assert!(MuseEvent::from_str("99999999999999999999999999999999999999 x").is_err());
}

#[test]
fn from_str_accepts_largest_time() {
    let line = format!("{} x", usize::MAX);
    let ev = MuseEvent::from_str(&line).unwrap();
    assert_eq!(ev.0, usize::MAX);
}

#[test]
fn parse_chart_partitions_by_delimiter() {
    let (notes, others) = parse_chart("0 start\n500 lane1:hit\n1000 end").unwrap();
    assert_eq!(notes.len(), 1);
    assert_eq!(notes[0].0, 500);
    assert_eq!(notes[0].1, "lane1:hit");
    assert_eq!(others.len(), 2);
    assert_eq!(others[0].0, 0);
    assert_eq!(others[0].1, "start");
    assert_eq!(others[1].0, 1000);
    assert_eq!(others[1].1, "end");
}

#[test]
fn parse_chart_keeps_file_order_in_each_queue() {
    let (notes, others) = parse_chart("5 a:1\n1 b\n7 a:2\n3 c\n2 a:3").unwrap();
    let note_labels: Vec<&str> = notes.iter().map(|e| e.1.as_str()).collect();
    let other_labels: Vec<&str> = others.iter().map(|e| e.1.as_str()).collect();
    assert_eq!(note_labels, ["a:1", "a:2", "a:3"]);
    assert_eq!(other_labels, ["b", "c"]);
}

#[test]
fn parse_chart_trims_windows_line_endings() {
    let (notes, others) = parse_chart("0 a\r\n5 b:x\r\n").unwrap();
    assert_eq!(others.len(), 1);
    assert_eq!(others[0].1, "a");
    assert_eq!(notes.len(), 1);
    assert_eq!(notes[0].1, "b:x");
}

#[test]
fn parse_chart_rejects_first_bad_line() {
    let e = parse_chart("0 start\nabc foo\n10 x").unwrap_err();
    assert_eq!(e.0, "abc foo");
}

#[test]
fn parse_chart_rejects_blank_interior_line() {
    let e = parse_chart("0 a\n\n5 b").unwrap_err();
    assert_eq!(e.0, "");
}

#[test]
fn parse_chart_rejects_empty_text() {
    assert!(parse_chart("").is_err());
}

#[test]
fn new_reader_holds_parsed_queues() {
    let reader = MuseReader::new("0 start\n500 lane1:hit\n1000 end").unwrap();
    assert_eq!(reader.note_count(), 1);
    assert_eq!(reader.other_count(), 2);
    assert!(!reader.is_playing());
    assert_eq!(reader.absolute_start_time(), 0);
    assert_eq!(reader.absolute_pause_time(), 0);
}

#[test]
fn new_reader_rejects_bad_chart() {
    let e = MuseReader::new("0 start\n12").unwrap_err();
    assert_eq!(e.0, "12");
}

#[test]
fn error_message_names_the_line() {
    let e = MuseEvent::from_str("abc foo").unwrap_err();
    assert_eq!(e.message(), "error deserializing note from line: abc foo");
}
