use muse_core::muse::{MuseReader, TickStatus};

#[test]
fn play_starts_fresh_session() {
    let mut reader = MuseReader::new("0 start").unwrap();
    assert_eq!(reader.play(1000), Some(1000));
    assert!(reader.is_playing());
    assert_eq!(reader.absolute_start_time(), 1000);
    assert_eq!(reader.absolute_pause_time(), 0);
}

#[test]
fn play_twice_fires_on_start_once() {
    let mut reader = MuseReader::new("100 a:1").unwrap();
    let first = reader.play(1000);
    let second = reader.play(1005);
    assert_eq!(first, Some(1000));
    assert_eq!(second, None);
    assert_eq!(reader.absolute_start_time(), 1000);
}

#[test]
fn pause_records_instant_and_keeps_queue() {
    let mut reader = MuseReader::new("100 a:1\n500 a:2").unwrap();
    reader.play(1000);
    reader.pause(1500);
    assert!(!reader.is_playing());
    assert_eq!(reader.absolute_pause_time(), 1500);
    assert_eq!(reader.absolute_start_time(), 1000);
    assert_eq!(reader.note_count(), 2);
}

#[test]
fn tick_while_paused_is_stopped_and_fires_nothing() {
    let mut reader = MuseReader::new("100 a:1").unwrap();
    reader.play(1000);
    reader.pause(1100);
    let (fired, status) = reader.tick(5000, 0);
    assert_eq!(status, TickStatus::Stopped);
    assert!(fired.is_empty());
    assert_eq!(reader.note_count(), 1);
}

#[test]
fn resume_absorbs_paused_interval() {
    let mut reader = MuseReader::new("100 a:1\n500 a:2\n900 a:3").unwrap();
    assert_eq!(reader.play(1000), Some(1000));
    let (fired, status) = reader.tick(1100, 0);
    assert_eq!(status, TickStatus::Running);
    assert_eq!(fired.len(), 1);
    assert_eq!(fired[0].0, 100);
    reader.pause(1105);

    // 2000 ms of wall-clock time pass while paused.
    assert_eq!(reader.play(3105), Some(3000));
    assert_eq!(reader.absolute_start_time(), 3000);

    // 395 ms after the resume, elapsed chart time reaches 500 ms: the
    // 500 ms event fires now, not ~1900 ms later.
    let (fired, status) = reader.tick(3500, 0);
    assert_eq!(status, TickStatus::Running);
    assert_eq!(fired.len(), 1);
    assert_eq!(fired[0].0, 500);
}

#[test]
fn completion_resets_session() {
    let mut reader = MuseReader::new("100 a:1").unwrap();
    reader.play(1000);
    let (fired, status) = reader.tick(1100, 0);
    assert_eq!(status, TickStatus::Finished);
    assert_eq!(fired.len(), 1);
    assert!(!reader.is_playing());
    assert_eq!(reader.absolute_start_time(), 0);
    assert_eq!(reader.absolute_pause_time(), 0);

    // The next play is a fresh session: its start instant is the new
    // clock reading, unrelated to the finished session's start.
    assert_eq!(reader.play(9999), Some(9999));
}

#[test]
fn idle_pause_is_a_no_op() {
    let mut reader = MuseReader::new("100 a:1").unwrap();
    reader.pause(500);
    assert_eq!(reader.absolute_pause_time(), 0);
    assert!(!reader.is_playing());
    assert_eq!(reader.play(1000), Some(1000));
}

#[test]
fn end_to_end_dispatch_order_and_lead() {
    let mut reader = MuseReader::new("0 start\n500 lane1:hit\n1000 end").unwrap();
    let t0 = 10_000u128;
    assert_eq!(reader.play(t0), Some(t0));

    let (fired, status) = reader.tick(t0, 100);
    assert_eq!(status, TickStatus::Running);
    assert_eq!(fired.len(), 1);
    assert_eq!((fired[0].0, fired[0].1.as_str()), (0, "start"));

    // The note leads its nominal time by the hitring duration: it is
    // due 400 ms after the start, not at 500 ms.
    let (fired, status) = reader.tick(t0 + 399, 100);
    assert_eq!(status, TickStatus::Running);
    assert!(fired.is_empty());
    let (fired, status) = reader.tick(t0 + 400, 100);
    assert_eq!(status, TickStatus::Running);
    assert_eq!(fired.len(), 1);
    assert_eq!((fired[0].0, fired[0].1.as_str()), (500, "lane1:hit"));

    let (fired, status) = reader.tick(t0 + 1000, 100);
    assert_eq!(status, TickStatus::Finished);
    assert_eq!(fired.len(), 1);
    assert_eq!((fired[0].0, fired[0].1.as_str()), (1000, "end"));
    assert_eq!(reader.absolute_start_time(), 0);
}

#[test]
fn simultaneously_due_notes_drain_before_others() {
    let mut reader = MuseReader::new("0 other\n0 n:1").unwrap();
    reader.play(100);
    let (fired, status) = reader.tick(100, 0);
    assert_eq!(status, TickStatus::Finished);
    let labels: Vec<&str> = fired.iter().map(|e| e.1.as_str()).collect();
    assert_eq!(labels, ["n:1", "other"]);
}

#[test]
fn early_note_offset_clamps_to_zero() {
    let mut reader = MuseReader::new("50 n:1").unwrap();
    reader.play(1000);
    // The 200 ms lead exceeds the 50 ms nominal time: the offset clamps
    // to zero, so the event fires at the very start instant.
    let (fired, status) = reader.tick(1000, 200);
    assert_eq!(status, TickStatus::Finished);
    assert_eq!(fired.len(), 1);
    assert_eq!(fired[0].0, 50);
}

#[test]
fn stop_forces_fresh_state_and_keeps_queue() {
    let mut reader = MuseReader::new("100 a:1\n500 a:2").unwrap();
    reader.play(1000);
    reader.stop();
    assert!(!reader.is_playing());
    assert_eq!(reader.absolute_start_time(), 0);
    assert_eq!(reader.absolute_pause_time(), 0);
    assert_eq!(reader.note_count(), 2);
    let (fired, status) = reader.tick(5000, 0);
    assert_eq!(status, TickStatus::Stopped);
    assert!(fired.is_empty());
}

#[test]
fn empty_chart_finishes_on_first_tick() {
    // A chart whose single line parses but whose queues drain at once.
    let mut reader = MuseReader::new("0 start").unwrap();
    reader.play(1000);
    let (fired, status) = reader.tick(1000, 0);
    assert_eq!(status, TickStatus::Finished);
    assert_eq!(fired.len(), 1);
    let (fired, status) = reader.tick(1001, 0);
    assert_eq!(status, TickStatus::Stopped);
    assert!(fired.is_empty());
}

#[test]
fn events_not_yet_due_stay_queued() {
    let mut reader = MuseReader::new("5000 late\n9000 n:late").unwrap();
    reader.play(1000);
    let (fired, status) = reader.tick(1500, 0);
    assert_eq!(status, TickStatus::Running);
    assert!(fired.is_empty());
    assert_eq!(reader.note_count(), 1);
    assert_eq!(reader.other_count(), 1);
}
