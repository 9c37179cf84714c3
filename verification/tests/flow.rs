//! End-to-end flows: reader reassembly, aggregation, navigation, emission.

use mp_logger::client::{emit_bytes, enabled, Threshold};
use mp_logger::codec::{encode, Level, DEFAULT_MAX_LENGTH, HEADER_SIZE};
use mp_logger::nav::App;
use mp_logger::view::{key_to_command, Command};
use mp_logger::reader::{non_blocking, Reader};
use mp_logger::store::Store;

fn record(seconds: u64, nanos: u32, pid: i32, tid: u64, level: Level, msg: &str) -> Vec<u8> {
    encode(seconds, nanos, pid, tid, level, &msg.as_bytes().to_vec())
}

fn ingest_all(app: &mut App, reader: &mut Reader, bytes: &[u8]) -> usize {
    let events = reader.feed(bytes);
    let n = events.len();
    for e in events {
        app.ingest(e.pid, e.tid, e.log);
    }
    n
}

#[test]
fn single_record_flow() {
    // One client emits INFO "hello" with pid=100, tid=7.
    let mut app = App::new();
    let mut reader = Reader::new(DEFAULT_MAX_LENGTH);
    let bytes = record(1, 2, 100, 7, Level::Info, "hello");
    let n = ingest_all(&mut app, &mut reader, &bytes);
    assert_eq!(n, 1);
    let f = app.snapshot(10);
    assert_eq!(f.processes, vec![100]);
    assert_eq!(f.threads, vec![7]);
    assert_eq!(f.entries.len(), 1);
    assert_eq!(f.entries[0].level, Level::Info);
    assert_eq!(f.entries[0].message, "hello");
    assert_eq!(f.entries[0].seconds, 1);
    assert_eq!(f.entries[0].nanos, 2);
}

#[test]
fn two_threads_of_one_process() {
    // Two threads of pid=100 emit 5 messages each on the shared stream.
    let mut app = App::new();
    let mut reader = Reader::new(DEFAULT_MAX_LENGTH);
    for i in 0..5u32 {
        let a = record(10, i, 100, 7, Level::Debug, &format!("seven {i}"));
        ingest_all(&mut app, &mut reader, &a);
        let b = record(10, i, 100, 8, Level::Debug, &format!("eight {i}"));
        ingest_all(&mut app, &mut reader, &b);
    }
    let f = app.snapshot(100);
    assert_eq!(f.processes, vec![100]);
    assert_eq!(f.threads, vec![7, 8]);
    // The auto-selected lane is tid 7; its entries are in emission order.
    assert_eq!(f.entries.len(), 5);
    for i in 0..5 {
        assert_eq!(f.entries[i].message, format!("seven {i}"));
    }
    app.next_thread();
    let f = app.snapshot(100);
    assert_eq!(f.entries.len(), 5);
    for i in 0..5 {
        assert_eq!(f.entries[i].message, format!("eight {i}"));
    }
}

#[test]
fn processes_keep_first_sight_order() {
    // pid 200 emits after pid 100, then emits more than pid 100.
    let mut app = App::new();
    let mut r1 = Reader::new(DEFAULT_MAX_LENGTH);
    let mut r2 = Reader::new(DEFAULT_MAX_LENGTH);
    let a = record(1, 0, 100, 1, Level::Info, "first");
    ingest_all(&mut app, &mut r1, &a);
    for i in 0..4u32 {
        let b = record(2, i, 200, 9, Level::Warn, "later");
        ingest_all(&mut app, &mut r2, &b);
    }
    let f = app.snapshot(10);
    assert_eq!(f.processes, vec![100, 200]);
}

#[test]
fn partial_payload_then_close_fails_without_storing() {
    // A valid header announces a 1_000_000-byte payload; the peer closes
    // mid-payload. No partial entry may be stored.
    let mut app = App::new();
    let mut reader = Reader::new(DEFAULT_MAX_LENGTH);
    let msg = "x".repeat(1_000_000);
    let full = record(5, 0, 300, 1, Level::Error, &msg);
    let n = ingest_all(&mut app, &mut reader, &full[..HEADER_SIZE + 1000]);
    assert_eq!(n, 0);
    reader.close();
    assert!(reader.is_failed());
    let f = app.snapshot(10);
    assert!(f.processes.is_empty());
    assert!(f.entries.is_empty());
}

#[test]
fn failure_is_per_connection() {
    // One connection fails mid-record; another connection's lane survives.
    let mut app = App::new();
    let mut good = Reader::new(DEFAULT_MAX_LENGTH);
    let mut bad = Reader::new(DEFAULT_MAX_LENGTH);
    let a = record(1, 0, 100, 7, Level::Info, "kept");
    ingest_all(&mut app, &mut good, &a);
    let b = record(1, 0, 400, 2, Level::Info, "lost");
    ingest_all(&mut app, &mut bad, &b[..b.len() - 1]);
    bad.close();
    assert!(bad.is_failed());
    let f = app.snapshot(10);
    assert_eq!(f.processes, vec![100]);
    assert_eq!(f.entries.len(), 1);
    assert_eq!(f.entries[0].message, "kept");
}

#[test]
fn bad_level_byte_fails_reader_and_stores_nothing() {
    // A header with level=9 ends the reader in its failed state.
    let mut app = App::new();
    let mut reader = Reader::new(DEFAULT_MAX_LENGTH);
    let mut bytes = record(1, 0, 100, 7, Level::Info, "hi");
    bytes[32] = 9;
    let n = ingest_all(&mut app, &mut reader, &bytes);
    assert_eq!(n, 0);
    assert!(reader.is_failed());
    let f = app.snapshot(10);
    assert!(f.processes.is_empty());
}

#[test]
fn bad_utf8_fails_reader() {
    let mut reader = Reader::new(DEFAULT_MAX_LENGTH);
    let bytes = encode(1, 0, 100, 7, Level::Info, &vec![0xff, 0xfe]);
    let events = reader.feed(&bytes);
    assert!(events.is_empty());
    assert!(reader.is_failed());
}

#[test]
fn clean_close_between_records_is_not_a_failure() {
    let mut reader = Reader::new(DEFAULT_MAX_LENGTH);
    let bytes = record(1, 0, 100, 7, Level::Info, "done");
    let events = reader.feed(&bytes);
    assert_eq!(events.len(), 1);
    reader.close();
    assert!(!reader.is_failed());
}

#[test]
fn byte_by_byte_feed_reassembles_in_order() {
    // Records split at every boundary still come out whole and in order.
    let mut reader = Reader::new(DEFAULT_MAX_LENGTH);
    let mut stream = Vec::new();
    stream.extend_from_slice(&record(1, 0, 100, 7, Level::Info, "first message"));
    stream.extend_from_slice(&record(2, 0, 100, 7, Level::Warn, ""));
    stream.extend_from_slice(&record(3, 0, 100, 7, Level::Trace, "third"));
    let mut messages = Vec::new();
    for b in stream {
        for e in reader.feed(&[b]) {
            messages.push(e.log.message);
        }
    }
    assert_eq!(messages, vec!["first message", "", "third"]);
    assert!(!reader.is_failed());
}

#[test]
fn empty_message_record() {
    let mut app = App::new();
    let mut reader = Reader::new(DEFAULT_MAX_LENGTH);
    let bytes = record(9, 9, 1, 1, Level::Debug, "");
    let n = ingest_all(&mut app, &mut reader, &bytes);
    assert_eq!(n, 1);
    let f = app.snapshot(10);
    assert_eq!(f.entries.len(), 1);
    assert_eq!(f.entries[0].message, "");
}

#[test]
fn auto_select_happens_once() {
    let mut app = App::new();
    assert_eq!(app.process_cursor, None);
    let mut reader = Reader::new(DEFAULT_MAX_LENGTH);
    let a = record(1, 0, 100, 7, Level::Info, "a");
    ingest_all(&mut app, &mut reader, &a);
    assert_eq!(app.process_cursor, Some(0));
    assert_eq!(app.thread_cursor, Some(0));
    // A later process does not steal the selection.
    let b = record(1, 0, 200, 9, Level::Info, "b");
    let mut r2 = Reader::new(DEFAULT_MAX_LENGTH);
    ingest_all(&mut app, &mut r2, &b);
    assert_eq!(app.process_cursor, Some(0));
    assert_eq!(app.thread_cursor, Some(0));
}

#[test]
fn navigation_is_a_no_op_before_any_record() {
    let mut app = App::new();
    app.next_process();
    app.previous_process();
    app.next_thread();
    app.previous_thread();
    app.next_log();
    app.previous_log();
    assert_eq!(app.process_cursor, None);
    assert_eq!(app.thread_cursor, None);
    assert_eq!(app.log_offset, 0);
}

#[test]
fn process_navigation_wraps_and_stays_in_bounds() {
    let mut app = App::new();
    let mut reader = Reader::new(DEFAULT_MAX_LENGTH);
    for pid in [100, 200, 300] {
        let b = record(1, 0, pid, 1, Level::Info, "m");
        ingest_all(&mut app, &mut reader, &b);
    }
    assert_eq!(app.process_cursor, Some(0));
    app.next_process();
    assert_eq!(app.process_cursor, Some(1));
    app.next_process();
    assert_eq!(app.process_cursor, Some(2));
    app.next_process();
    assert_eq!(app.process_cursor, Some(0));
    app.previous_process();
    assert_eq!(app.process_cursor, Some(2));
    assert_eq!(app.thread_cursor, Some(0));
    assert_eq!(app.log_offset, 0);
}

#[test]
fn thread_navigation_wraps() {
    let mut app = App::new();
    let mut reader = Reader::new(DEFAULT_MAX_LENGTH);
    for tid in [7, 8, 9] {
        let b = record(1, 0, 100, tid, Level::Info, "m");
        ingest_all(&mut app, &mut reader, &b);
    }
    assert_eq!(app.thread_cursor, Some(0));
    app.next_thread();
    assert_eq!(app.thread_cursor, Some(1));
    app.previous_thread();
    app.previous_thread();
    assert_eq!(app.thread_cursor, Some(2));
    app.next_thread();
    assert_eq!(app.thread_cursor, Some(0));
}

#[test]
fn log_offset_is_bounded_by_entry_count() {
    // Three records in the sole lane; the offset can reach three but no
    // further, and the frame then renders zero rows.
    let mut app = App::new();
    let mut reader = Reader::new(DEFAULT_MAX_LENGTH);
    for i in 0..3u32 {
        let b = record(1, i, 100, 7, Level::Info, "m");
        ingest_all(&mut app, &mut reader, &b);
    }
    app.next_log();
    app.next_log();
    assert_eq!(app.log_offset, 2);
    app.next_log();
    assert_eq!(app.log_offset, 3);
    app.next_log();
    assert_eq!(app.log_offset, 3);
    let f = app.snapshot(10);
    assert_eq!(f.entries.len(), 0);
    app.previous_log();
    assert_eq!(app.log_offset, 2);
    let f = app.snapshot(10);
    assert_eq!(f.entries.len(), 1);
}

#[test]
fn pressing_keys_drives_navigation() {
    let mut app = App::new();
    let mut reader = Reader::new(DEFAULT_MAX_LENGTH);
    for i in 0..3u32 {
        let b = record(1, i, 100, 7, Level::Info, "m");
        ingest_all(&mut app, &mut reader, &b);
    }
    let press = |app: &mut App, c: char| match key_to_command(c) {
        Some(Command::NextLog) => app.next_log(),
        Some(Command::PreviousLog) => app.previous_log(),
        _ => {}
    };
    press(&mut app, 'f');
    press(&mut app, 'f');
    assert_eq!(app.log_offset, 2);
    press(&mut app, 'f');
    press(&mut app, 'f');
    assert_eq!(app.log_offset, 3);
    press(&mut app, 'r');
    assert_eq!(app.log_offset, 2);
}

#[test]
fn snapshot_window_respects_offset_and_max_rows() {
    let mut app = App::new();
    let mut reader = Reader::new(DEFAULT_MAX_LENGTH);
    for i in 0..5u32 {
        let b = record(1, i, 100, 7, Level::Info, &format!("m{i}"));
        ingest_all(&mut app, &mut reader, &b);
    }
    app.next_log();
    let f = app.snapshot(2);
    assert_eq!(f.entries.len(), 2);
    assert_eq!(f.entries[0].message, "m1");
    assert_eq!(f.entries[1].message, "m2");
}

#[test]
fn store_counts_every_record_exactly_once() {
    let mut store = Store::new();
    let mut total = 0usize;
    for pid in [1, 2] {
        for tid in [1, 2, 3] {
            for k in 0..4u32 {
                let msg = format!("p{pid} t{tid} k{k}");
                store.ingest(
                    pid,
                    tid,
                    mp_logger::store::StoredLog {
                        seconds: 0,
                        nanos: k,
                        level: Level::Info,
                        message: msg,
                    },
                );
                total += 1;
            }
        }
    }
    assert_eq!(total, 24);
    let mut seen = 0usize;
    for i in 0..store.process_count() {
        for j in 0..store.lane_count(i) {
            seen += store.entry_count(i, j);
        }
    }
    assert_eq!(seen, 24);
}

#[test]
fn emitter_filters_below_threshold() {
    let msg = b"hi".to_vec();
    assert!(emit_bytes(Threshold::Warn, 1, 0, 1, 1, Level::Info, &msg).is_none());
    assert!(emit_bytes(Threshold::Off, 1, 0, 1, 1, Level::Error, &msg).is_none());
    let sent = emit_bytes(Threshold::Warn, 1, 0, 1, 1, Level::Error, &msg).unwrap();
    assert_eq!(sent, encode(1, 0, 1, 1, Level::Error, &msg));
    assert!(enabled(Threshold::Trace, Level::Trace));
    assert!(!enabled(Threshold::Debug, Level::Trace));
}

#[test]
fn emitted_bytes_round_trip_through_a_reader() {
    let msg = "from the emitter".as_bytes().to_vec();
    let bytes = emit_bytes(Threshold::Trace, 42, 7, 55, 66, Level::Warn, &msg).unwrap();
    let mut reader = Reader::new(DEFAULT_MAX_LENGTH);
    let events = reader.feed(&bytes);
    assert_eq!(events.len(), 1);
    assert_eq!(events[0].pid, 55);
    assert_eq!(events[0].tid, 66);
    assert_eq!(events[0].log.seconds, 42);
    assert_eq!(events[0].log.nanos, 7);
    assert_eq!(events[0].log.level, Level::Warn);
    assert_eq!(events[0].log.message, "from the emitter");
}

#[test]
fn non_blocking_maps_would_block_to_zero() {
    assert_eq!(non_blocking(Ok(5)).unwrap(), 5);
    let wb = std::io::Error::new(std::io::ErrorKind::WouldBlock, "again");
    assert_eq!(non_blocking(Err(wb)).unwrap(), 0);
    let pipe = std::io::Error::new(std::io::ErrorKind::BrokenPipe, "gone");
    assert!(non_blocking(Err(pipe)).is_err());
}
