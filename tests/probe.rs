use fw::common::{FileEvent as Record, RecordError, EVENT_CLOSE, EVENT_OPEN, RECORD_LEN};
use fw::ebpf_monitor::EbpfMonitor;
use fw::file_event::FileAction;
use fw::probe::{close, extract_filename, openat, openat_ret, ProbeEngine};

fn path_buf(s: &str) -> [u8; 256] {
    let mut b = [0u8; 256];
    b[..s.len()].copy_from_slice(s.as_bytes());
    b
}

fn name_of(s: &str) -> Vec<u8> {
    let mut f = [0u8; 64];
    extract_filename(&path_buf(s), &mut f);
    let end = f.iter().position(|&b| b == 0).unwrap();
    f[..end].to_vec()
}

fn key(tgid: u32, pid: u32) -> u64 {
    ((tgid as u64) << 32) | pid as u64
}

#[test]
fn extract_filename_after_last_slash() {
    assert_eq!(name_of("/tmp/a.rs"), b"a.rs".to_vec());
    assert_eq!(name_of("/usr/lib/x86/libc.so.6"), b"libc.so.6".to_vec());
    assert_eq!(name_of("dir/"), b"".to_vec());
}

#[test]
fn extract_filename_without_slash_is_whole_path() {
    assert_eq!(name_of("Cargo.toml"), b"Cargo.toml".to_vec());
    assert_eq!(name_of(""), b"".to_vec());
}

#[test]
fn extract_filename_truncates_to_buffer() {
    let long = "a".repeat(100);
    let p = format!("/tmp/{}", long);
    assert_eq!(name_of(&p), vec![b'a'; 63]);
    let mut f = [7u8; 64];
    extract_filename(&path_buf("/x/yz"), &mut f);
    assert_eq!(&f[..3], b"yz\0");
    assert_eq!(f[3], 7);
}

#[test]
fn record_round_trip() {
    let mut path = path_buf("/tmp/a.rs");
    path[255] = 0;
    let mut filename = [0u8; 64];
    extract_filename(&path, &mut filename);
    let rec = Record { pid: 100, tgid: 0xdead_beef, path, filename, event_type: EVENT_OPEN };
    let bytes = rec.encode();
    assert_eq!(bytes.len(), RECORD_LEN);
    assert_eq!(&bytes[0..4], &[100, 0, 0, 0]);
    assert_eq!(&bytes[4..8], &[0xef, 0xbe, 0xad, 0xde]);
    let back = Record::decode(&bytes).unwrap();
    assert_eq!(back.pid, 100);
    assert_eq!(back.tgid, 0xdead_beef);
    assert_eq!(back.event_type, EVENT_OPEN);
    assert_eq!(back.path, rec.path);
    assert_eq!(back.filename, rec.filename);
    assert_eq!(back.path_str().unwrap(), "/tmp/a.rs");
    assert_eq!(back.filename_str().unwrap(), "a.rs");
    assert!(Record::decode(&bytes[1..]).is_none());
}

#[test]
fn record_text_must_be_utf8() {
    let mut path = [0u8; 256];
    path[0] = 0xff;
    path[1] = b'a';
    let rec = Record { pid: 1, tgid: 1, path, filename: [0u8; 64], event_type: EVENT_OPEN };
    assert_eq!(rec.path_str(), Err(RecordError::InvalidUtf8));
    assert_eq!(rec.filename_str().unwrap(), "");
    assert!(rec.is_open());
    assert!(!rec.is_close());
}

#[test]
fn successful_open_emits_one_event() {
    let mut engine = ProbeEngine::new(16, 8);
    let k = key(100, 100);
    assert_eq!(openat(&mut engine, k, Some(&path_buf("/tmp/a.rs"))), 0);
    assert!(engine.poll().is_none());
    assert_eq!(openat_ret(&mut engine, k, 3), 0);
    let e = engine.poll().unwrap();
    assert!(engine.poll().is_none());
    assert_eq!(e.fd, 3);
    assert_eq!(e.record.pid, 100);
    assert_eq!(e.record.tgid, 100);
    assert_eq!(e.record.event_type, EVENT_OPEN);
    assert_eq!(e.record.path_str().unwrap(), "/tmp/a.rs");
    assert_eq!(e.record.filename_str().unwrap(), "a.rs");
    // the entry was consumed: a second return is an orphan
    assert_eq!(openat_ret(&mut engine, k, 3), 1);
    assert!(engine.poll().is_none());
}

#[test]
fn failed_open_emits_nothing() {
    let mut engine = ProbeEngine::new(16, 8);
    let k = key(100, 101);
    assert_eq!(openat(&mut engine, k, Some(&path_buf("/tmp/b.txt"))), 0);
    assert_eq!(openat_ret(&mut engine, k, -1), 0);
    assert!(engine.poll().is_none());
    assert_eq!(openat_ret(&mut engine, k, 4), 1);
    assert!(engine.poll().is_none());
}

#[test]
fn failed_copy_stores_nothing() {
    let mut engine = ProbeEngine::new(16, 8);
    let k = key(7, 7);
    assert_eq!(openat(&mut engine, k, None), 1);
    assert_eq!(openat_ret(&mut engine, k, 3), 1);
    assert!(engine.poll().is_none());
}

#[test]
fn pending_entry_is_overwritten_by_same_thread() {
    let mut engine = ProbeEngine::new(4, 8);
    let k = key(9, 9);
    assert_eq!(openat(&mut engine, k, Some(&path_buf("/old"))), 0);
    assert_eq!(openat(&mut engine, k, Some(&path_buf("/new"))), 0);
    assert_eq!(openat_ret(&mut engine, k, 5), 0);
    assert_eq!(engine.poll().unwrap().record.path_str().unwrap(), "/new");
}

#[test]
fn full_table_fails_closed() {
    let mut engine = ProbeEngine::new(1, 8);
    assert_eq!(openat(&mut engine, key(1, 1), Some(&path_buf("/a"))), 0);
    assert_eq!(openat(&mut engine, key(2, 2), Some(&path_buf("/b"))), 1);
    assert_eq!(openat_ret(&mut engine, key(2, 2), 3), 1);
    assert_eq!(openat_ret(&mut engine, key(1, 1), 4), 0);
    assert_eq!(engine.poll().unwrap().record.path_str().unwrap(), "/a");
}

#[test]
fn close_emits_one_event_with_descriptor() {
    let mut engine = ProbeEngine::new(4, 8);
    assert_eq!(close(&mut engine, key(100, 100), 3), 0);
    let e = engine.poll().unwrap();
    assert!(engine.poll().is_none());
    assert_eq!(e.record.event_type, EVENT_CLOSE);
    assert!(e.record.is_close());
    assert_eq!(e.record.descriptor(), 3);
    assert_eq!(e.fd, 3);
    assert_eq!(&e.record.path[..4], &3i32.to_le_bytes());
    assert_eq!(close(&mut engine, key(1, 2), -1), 0);
    assert_eq!(engine.poll().unwrap().record.descriptor(), -1);
}

#[test]
fn saturated_channel_drops_and_counts() {
    let mut engine = ProbeEngine::new(4, 3);
    for _ in 0..10 {
        assert_eq!(close(&mut engine, key(5, 5), 1), 0);
    }
    assert_eq!(engine.dropped(), 7);
    let mut n = 0;
    while engine.poll().is_some() {
        n += 1;
    }
    assert_eq!(n, 3);
    assert_eq!(close(&mut engine, key(5, 5), 2), 0);
    assert_eq!(engine.poll().unwrap().record.descriptor(), 2);
    assert_eq!(engine.dropped(), 7);
}

#[test]
fn channel_keeps_emission_order() {
    let mut engine = ProbeEngine::new(4, 8);
    for fd in 0..5 {
        close(&mut engine, key(1, 1), fd);
    }
    for fd in 0..5 {
        assert_eq!(engine.poll().unwrap().record.descriptor(), fd);
    }
}

#[test]
fn scenario_open_filter_and_close() {
    let mut engine = ProbeEngine::new(16, 8);
    let mut monitor = EbpfMonitor::new().unwrap();
    let k = key(100, 100);
    openat(&mut engine, k, Some(&path_buf("/tmp/a.rs")));
    openat_ret(&mut engine, k, 3);
    let item = engine.poll().unwrap();
    let ev = monitor.decode(&item, Some("rustc\n".to_string()), 0).unwrap();
    assert_eq!(ev.action, FileAction::Opened);
    assert_eq!(ev.file_path, "/tmp/a.rs");
    assert_eq!(ev.pid, 100);
    assert_eq!(ev.program_name, "rustc");
    assert!(ev.matches_extensions(&Some(vec!["rs".to_string()])));
    assert!(!ev.matches_extensions(&Some(vec!["md".to_string()])));
    assert_eq!(ev.to_string(), "1970-01-01 00:00:00 UTC | rustc (100) | opened | /tmp/a.rs");

    close(&mut engine, k, 3);
    let item = engine.poll().unwrap();
    let ev = monitor.decode(&item, None, 1).unwrap();
    assert_eq!(ev.action, FileAction::Closed);
    assert_eq!(ev.file_path, "/tmp/a.rs");
    assert_eq!(ev.pid, 100);
    assert_eq!(ev.program_name, "rustc");

    close(&mut engine, k, 9);
    let item = engine.poll().unwrap();
    let ev = monitor.decode(&item, None, 2).unwrap();
    assert_eq!(ev.action, FileAction::Closed);
    assert_eq!(ev.file_path, "fd 9");
}

#[test]
fn scenario_failed_open_decodes_nothing() {
    let mut engine = ProbeEngine::new(16, 8);
    let k = key(100, 100);
    openat(&mut engine, k, Some(&path_buf("/tmp/b.txt")));
    openat_ret(&mut engine, k, -13);
    assert!(engine.poll().is_none());
}

#[test]
fn decode_refuses_unknown_type_and_bad_text() {
    let mut monitor = EbpfMonitor::new().unwrap();
    let rec = Record { pid: 1, tgid: 1, path: [0u8; 256], filename: [0u8; 64], event_type: 7 };
    let item = fw::probe::Emitted { record: rec, fd: 0 };
    assert_eq!(monitor.decode(&item, None, 0).unwrap_err(), RecordError::UnknownEventType(7));
    let mut path = [0u8; 256];
    path[0] = 0xc3;
    let rec = Record { pid: 1, tgid: 1, path, filename: [0u8; 64], event_type: EVENT_OPEN };
    let item = fw::probe::Emitted { record: rec, fd: 0 };
    assert_eq!(monitor.decode(&item, None, 0).unwrap_err(), RecordError::InvalidUtf8);
    assert_eq!(monitor.cached_process_name(1), None);
}

#[test]
fn table_accepts_any_key_while_not_full() {
    let mut engine = ProbeEngine::new(1024, 8);
    assert_eq!(openat(&mut engine, 5, Some(&path_buf("/five"))), 0);
    assert_eq!(openat(&mut engine, 1029, Some(&path_buf("/other"))), 0);
    assert_eq!(openat_ret(&mut engine, 1029, 4), 0);
    assert_eq!(engine.poll().unwrap().record.path_str().unwrap(), "/other");
    assert_eq!(openat_ret(&mut engine, 5, 3), 0);
    assert_eq!(engine.poll().unwrap().record.path_str().unwrap(), "/five");
}

#[test]
fn full_table_frees_room_on_return() {
    let mut engine = ProbeEngine::new(2, 8);
    assert_eq!(openat(&mut engine, 1, Some(&path_buf("/1"))), 0);
    assert_eq!(openat(&mut engine, 2, Some(&path_buf("/2"))), 0);
    assert_eq!(openat(&mut engine, 3, Some(&path_buf("/3"))), 1);
    assert_eq!(openat(&mut engine, 2, Some(&path_buf("/2b"))), 0);
    assert_eq!(openat_ret(&mut engine, 1, -2), 0);
    assert_eq!(openat(&mut engine, 3, Some(&path_buf("/3"))), 0);
}

#[test]
fn record_text_round_trip_from_string() {
    let rec = Record { pid: 3, tgid: 4, path: path_buf("/héllo/wörld.txt"), filename: [0u8; 64], event_type: EVENT_OPEN };
    let back = Record::decode(&rec.encode()).unwrap();
    assert_eq!(back.path_str().unwrap(), "/héllo/wörld.txt");
}
