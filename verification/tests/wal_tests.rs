use lib::wal::{header_bytes, parse_entries, WalWriter, ENTRY_HEADER_SIZE, HEADER_SIZE};

/// A log file image kept in memory: the committed bytes of a writer.
fn commit(w: &mut WalWriter, file: &mut Vec<u8>) {
    file.extend_from_slice(w.pending_bytes());
    w.mark_committed();
}

fn read_all(file: &[u8]) -> Vec<String> {
    parse_entries(file, HEADER_SIZE)
        .unwrap()
        .iter()
        .map(|e| e.as_str().to_string())
        .collect()
}

#[test]
fn test_wal_create_and_read_empty() {
    let w = WalWriter::fresh();
    let file = header_bytes();
    assert_eq!(w.len(), 0);
    assert!(w.is_empty());
    assert!(read_all(&file).is_empty());
}

#[test]
fn test_wal_append_and_read() {
    let mut w = WalWriter::fresh();
    let mut file = header_bytes();
    w.append(b"{\"type\":\"event_1\"}");
    w.append(b"{\"type\":\"event_2\"}");
    w.append(b"{\"type\":\"event_3\"}");
    commit(&mut w, &mut file);
    assert_eq!(w.len(), 3);
    let entries = parse_entries(&file, HEADER_SIZE).unwrap();
    assert_eq!(entries.len(), 3);
    assert_eq!(entries[0].as_str(), "{\"type\":\"event_1\"}");
    assert_eq!(entries[2].sequence, 2);
}

#[test]
fn test_wal_append_sync() {
    let mut w = WalWriter::fresh();
    let mut file = header_bytes();
    w.append(b"immediate");
    commit(&mut w, &mut file);
    assert_eq!(w.len(), 1);
    let entries = parse_entries(&file, HEADER_SIZE).unwrap();
    assert_eq!(entries[0].as_str(), "immediate");
}

#[test]
fn test_wal_crash_recovery_truncated() {
    let mut w = WalWriter::fresh();
    let mut file = header_bytes();
    for d in [&b"entry_1"[..], b"entry_2", b"entry_3"] {
        w.append(d);
        commit(&mut w, &mut file);
    }
    let good_len = file.len() as u64;
    file.extend_from_slice(&[0x05, 0x00, 0x00, 0x00, 0xFF, 0xFF, 0xFF, 0xFF]);
    let (w2, cut) = WalWriter::recover(&file).unwrap();
    assert_eq!(cut, good_len);
    assert_eq!(w2.len(), 3);
    file.truncate(cut as usize);
    assert_eq!(read_all(&file).len(), 3);
}

#[test]
fn test_wal_crc_detects_corruption() {
    let mut w = WalWriter::fresh();
    let mut file = header_bytes();
    for d in [&b"good_data"[..], b"will_corrupt", b"after_corrupt"] {
        w.append(d);
        commit(&mut w, &mut file);
    }
    let offset = HEADER_SIZE as usize + ENTRY_HEADER_SIZE + 9 + ENTRY_HEADER_SIZE;
    file[offset] ^= 0xFF;
    let (w2, cut) = WalWriter::recover(&file).unwrap();
    assert_eq!(w2.len(), 1, "should keep only entries before corruption");
    let mut kept = file.clone();
    kept.truncate(cut as usize);
    let entries = read_all(&kept);
    assert_eq!(entries[0], "good_data");
    assert!(parse_entries(&file, HEADER_SIZE).is_err(), "raw parse should detect CRC corruption");
}

#[test]
fn test_wal_compact() {
    let mut w = WalWriter::fresh();
    let mut file = header_bytes();
    for i in 0..20 {
        w.append(format!("event_{}", i).as_bytes());
    }
    commit(&mut w, &mut file);
    assert_eq!(w.len(), 20);
    let (removed, image) = w.compact_with_snapshot(b"{\"snapshot\":true}");
    assert_eq!(removed, 20);
    assert_eq!(w.len(), 1);
    file = image.unwrap();
    w.append(b"new_event");
    commit(&mut w, &mut file);
    let entries = read_all(&file);
    assert_eq!(entries.len(), 2);
    assert_eq!(entries[0], "{\"snapshot\":true}");
}

#[test]
fn test_wal_reopen_preserves_data() {
    let mut w = WalWriter::fresh();
    let mut file = header_bytes();
    w.append(b"persistent_1");
    w.append(b"persistent_2");
    commit(&mut w, &mut file);
    let (mut w2, cut) = WalWriter::recover(&file).unwrap();
    assert_eq!(cut as usize, file.len());
    assert_eq!(w2.len(), 2);
    w2.append(b"persistent_3");
    commit(&mut w2, &mut file);
    let (w3, _) = WalWriter::recover(&file).unwrap();
    assert_eq!(w3.len(), 3);
}

#[test]
fn wal_recovery_is_idempotent() {
    let mut w = WalWriter::fresh();
    let mut file = header_bytes();
    w.append(b"a");
    w.append(b"bb");
    commit(&mut w, &mut file);
    file.extend_from_slice(&[1, 2, 3]);
    let (_, cut) = WalWriter::recover(&file).unwrap();
    file.truncate(cut as usize);
    let (w2, cut2) = WalWriter::recover(&file).unwrap();
    assert_eq!(cut2, cut);
    assert_eq!(w2.len(), 2);
}

#[test]
fn wal_bad_header_is_refused() {
    let mut file = header_bytes();
    file[0] ^= 0xFF;
    assert!(WalWriter::recover(&file).is_err());
}

#[test]
fn wal_compaction_needs_ten_entries() {
    let mut w = WalWriter::fresh();
    let mut file = header_bytes();
    for i in 0..9 {
        w.append(format!("e{}", i).as_bytes());
    }
    commit(&mut w, &mut file);
    let (removed, image) = w.compact_with_snapshot(b"snap");
    assert_eq!(removed, 0);
    assert!(image.is_none());
    assert_eq!(w.len(), 9);
}
