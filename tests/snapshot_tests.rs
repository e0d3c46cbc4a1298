use luma::snapshot::{frame_snapshot, unframe_snapshot};

#[test]
fn saved_snapshot_reads_back_unchanged() {
    let payload = br#"[{"path":"/m/a.mp3","title":"A"}]"#.to_vec();
    let file = frame_snapshot(&payload);
    assert_eq!(file.len(), payload.len() + 12);
    assert_eq!(&file[0..4], b"LUMA");
    assert_eq!(unframe_snapshot(&file), Some(payload));
}

#[test]
fn empty_payload_round_trips() {
    let file = frame_snapshot(&[]);
    assert_eq!(file.len(), 12);
    assert_eq!(unframe_snapshot(&file), Some(Vec::new()));
}

#[test]
fn missing_or_cut_snapshot_is_not_whole() {
    assert_eq!(unframe_snapshot(&[]), None);
    let file = frame_snapshot(b"[1,2,3]");
    assert_eq!(unframe_snapshot(&file[..file.len() - 1]), None);
    let mut flipped = file.clone();
    flipped[5] ^= 1;
    assert_eq!(unframe_snapshot(&flipped), None);
    let mut bad_magic = file.clone();
    bad_magic[0] = b'X';
    assert_eq!(unframe_snapshot(&bad_magic), None);
}
