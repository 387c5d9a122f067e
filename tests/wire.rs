use postcard_rpc_host::{
    Key, RpcFrame, VarHeader, VarKey, VarKeyKind, VarSeq, VarSeqKind, WireHeader,
};

fn key(b: u8) -> Key {
    Key::from_bytes([b, b + 1, b + 2, b + 3, b + 4, b + 5, b + 6, b + 7])
}

#[test]
fn key_bytes_round_trip() {
    let k = key(10);
    assert_eq!(k.to_bytes(), [10, 11, 12, 13, 14, 15, 16, 17]);
    assert!(k.same_as(&key(10)));
    assert!(!k.same_as(&key(11)));
}

#[test]
fn shrinking_keeps_leading_bytes() {
    let mut k = VarKey::Key8(key(1));
    k.shrink_to(VarKeyKind::Key4);
    assert_eq!(k, VarKey::Key4([1, 2, 3, 4]));
    k.shrink_to(VarKeyKind::Key8);
    assert_eq!(k, VarKey::Key4([1, 2, 3, 4]));
    k.shrink_to(VarKeyKind::Key1);
    assert_eq!(k, VarKey::Key1([1]));
    assert_eq!(k.kind(), VarKeyKind::Key1);
}

#[test]
fn keys_match_at_narrower_width() {
    let full = VarKey::Key8(key(1));
    assert!(full.matches(&VarKey::Key2([1, 2])));
    assert!(VarKey::Key2([1, 2]).matches(&full));
    assert!(!full.matches(&VarKey::Key2([1, 3])));
    assert!(!full.matches(&VarKey::Key8(key(2))));
}

#[test]
fn seq_resize_truncates() {
    let mut s = VarSeq::Seq4(0x0102_0304);
    s.resize(VarSeqKind::Seq2);
    assert_eq!(s, VarSeq::Seq2(0x0304));
    s.resize(VarSeqKind::Seq1);
    assert_eq!(s, VarSeq::Seq1(0x04));
    s.resize(VarSeqKind::Seq4);
    assert_eq!(s, VarSeq::Seq4(4));
    assert_eq!(s.as_u32(), 4);
}

#[test]
fn seqs_match_at_narrower_width() {
    assert!(VarSeq::Seq4(0x1_0005).matches(&VarSeq::Seq2(5)));
    assert!(VarSeq::Seq1(5).matches(&VarSeq::Seq4(0x105)));
    assert!(!VarSeq::Seq4(0x1_0005).matches(&VarSeq::Seq4(5)));
}

#[test]
fn headers_match_after_normalisation() {
    let a = VarHeader { key: VarKey::Key8(key(1)), seq_no: VarSeq::Seq4(7) };
    let b = VarHeader { key: VarKey::Key2([1, 2]), seq_no: VarSeq::Seq1(7) };
    let c = VarHeader { key: VarKey::Key2([1, 2]), seq_no: VarSeq::Seq1(8) };
    assert!(a.matches(&b));
    assert!(!a.matches(&c));
}

#[test]
fn wire_header_widens_to_full() {
    let w = WireHeader { key: key(3), seq_no: 9 };
    let v = w.to_var();
    assert_eq!(v.key, VarKey::Key8(key(3)));
    assert_eq!(v.seq_no, VarSeq::Seq4(9));
}

#[test]
fn frame_layout_is_lead_key_seq_body() {
    let f = RpcFrame {
        header: VarHeader { key: VarKey::Key2([0xAA, 0xBB]), seq_no: VarSeq::Seq2(0x0102) },
        body: vec![9, 8],
    };
    assert_eq!(f.to_bytes(), vec![0x50, 0xAA, 0xBB, 0x02, 0x01, 9, 8]);
    assert_eq!(f.header.write_to_vec(), vec![0x50, 0xAA, 0xBB, 0x02, 0x01]);
}

#[test]
fn frame_round_trip_every_width() {
    let keys = [
        VarKey::Key1([7]),
        VarKey::Key2([7, 8]),
        VarKey::Key4([7, 8, 9, 10]),
        VarKey::Key8(key(7)),
    ];
    let seqs = [VarSeq::Seq1(0xFE), VarSeq::Seq2(0xBEEF), VarSeq::Seq4(0xDEAD_BEEF)];
    for k in keys.iter() {
        for s in seqs.iter() {
            let f = RpcFrame { header: VarHeader { key: *k, seq_no: *s }, body: vec![1, 2, 3] };
            let back = RpcFrame::from_bytes(&f.to_bytes()).expect("readable");
            assert_eq!(back.header, f.header);
            assert_eq!(back.body, f.body);
        }
    }
}

#[test]
fn frame_round_trip_empty_body() {
    let f = RpcFrame { header: VarHeader { key: VarKey::Key8(key(1)), seq_no: VarSeq::Seq4(0) }, body: vec![] };
    let back = RpcFrame::from_bytes(&f.to_bytes()).expect("readable");
    assert_eq!(back.header, f.header);
    assert!(back.body.is_empty());
}

#[test]
fn unreadable_frames_are_refused() {
    assert!(RpcFrame::from_bytes(&[]).is_none());
    // non-zero version nibble
    assert!(RpcFrame::from_bytes(&[0x01, 1, 2]).is_none());
    // reserved sequence width
    assert!(RpcFrame::from_bytes(&[0x30, 1, 2, 3, 4, 5]).is_none());
    // too short for an eight-byte key
    assert!(RpcFrame::from_bytes(&[0xC0, 1, 2, 3]).is_none());
    // exactly a header and no body
    let f = RpcFrame::from_bytes(&[0x00, 5, 6]).expect("readable");
    assert_eq!(f.header.key, VarKey::Key1([5]));
    assert_eq!(f.header.seq_no, VarSeq::Seq1(6));
    assert!(f.body.is_empty());
}
