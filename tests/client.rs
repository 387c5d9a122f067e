use postcard_rpc_host::{
    plan_publish, plan_request, HostContext, HostErr, IoClosed, Key, ProcessError, Reply, RpcFrame,
    SubscriptionTable, VarHeader, VarKey, VarKeyKind, VarSeq, VarSeqKind, WaitError, WaitLedger,
    WakeOutcome,
};

fn key(b: u8) -> Key {
    Key::from_bytes([b; 8])
}

fn frame(k: VarKey, seq: VarSeq, body: Vec<u8>) -> RpcFrame {
    RpcFrame { header: VarHeader { key: k, seq_no: seq }, body }
}

const REQ: u8 = 0x10;
const RESP: u8 = 0x20;
const ERR: u8 = 0x30;

/// Starts a request as a client does: number it, plan it, register its waiters.
fn start(ctx: &mut HostContext<&'static str>, body: Vec<u8>, seq_kind: VarSeqKind) -> RpcFrame {
    let seq = ctx.next_seq();
    let rq = frame(VarKey::Key8(key(REQ)), VarSeq::Seq4(seq), body);
    let plan = plan_request(rq, key(RESP), key(ERR), ctx.key_kind(), seq_kind);
    ctx.register_request(&plan, "ok", "err").unwrap();
    plan.frame
}

#[test]
fn happy_path_delivers_response_body() {
    let mut ctx: HostContext<&'static str> = HostContext::new();
    let sent = start(&mut ctx, vec![0x01], VarSeqKind::Seq4);
    assert_eq!(sent.header.seq_no, VarSeq::Seq4(0));
    assert_eq!(sent.body, vec![0x01]);
    let reply = frame(VarKey::Key8(key(RESP)), VarSeq::Seq4(0), vec![0x02]);
    let (slot, got) = ctx.process_did_wake(reply).unwrap().expect("a waiter");
    assert_eq!(slot, "ok");
    let out = ctx.settle(Reply::Answered(got)).unwrap();
    assert_eq!(out.body, vec![0x02]);
}

#[test]
fn wire_error_path_hands_back_error_body() {
    let mut ctx: HostContext<&'static str> = HostContext::new();
    start(&mut ctx, vec![0x01], VarSeqKind::Seq4);
    let reply = frame(VarKey::Key8(key(ERR)), VarSeq::Seq4(0), vec![0x07]);
    let (slot, got) = ctx.process_did_wake(reply).unwrap().expect("a waiter");
    assert_eq!(slot, "err");
    assert_eq!(ctx.settle(Reply::Failed(got)).unwrap_err(), HostErr::Wire(vec![0x07]));
}

#[test]
fn width_narrows_after_narrow_reply() {
    let mut ctx: HostContext<&'static str> = HostContext::new();
    start(&mut ctx, vec![], VarSeqKind::Seq4);
    let reply = frame(VarKey::Key2([RESP, RESP]), VarSeq::Seq4(0), vec![]);
    let (_, got) = ctx.process_did_wake(reply).unwrap().expect("a waiter");
    ctx.settle(Reply::Answered(got)).unwrap();
    assert_eq!(ctx.key_kind(), VarKeyKind::Key2);
    let next = start(&mut ctx, vec![], VarSeqKind::Seq4);
    assert_eq!(next.header.key, VarKey::Key2([REQ, REQ]));
    // a wider reply later does not widen it again
    let reply = frame(VarKey::Key8(key(RESP)), VarSeq::Seq4(1), vec![]);
    let (_, got) = ctx.process_did_wake(reply).unwrap().expect("a waiter");
    ctx.settle(Reply::Answered(got)).unwrap();
    assert_eq!(ctx.key_kind(), VarKeyKind::Key2);
}

#[test]
fn width_never_grows() {
    let mut ctx: HostContext<u8> = HostContext::new();
    let seen = [VarKeyKind::Key4, VarKeyKind::Key8, VarKeyKind::Key2, VarKeyKind::Key4, VarKeyKind::Key1, VarKeyKind::Key8];
    let mut last = ctx.key_kind().width();
    for k in seen.iter() {
        ctx.narrow_key_kind(*k);
        let w = ctx.key_kind().width();
        assert!(w <= last);
        last = w;
    }
    assert_eq!(ctx.key_kind(), VarKeyKind::Key1);
}

#[test]
fn sequence_numbers_are_contiguous() {
    let mut ctx: HostContext<u8> = HostContext::new();
    let got: Vec<u32> = (0..6).map(|_| ctx.next_seq()).collect();
    assert_eq!(got, vec![0, 1, 2, 3, 4, 5]);
}

#[test]
fn stopped_or_dropped_wait_is_closed() {
    let mut ctx: HostContext<u8> = HostContext::new();
    assert_eq!(ctx.settle(Reply::Stopped).unwrap_err(), HostErr::Closed);
    assert_eq!(ctx.settle(Reply::Dropped).unwrap_err(), HostErr::Closed);
    assert_eq!(ctx.key_kind(), VarKeyKind::Key8);
}

#[test]
fn request_plan_uses_snapshot_widths() {
    let rq = frame(VarKey::Key8(key(REQ)), VarSeq::Seq4(0x1_0203), vec![5]);
    let plan = plan_request(rq, key(RESP), key(ERR), VarKeyKind::Key4, VarSeqKind::Seq2);
    assert_eq!(plan.frame.header.key, VarKey::Key4([REQ; 4]));
    assert_eq!(plan.frame.header.seq_no, VarSeq::Seq2(0x0203));
    assert_eq!(plan.ok_header.key, VarKey::Key4([RESP; 4]));
    assert_eq!(plan.err_header.key, VarKey::Key4([ERR; 4]));
    assert_eq!(plan.ok_header.seq_no, VarSeq::Seq2(0x0203));
    assert_eq!(plan.frame.body, vec![5]);
}

#[test]
fn publish_plan_narrows_frame() {
    let f = frame(VarKey::Key8(key(4)), VarSeq::Seq4(0x0102), vec![1]);
    let out = plan_publish(f, VarKeyKind::Key1, VarSeqKind::Seq1);
    assert_eq!(out.header.key, VarKey::Key1([4]));
    assert_eq!(out.header.seq_no, VarSeq::Seq1(2));
}

#[test]
fn a_frame_wakes_one_waiter_once() {
    let mut ledger: WaitLedger<u8> = WaitLedger::new();
    let h = VarHeader { key: VarKey::Key8(key(1)), seq_no: VarSeq::Seq4(3) };
    ledger.wait(h, 1).unwrap();
    assert_eq!(ledger.wait(h, 2), Err(WaitError::Duplicate));
    match ledger.wake(&h) {
        WakeOutcome::Woke(_, slot) => assert_eq!(slot, 1),
        _ => panic!("expected a waiter"),
    }
    assert!(matches!(ledger.wake(&h), WakeOutcome::NoMatch));
    assert_eq!(ledger.len(), 0);
}

#[test]
fn unmatched_frame_is_no_match() {
    let mut ctx: HostContext<u8> = HostContext::new();
    let f = frame(VarKey::Key8(key(9)), VarSeq::Seq4(0), vec![]);
    assert!(ctx.process_did_wake(f).unwrap().is_none());
}

#[test]
fn cancelled_request_leaves_no_waiter() {
    let mut ctx: HostContext<&'static str> = HostContext::new();
    let rq = frame(VarKey::Key8(key(REQ)), VarSeq::Seq4(0), vec![]);
    let plan = plan_request(rq, key(RESP), key(ERR), VarKeyKind::Key8, VarSeqKind::Seq4);
    ctx.register_request(&plan, "ok", "err").unwrap();
    assert_eq!(ctx.cancel(&plan.ok_header), Some("ok"));
    assert_eq!(ctx.cancel(&plan.err_header), Some("err"));
    let late = frame(VarKey::Key8(key(RESP)), VarSeq::Seq4(0), vec![]);
    assert!(ctx.process_did_wake(late).unwrap().is_none());
}

#[test]
fn same_response_and_error_key_is_refused_whole() {
    let mut ctx: HostContext<u8> = HostContext::new();
    let rq = frame(VarKey::Key8(key(REQ)), VarSeq::Seq4(0), vec![]);
    let plan = plan_request(rq, key(RESP), key(RESP), VarKeyKind::Key8, VarSeqKind::Seq4);
    assert_eq!(ctx.register_request(&plan, 1, 2), Err(WaitError::Duplicate));
    let f = frame(VarKey::Key8(key(RESP)), VarSeq::Seq4(0), vec![]);
    assert!(ctx.process_did_wake(f).unwrap().is_none());
}

#[test]
fn closing_refuses_everything_after() {
    let mut ctx: HostContext<&'static str> = HostContext::new();
    start(&mut ctx, vec![], VarSeqKind::Seq4);
    let dropped = ctx.close();
    assert_eq!(dropped.len(), 2);
    let rq = frame(VarKey::Key8(key(REQ)), VarSeq::Seq4(1), vec![]);
    let plan = plan_request(rq, key(RESP), key(ERR), ctx.key_kind(), VarSeqKind::Seq4);
    assert_eq!(ctx.register_request(&plan, "ok", "err"), Err(WaitError::Closed));
    let f = frame(VarKey::Key8(key(RESP)), VarSeq::Seq4(0), vec![]);
    assert_eq!(ctx.process_did_wake(f).unwrap_err(), ProcessError::Closed);

    let mut table: SubscriptionTable<u8> = SubscriptionTable::new();
    table.install(key(1), 1).unwrap();
    assert_eq!(table.close().len(), 1);
    assert!(table.is_stopped());
    assert_eq!(table.install(key(1), 2), Err(IoClosed));
    assert!(table.route(&VarKey::Key8(key(1))).is_none());
}

#[test]
fn resubscribing_replaces_the_sender() {
    let mut table: SubscriptionTable<u8> = SubscriptionTable::new();
    assert_eq!(table.install(key(5), 1), Ok(None));
    assert_eq!(table.install(key(5), 2), Ok(Some(1)));
    assert_eq!(table.len(), 1);
    for _ in 0..4 {
        assert_eq!(table.route(&VarKey::Key8(key(5))), Some(&2));
    }
}

#[test]
fn routing_honours_width_and_drops_unknown() {
    let mut table: SubscriptionTable<u8> = SubscriptionTable::new();
    table.install(key(5), 1).unwrap();
    table.install(key(6), 2).unwrap();
    assert_eq!(table.route(&VarKey::Key1([6])), Some(&2));
    assert_eq!(table.route(&VarKey::Key2([5, 5])), Some(&1));
    assert!(table.route(&VarKey::Key8(key(7))).is_none());
}
