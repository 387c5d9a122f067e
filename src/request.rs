use vstd::prelude::*;

use crate::frame::RpcFrame;
use crate::key::{Key, VarHeader, VarKey, VarKeyKind, VarSeq, VarSeqKind};

verus! {

/// `r` is `k` narrowed to width `kind` (kept where already narrower).
pub open spec fn narrowed(k: VarKey, kind: VarKeyKind, r: VarKey) -> bool {
    &&& r.spec_kind() == k.spec_kind().narrowest_spec(kind)
    &&& r@ == k@.take(r.spec_kind().spec_width() as int)
}

/// `r` is `s` carried at width `kind`.
pub open spec fn resized(s: VarSeq, kind: VarSeqKind, r: VarSeq) -> bool {
    &&& r.spec_kind() == kind
    &&& r.value() == s.value() % kind.modulus()
}

/// `r` is the frame `f` made ready for the wire: key narrowed to `kkind`,
/// sequence number carried at `seq_kind`, body unchanged.
pub open spec fn outbound(f: RpcFrame, kkind: VarKeyKind, seq_kind: VarSeqKind, r: RpcFrame) -> bool {
    &&& narrowed(f.header.key, kkind, r.header.key)
    &&& resized(f.header.seq_no, seq_kind, r.header.seq_no)
    &&& r.body@ == f.body@
}

/// A request made ready to send, with the two headers its answer may carry.
pub struct RequestPlan {
    /// The frame to send.
    pub frame: RpcFrame,
    /// Header of a successful response.
    pub ok_header: VarHeader,
    /// Header of a reply of the peer's error type.
    pub err_header: VarHeader,
}

/// `p` is the plan for sending `f` and awaiting `resp_key` or `err_key` at
/// key width `kkind` and sequence width `seq_kind`.
pub open spec fn planned(
    f: RpcFrame,
    resp_key: Key,
    err_key: Key,
    kkind: VarKeyKind,
    seq_kind: VarSeqKind,
    p: RequestPlan,
) -> bool {
    &&& outbound(f, kkind, seq_kind, p.frame)
    &&& narrowed(VarKey::Key8(resp_key), kkind, p.ok_header.key)
    &&& narrowed(VarKey::Key8(err_key), kkind, p.err_header.key)
    &&& p.ok_header.seq_no == p.frame.header.seq_no
    &&& p.err_header.seq_no == p.frame.header.seq_no
}

/// Make a frame ready for the wire at the given widths.
pub fn plan_publish(frame: RpcFrame, kkind: VarKeyKind, seq_kind: VarSeqKind) -> (r: RpcFrame)
    ensures
        outbound(frame, kkind, seq_kind, r),
{
    let mut frame = frame;
    frame.header.key.shrink_to(kkind);
    frame.header.seq_no.resize(seq_kind);
    frame
}

/// Make a request ready for the wire, and derive the headers of the
/// response and of the error reply it may get, at the same widths.
pub fn plan_request(
    rqst: RpcFrame,
    resp_key: Key,
    err_key: Key,
    kkind: VarKeyKind,
    seq_kind: VarSeqKind,
) -> (r: RequestPlan)
    ensures
        planned(rqst, resp_key, err_key, kkind, seq_kind, r),
{
    let ghost f = rqst;
    let frame = plan_publish(rqst, kkind, seq_kind);
    let seq_no = frame.header.seq_no;
    let ok_header = VarHeader { key: VarKey::Key8(resp_key).shrunk(kkind), seq_no };
    let err_header = VarHeader { key: VarKey::Key8(err_key).shrunk(kkind), seq_no };
    proof {
        frame.header.key.lemma_len();
        ok_header.key.lemma_len();
        err_header.key.lemma_len();
    }
    RequestPlan { frame, ok_header, err_header }
}

/// How the wait for an answer ended.
pub enum Reply {
    /// The client was closed first.
    Stopped,
    /// The waiter was dropped unanswered: the context was closed.
    Dropped,
    /// The response arrived.
    Answered(RpcFrame),
    /// A reply of the peer's error type arrived.
    Failed(RpcFrame),
}

} // verus!
