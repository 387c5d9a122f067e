use vstd::prelude::*;

use crate::frame::RpcFrame;
use crate::key::{Key, VarHeader, VarKey, VarKeyKind, VarSeqKind};
use crate::key::headers_match;
use crate::ledger::{first_match, lemma_first_match, LedgerState, WaitError, WaitLedger, WakeOutcome};
use crate::request::{Reply, RequestPlan};

verus! {

/// Why a request did not produce its response.
#[derive(Debug, PartialEq, Eq)]
pub enum HostErr<WireErr> {
    /// The peer answered with its error type.
    Wire(WireErr),
    /// A response came that matched neither the response nor the error key.
    BadResponse,
    /// A body could not be decoded as the declared type.
    DecodeFailure,
    /// The client was closed, or the outbound channel was.
    Closed,
}

/// Error for handing a received frame to the context.
#[derive(Clone, Copy, Debug, PartialEq, Eq, Structural)]
pub enum ProcessError {
    /// The client has been closed; no responses will be processed.
    Closed,
}

/// The sequence number that follows `s`, wrapping at 32 bits.
pub open spec fn next_seq_of(s: u32) -> u32 {
    if s == u32::MAX { 0 } else { (s + 1) as u32 }
}

/// The sequence numbers handed out by `n` requests in turn, starting from `s`.
pub open spec fn seqs_issued(s: u32, n: nat) -> Seq<u32>
    decreases n,
{
    if n == 0 {
        Seq::empty()
    } else {
        seq![s] + seqs_issued(next_seq_of(s), (n - 1) as nat)
    }
}

/// Successive requests, from any clone, are numbered by one counter: `n`
/// of them take the contiguous run that starts at the counter's value,
/// wrapping at 32 bits.
pub proof fn lemma_seqs_contiguous(s: u32, n: nat)
    ensures
        seqs_issued(s, n).len() == n,
        forall|i: int| 0 <= i < n ==> #[trigger] seqs_issued(s, n)[i] as int == (s as int + i) % 0x1_0000_0000,
    decreases n,
{
    if n > 0 {
        lemma_seqs_contiguous(next_seq_of(s), (n - 1) as nat);
        let rest = seqs_issued(next_seq_of(s), (n - 1) as nat);
        assert forall|i: int| 0 <= i < n implies #[trigger] seqs_issued(s, n)[i] as int == (s as int + i) % 0x1_0000_0000 by {
            if i == 0 {
                assert(seqs_issued(s, n)[0] == s);
            } else {
                assert(seqs_issued(s, n)[i] == rest[i - 1]);
                assert(rest[i - 1] as int == (next_seq_of(s) as int + (i - 1)) % 0x1_0000_0000);
                if s == u32::MAX {
                    assert((s as int + i) % 0x1_0000_0000 == (i - 1) % 0x1_0000_0000);
                }
            }
        }
    }
}

/// The key width after observing the widths in `seen`, one after another,
/// starting from `k`.
pub open spec fn width_after(k: VarKeyKind, seen: Seq<VarKeyKind>) -> VarKeyKind
    decreases seen.len(),
{
    if seen.len() == 0 {
        k
    } else {
        width_after(k, seen.drop_last()).narrowest_spec(seen.last())
    }
}

/// The key width never grows: observed over time, each value is at most the
/// one before it.
pub proof fn lemma_width_non_increasing(k: VarKeyKind, seen: Seq<VarKeyKind>, i: nat, j: nat)
    requires
        i <= j <= seen.len(),
    ensures
        width_after(k, seen.take(j as int)).spec_width() <= width_after(k, seen.take(i as int)).spec_width(),
    decreases j - i,
{
    if i < j {
        lemma_width_non_increasing(k, seen, i, (j - 1) as nat);
        assert(seen.take(j as int).drop_last() =~= seen.take(j - 1));
    }
}

proof fn lemma_first_match_push<T>(entries: Seq<(VarHeader, T)>, x: (VarHeader, T), h: VarHeader)
    requires
        first_match(entries, h) == entries.len(),
        headers_match(x.0, h),
    ensures
        first_match(entries.push(x), h) == entries.len(),
{
    let e = entries.push(x);
    lemma_first_match(entries, h);
    lemma_first_match(e, h);
    if first_match(e, h) < entries.len() {
        assert(e[first_match(e, h)] == entries[first_match(e, h)]);
    }
    assert(e[entries.len() as int] == x);
}

/// What the context holds: the key width in use, the waiting requests and
/// the next sequence number.
pub struct ContextState<T> {
    pub kkind: VarKeyKind,
    pub ledger: LedgerState<T>,
    pub seq: u32,
    /// Every sequence number handed out so far, in order.
    pub issued: Seq<u32>,
}

/// State shared by every clone of a client and by the receiving worker.
pub struct HostContext<T> {
    kkind: VarKeyKind,
    map: WaitLedger<T>,
    seq: u32,
    issued: Ghost<Seq<u32>>,
}

impl<T> View for HostContext<T> {
    type V = ContextState<T>;

    closed spec fn view(&self) -> ContextState<T> {
        ContextState { kkind: self.kkind, ledger: self.map@, seq: self.seq, issued: self.issued@ }
    }
}

impl<T> HostContext<T> {
    pub closed spec fn wf(&self) -> bool {
        &&& self.map.wf()
        &&& self.issued@.push(self.seq) == seqs_issued(0, self.issued@.len() + 1)
    }

    /// However the calls were spread over clones, the numbers handed out so
    /// far are the contiguous run from 0, wrapping at 32 bits, and the next
    /// one continues it.
    pub proof fn lemma_issued_contiguous(&self)
        requires
            self.wf(),
        ensures
            forall|i: int| 0 <= i < self@.issued.len() ==> #[trigger] self@.issued[i] as int == i % 0x1_0000_0000,
            self@.seq as int == self@.issued.len() % 0x1_0000_0000,
    {
        let n = self.issued@.len();
        lemma_seqs_contiguous(0, n + 1);
        assert forall|i: int| 0 <= i < self@.issued.len() implies #[trigger] self@.issued[i] as int == i % 0x1_0000_0000 by {
            assert(self.issued@.push(self.seq)[i] == self@.issued[i]);
        }
        assert(self.issued@.push(self.seq)[n as int] == self.seq);
    }

    /// A fresh context: full-width keys, nobody waiting, numbering from 0.
    pub fn new() -> (r: HostContext<T>)
        ensures
            r.wf(),
            r@.kkind == VarKeyKind::Key8,
            r@.ledger.entries.len() == 0,
            !r@.ledger.closed,
            r@.seq == 0,
            r@.issued.len() == 0,
    {
        let ctx = HostContext { kkind: VarKeyKind::Key8, map: WaitLedger::new(), seq: 0, issued: Ghost(Seq::empty()) };
        proof {
            lemma_seqs_contiguous(0, 1);
            assert(ctx.issued@.push(0) =~= seqs_issued(0, 1));
        }
        ctx
    }

    /// Take the next sequence number.
    pub fn next_seq(&mut self) -> (r: u32)
        requires
            old(self).wf(),
        ensures
            r == old(self)@.seq,
            final(self)@ == (ContextState {
                seq: next_seq_of(old(self)@.seq),
                issued: old(self)@.issued.push(r),
                ..old(self)@
            }),
            final(self).wf(),
    {
        let r = self.seq;
        self.seq = if self.seq == u32::MAX { 0 } else { self.seq + 1 };
        proof {
            let n = old(self).issued@.len();
            self.issued = Ghost(old(self).issued@.push(r));
            lemma_seqs_contiguous(0, n + 1);
            lemma_seqs_contiguous(0, n + 2);
            let a = seqs_issued(0, n + 1);
            let b = seqs_issued(0, n + 2);
            assert(old(self).issued@.push(r)[n as int] == r);
            assert(a[n as int] == r);
            assert forall|i: int| 0 <= i < n + 2 implies #[trigger] self.issued@.push(self.seq)[i] == b[i] by {
                if i < n + 1 {
                    assert(self.issued@.push(self.seq)[i] == a[i]);
                    assert(a[i] as int == i % 0x1_0000_0000);
                } else {
                    assert(r as int == n % 0x1_0000_0000);
                    assert(b[i] as int == (n + 1) % 0x1_0000_0000);
                }
            }
            assert(self.issued@.push(self.seq) =~= b);
        }
        r
    }

    /// The key width in use.
    pub fn key_kind(&self) -> (r: VarKeyKind)
        ensures
            r == self@.kkind,
    {
        self.kkind
    }

    /// The peer was seen using keys of width `seen`: the width in use
    /// becomes the narrower of the two, never wider.
    pub fn narrow_key_kind(&mut self, seen: VarKeyKind)
        ensures
            final(self)@ == (ContextState { kkind: old(self)@.kkind.narrowest_spec(seen), ..old(self)@ }),
            final(self).wf() == old(self).wf(),
    {
        self.kkind = self.kkind.narrowest(seen);
    }

    /// Register a waiter for the answer with header `h`.
    pub fn register(&mut self, h: VarHeader, slot: T) -> (r: Result<(), WaitError>)
        requires
            old(self).wf(),
        ensures
            final(self).wf(),
            final(self)@.kkind == old(self)@.kkind,
            final(self)@.seq == old(self)@.seq,
            old(self)@.ledger.closed ==> r == Err::<(), WaitError>(WaitError::Closed)
                && final(self)@ == old(self)@,
            !old(self)@.ledger.closed && first_match(old(self)@.ledger.entries, h) < old(self)@.ledger.entries.len()
                ==> r == Err::<(), WaitError>(WaitError::Duplicate) && final(self)@ == old(self)@,
            !old(self)@.ledger.closed && first_match(old(self)@.ledger.entries, h) == old(self)@.ledger.entries.len()
                ==> r is Ok && final(self)@.ledger == (LedgerState {
                    entries: old(self)@.ledger.entries.push((h, slot)),
                    closed: false,
                }),
    {
        self.map.wait(h, slot)
    }

    /// Register the two waiters of a planned request: for its response and
    /// for its error reply. Either both are registered or neither is.
    pub fn register_request(&mut self, plan: &RequestPlan, ok_slot: T, err_slot: T) -> (r: Result<(), WaitError>)
        requires
            old(self).wf(),
        ensures
            final(self).wf(),
            final(self)@.kkind == old(self)@.kkind,
            final(self)@.seq == old(self)@.seq,
            final(self)@.ledger.closed == old(self)@.ledger.closed,
            old(self)@.ledger.closed ==> r == Err::<(), WaitError>(WaitError::Closed)
                && final(self)@ == old(self)@,
            !old(self)@.ledger.closed ==> {
                let e = old(self)@.ledger.entries;
                let fresh = first_match(e, plan.ok_header) == e.len()
                    && first_match(e.push((plan.ok_header, ok_slot)), plan.err_header) == e.len() + 1;
                &&& fresh ==> r is Ok && final(self)@.ledger.entries
                    == e.push((plan.ok_header, ok_slot)).push((plan.err_header, err_slot))
                &&& !fresh ==> r == Err::<(), WaitError>(WaitError::Duplicate)
                    && final(self)@.ledger.entries == e
            },
    {
        let ghost e = self@.ledger.entries;
        proof {
            lemma_first_match(e, plan.ok_header);
            lemma_first_match(e.push((plan.ok_header, ok_slot)), plan.err_header);
        }
        let first = self.map.wait(plan.ok_header, ok_slot);
        if first.is_err() {
            return first;
        }
        match self.map.wait(plan.err_header, err_slot) {
            Err(_) => {
                proof {
                    lemma_first_match_push(e, (plan.ok_header, ok_slot), plan.ok_header);
                    assert(e.push((plan.ok_header, ok_slot)).remove(e.len() as int) =~= e);
                }
                let _ = self.map.cancel(&plan.ok_header);
                Err(WaitError::Duplicate)
            },
            Ok(()) => Ok(()),
        }
    }

    /// Settle a request from how its wait ended. A response or an error
    /// reply narrows the key width to the one the peer used; the error
    /// reply's body is handed back undecoded.
    pub fn settle(&mut self, reply: Reply) -> (r: Result<RpcFrame, HostErr<Vec<u8>>>)
        ensures
            final(self).wf() == old(self).wf(),
            final(self)@.seq == old(self)@.seq,
            final(self)@.ledger == old(self)@.ledger,
            match reply {
                Reply::Stopped | Reply::Dropped => {
                    &&& r == Err::<RpcFrame, HostErr<Vec<u8>>>(HostErr::Closed)
                    &&& final(self)@.kkind == old(self)@.kkind
                },
                Reply::Answered(f) => {
                    &&& r == Ok::<RpcFrame, HostErr<Vec<u8>>>(f)
                    &&& final(self)@.kkind == old(self)@.kkind.narrowest_spec(f.header.key.spec_kind())
                },
                Reply::Failed(f) => {
                    &&& r == Err::<RpcFrame, HostErr<Vec<u8>>>(HostErr::Wire(f.body))
                    &&& final(self)@.kkind == old(self)@.kkind.narrowest_spec(f.header.key.spec_kind())
                },
            },
    {
        match reply {
            Reply::Stopped | Reply::Dropped => Err(HostErr::Closed),
            Reply::Answered(f) => {
                self.narrow_key_kind(f.header.key.kind());
                Ok(f)
            },
            Reply::Failed(f) => {
                self.narrow_key_kind(f.header.key.kind());
                Err(HostErr::Wire(f.body))
            },
        }
    }

    /// Withdraw the waiter registered under `h`, for a request given up.
    pub fn cancel(&mut self, h: &VarHeader) -> (r: Option<T>)
        requires
            old(self).wf(),
        ensures
            final(self).wf(),
            final(self)@.kkind == old(self)@.kkind,
            final(self)@.seq == old(self)@.seq,
            final(self)@.ledger.closed == old(self)@.ledger.closed,
            first_match(old(self)@.ledger.entries, *h) == old(self)@.ledger.entries.len()
                ==> r is None && final(self)@ == old(self)@,
            first_match(old(self)@.ledger.entries, *h) < old(self)@.ledger.entries.len() ==> {
                let i = first_match(old(self)@.ledger.entries, *h);
                &&& r == Some(old(self)@.ledger.entries[i].1)
                &&& final(self)@.ledger.entries == old(self)@.ledger.entries.remove(i)
            },
    {
        self.map.cancel(h)
    }

    /// Hand a received frame to the waiting requests. The waiter it answers
    /// is removed and returned with the frame, to be given it; `None` when
    /// nobody waits for it, and an error once the context is closed.
    pub fn process_did_wake(&mut self, frame: RpcFrame) -> (r: Result<Option<(T, RpcFrame)>, ProcessError>)
        requires
            old(self).wf(),
        ensures
            final(self).wf(),
            final(self)@.kkind == old(self)@.kkind,
            final(self)@.seq == old(self)@.seq,
            old(self)@.ledger.closed ==> r == Err::<Option<(T, RpcFrame)>, ProcessError>(ProcessError::Closed)
                && final(self)@ == old(self)@,
            !old(self)@.ledger.closed && first_match(old(self)@.ledger.entries, frame.header)
                == old(self)@.ledger.entries.len() ==> (r matches Ok(None)) && final(self)@ == old(self)@,
            !old(self)@.ledger.closed && first_match(old(self)@.ledger.entries, frame.header)
                < old(self)@.ledger.entries.len() ==> {
                let i = first_match(old(self)@.ledger.entries, frame.header);
                &&& r matches Ok(Some((slot, f)))
                &&& r->Ok_0->Some_0.0 == old(self)@.ledger.entries[i].1
                &&& r->Ok_0->Some_0.1.header == frame.header
                &&& r->Ok_0->Some_0.1.body@ == frame.body@
                &&& final(self)@.ledger == (LedgerState {
                    entries: old(self)@.ledger.entries.remove(i),
                    closed: false,
                })
            },
    {
        match self.map.wake(&frame.header) {
            WakeOutcome::Woke(_h, slot) => Ok(Some((slot, frame))),
            WakeOutcome::NoMatch => Ok(None),
            WakeOutcome::Closed => Err(ProcessError::Closed),
        }
    }

    /// Close the context: every waiter is handed back, to be told that no
    /// answer will come, and later registrations and frames are refused.
    pub fn close(&mut self) -> (r: Vec<(VarHeader, T)>)
        requires
            old(self).wf(),
        ensures
            final(self).wf(),
            final(self)@.ledger.closed,
            final(self)@.ledger.entries.len() == 0,
            final(self)@.kkind == old(self)@.kkind,
            final(self)@.seq == old(self)@.seq,
            r@ == old(self)@.ledger.entries,
    {
        self.map.close()
    }
}

} // verus!
