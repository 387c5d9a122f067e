use vstd::prelude::*;

use crate::key::{headers_match, VarHeader};

verus! {

/// What the ledger holds: each waiting request's header with its slot, in
/// the order they were registered, and whether it has been closed.
pub struct LedgerState<T> {
    pub entries: Seq<(VarHeader, T)>,
    pub closed: bool,
}

/// No two registered headers name the same exchange.
pub open spec fn no_duplicate_waiters<T>(entries: Seq<(VarHeader, T)>) -> bool {
    forall|i: int, j: int|
        0 <= i < entries.len() && 0 <= j < entries.len() && i != j
            ==> !headers_match(#[trigger] entries[i].0, #[trigger] entries[j].0)
}

/// Index of the first entry whose header matches `h`, or the length when
/// none does.
pub open spec fn first_match<T>(entries: Seq<(VarHeader, T)>, h: VarHeader) -> int
    decreases entries.len(),
{
    if entries.len() == 0 {
        0
    } else if headers_match(entries[0].0, h) {
        0
    } else {
        1 + first_match(entries.drop_first(), h)
    }
}

pub proof fn lemma_first_match<T>(entries: Seq<(VarHeader, T)>, h: VarHeader)
    ensures
        0 <= first_match(entries, h) <= entries.len(),
        forall|j: int| 0 <= j < first_match(entries, h) ==> !headers_match(#[trigger] entries[j].0, h),
        first_match(entries, h) < entries.len() ==> headers_match(entries[first_match(entries, h)].0, h),
        forall|j: int| 0 <= j < entries.len() && headers_match(#[trigger] entries[j].0, h)
            ==> first_match(entries, h) <= j,
    decreases entries.len(),
{
    if entries.len() > 0 && !headers_match(entries[0].0, h) {
        lemma_first_match(entries.drop_first(), h);
        assert forall|j: int| 0 <= j < first_match(entries, h) implies !headers_match(#[trigger] entries[j].0, h) by {
            if j > 0 {
                assert(entries[j] == entries.drop_first()[j - 1]);
            }
        }
        assert forall|j: int| 0 <= j < entries.len() && headers_match(#[trigger] entries[j].0, h)
            implies first_match(entries, h) <= j by {
            assert(j > 0);
            assert(entries[j] == entries.drop_first()[j - 1]);
        }
    }
}

/// A frame is delivered to at most one waiter: the waiter that a wake hands
/// out leaves the ledger, no other waiter left there matches its header, and
/// the ledger keeps having no two waiters for one exchange.
pub proof fn lemma_single_delivery<T>(entries: Seq<(VarHeader, T)>, h: VarHeader)
    requires
        no_duplicate_waiters(entries),
        first_match(entries, h) < entries.len(),
    ensures
        ({
            let i = first_match(entries, h);
            let rest = entries.remove(i);
            &&& rest.len() == entries.len() - 1
            &&& no_duplicate_waiters(rest)
            &&& first_match(rest, entries[i].0) == rest.len()
        }),
{
    lemma_first_match(entries, h);
    let i = first_match(entries, h);
    let rest = entries.remove(i);
    assert forall|a: int| 0 <= a < rest.len() implies !headers_match(#[trigger] rest[a].0, entries[i].0) by {
        let a2 = if a < i { a } else { a + 1 };
        assert(rest[a] == entries[a2]);
    }
    assert forall|a: int, b: int|
        0 <= a < rest.len() && 0 <= b < rest.len() && a != b
            implies !headers_match(#[trigger] rest[a].0, #[trigger] rest[b].0) by {
        let a2 = if a < i { a } else { a + 1 };
        let b2 = if b < i { b } else { b + 1 };
        assert(rest[a] == entries[a2]);
        assert(rest[b] == entries[b2]);
    }
    lemma_first_match(rest, entries[i].0);
}

/// Why a waiter could not be registered.
#[derive(Clone, Copy, Debug, PartialEq, Eq, Structural)]
pub enum WaitError {
    /// The ledger has been closed.
    Closed,
    /// A waiter for the same exchange is already registered.
    Duplicate,
}

/// What became of a frame handed to the ledger.
#[derive(Debug)]
pub enum WakeOutcome<T> {
    /// The waiter registered under this header was removed and is handed out.
    Woke(VarHeader, T),
    /// Nobody waits for this header.
    NoMatch,
    /// The ledger has been closed.
    Closed,
}

/// The in-flight request ledger: one slot per waiting `(key, seq)`, woken
/// by the first matching frame and then gone.
pub struct WaitLedger<T> {
    entries: Vec<(VarHeader, T)>,
    closed: bool,
}

impl<T> View for WaitLedger<T> {
    type V = LedgerState<T>;

    closed spec fn view(&self) -> LedgerState<T> {
        LedgerState { entries: self.entries@, closed: self.closed }
    }
}

impl<T> WaitLedger<T> {
    pub open spec fn wf(&self) -> bool {
        no_duplicate_waiters(self@.entries)
    }

    /// An open ledger with nobody waiting.
    pub fn new() -> (r: WaitLedger<T>)
        ensures
            r@.entries.len() == 0,
            !r@.closed,
            r.wf(),
    {
        WaitLedger { entries: Vec::new(), closed: false }
    }

    /// Number of waiters registered.
    pub fn len(&self) -> (r: usize)
        ensures
            r == self@.entries.len(),
    {
        self.entries.len()
    }

    /// Whether the ledger has been closed.
    pub fn is_closed(&self) -> (r: bool)
        ensures
            r == self@.closed,
    {
        self.closed
    }

    fn find(&self, h: &VarHeader) -> (r: usize)
        ensures
            r == first_match(self@.entries, *h),
    {
        proof {
            lemma_first_match(self@.entries, *h);
        }
        let mut i: usize = 0;
        while i < self.entries.len()
            invariant
                i <= self@.entries.len(),
                self@.entries == self.entries@,
                forall|j: int| 0 <= j < i ==> !headers_match(#[trigger] self@.entries[j].0, *h),
                i <= first_match(self@.entries, *h),
            decreases self@.entries.len() - i,
        {
            proof {
                lemma_first_match(self@.entries, *h);
            }
            if self.entries[i].0.matches(h) {
                return i;
            }
            i = i + 1;
        }
        i
    }

    /// Register a waiter for `h`. Refused when the ledger is closed, or when
    /// a waiter for a matching header is already there: one payload is never
    /// handed to two waiters.
    pub fn wait(&mut self, h: VarHeader, slot: T) -> (r: Result<(), WaitError>)
        requires
            old(self).wf(),
        ensures
            final(self).wf(),
            old(self)@.closed ==> r == Err::<(), WaitError>(WaitError::Closed) && final(self)@ == old(self)@,
            !old(self)@.closed && first_match(old(self)@.entries, h) < old(self)@.entries.len()
                ==> r == Err::<(), WaitError>(WaitError::Duplicate) && final(self)@ == old(self)@,
            !old(self)@.closed && first_match(old(self)@.entries, h) == old(self)@.entries.len()
                ==> r is Ok && final(self)@ == (LedgerState {
                    entries: old(self)@.entries.push((h, slot)),
                    closed: false,
                }),
    {
        if self.closed {
            return Err(WaitError::Closed);
        }
        let i = self.find(&h);
        proof {
            lemma_first_match(self@.entries, h);
        }
        if i < self.entries.len() {
            return Err(WaitError::Duplicate);
        }
        self.entries.push((h, slot));
        proof {
            let e = self@.entries;
            assert forall|a: int, b: int|
                0 <= a < e.len() && 0 <= b < e.len() && a != b
                    implies !headers_match(#[trigger] e[a].0, #[trigger] e[b].0) by {
                if a == e.len() - 1 {
                    assert(!headers_match(e[b].0, h));
                } else if b == e.len() - 1 {
                    assert(!headers_match(e[a].0, h));
                }
            }
        }
        Ok(())
    }

    /// Hand a frame's header to the ledger: the first waiter whose header
    /// matches is removed and returned; otherwise nothing changes.
    pub fn wake(&mut self, h: &VarHeader) -> (r: WakeOutcome<T>)
        requires
            old(self).wf(),
        ensures
            final(self).wf(),
            old(self)@.closed ==> r is Closed && final(self)@ == old(self)@,
            !old(self)@.closed && first_match(old(self)@.entries, *h) == old(self)@.entries.len()
                ==> r is NoMatch && final(self)@ == old(self)@,
            !old(self)@.closed && first_match(old(self)@.entries, *h) < old(self)@.entries.len() ==> {
                let i = first_match(old(self)@.entries, *h);
                &&& r == WakeOutcome::Woke(old(self)@.entries[i].0, old(self)@.entries[i].1)
                &&& final(self)@ == (LedgerState {
                    entries: old(self)@.entries.remove(i),
                    closed: false,
                })
            },
    {
        if self.closed {
            return WakeOutcome::Closed;
        }
        let i = self.find(h);
        proof {
            lemma_first_match(self@.entries, *h);
        }
        if i == self.entries.len() {
            return WakeOutcome::NoMatch;
        }
        let ghost before = self@.entries;
        let (hdr, slot) = self.entries.remove(i);
        proof {
            let e = self@.entries;
            assert(e =~= before.remove(i as int));
            assert forall|a: int, b: int|
                0 <= a < e.len() && 0 <= b < e.len() && a != b
                    implies !headers_match(#[trigger] e[a].0, #[trigger] e[b].0) by {
                let a2 = if a < i { a } else { a + 1 };
                let b2 = if b < i { b } else { b + 1 };
                assert(e[a] == before[a2]);
                assert(e[b] == before[b2]);
            }
        }
        WakeOutcome::Woke(hdr, slot)
    }

    /// Withdraw the first waiter whose header matches `h` (a request
    /// that was given up), so that it cannot take a later frame.
    pub fn cancel(&mut self, h: &VarHeader) -> (r: Option<T>)
        requires
            old(self).wf(),
        ensures
            final(self).wf(),
            final(self)@.closed == old(self)@.closed,
            first_match(old(self)@.entries, *h) == old(self)@.entries.len()
                ==> r is None && final(self)@ == old(self)@,
            first_match(old(self)@.entries, *h) < old(self)@.entries.len() ==> {
                let i = first_match(old(self)@.entries, *h);
                &&& r == Some(old(self)@.entries[i].1)
                &&& final(self)@.entries == old(self)@.entries.remove(i)
            },
    {
        let i = self.find(h);
        proof {
            lemma_first_match(self@.entries, *h);
        }
        if i == self.entries.len() {
            return None;
        }
        let ghost before = self@.entries;
        let (_hdr, slot) = self.entries.remove(i);
        proof {
            let e = self@.entries;
            assert(e =~= before.remove(i as int));
            assert forall|a: int, b: int|
                0 <= a < e.len() && 0 <= b < e.len() && a != b
                    implies !headers_match(#[trigger] e[a].0, #[trigger] e[b].0) by {
                let a2 = if a < i { a } else { a + 1 };
                let b2 = if b < i { b } else { b + 1 };
                assert(e[a] == before[a2]);
                assert(e[b] == before[b2]);
            }
        }
        Some(slot)
    }

    /// Close the ledger: every waiter is removed and handed back, so that
    /// each can be told it will get no answer; later registrations fail.
    pub fn close(&mut self) -> (r: Vec<(VarHeader, T)>)
        ensures
            final(self).wf(),
            final(self)@.closed,
            final(self)@.entries.len() == 0,
            r@ == old(self)@.entries,
    {
        self.closed = true;
        let mut r: Vec<(VarHeader, T)> = Vec::new();
        std::mem::swap(&mut r, &mut self.entries);
        r
    }
}

} // verus!
