use vstd::prelude::*;

use crate::key::Key;

verus! {

/// Index of the handler registered under `k`, or the length when none is.
pub open spec fn handler_index<H>(items: Seq<(Key, H)>, k: Seq<u8>) -> int
    decreases items.len(),
{
    if items.len() == 0 {
        0
    } else if items[0].0@ == k {
        0
    } else {
        1 + handler_index(items.drop_first(), k)
    }
}

pub proof fn lemma_handler_index<H>(items: Seq<(Key, H)>, k: Seq<u8>)
    ensures
        0 <= handler_index(items, k) <= items.len(),
        forall|j: int| 0 <= j < handler_index(items, k) ==> (#[trigger] items[j]).0@ != k,
        handler_index(items, k) < items.len() ==> items[handler_index(items, k)].0@ == k,
    decreases items.len(),
{
    if items.len() > 0 && items[0].0@ != k {
        lemma_handler_index(items.drop_first(), k);
        assert forall|j: int| 0 < j < items.len() implies #[trigger] items[j] == items.drop_first()[j - 1] by {}
    }
}

/// Why a frame could not be dispatched.
#[derive(Debug, PartialEq)]
pub enum Error<E> {
    /// No handler is registered for the frame's key.
    NoMatchingHandler { key: Key, seq_no: u32 },
    /// The handler ran and failed.
    DispatchFailure(E),
    /// The frame's header could not be decoded.
    Postcard,
}

/// The peer-side table of request handlers, at most `N` of them, one per
/// key, with the context handed to each.
pub struct Dispatch<Context, H, const N: usize> {
    items: Vec<(Key, H)>,
    context: Context,
}

impl<Context, H, const N: usize> Dispatch<Context, H, N> {
    /// The registered handlers with their keys, in the order of registration.
    pub closed spec fn handlers(&self) -> Seq<(Key, H)> {
        self.items@
    }

    pub closed spec fn spec_context(&self) -> Context {
        self.context
    }

    /// An empty table around context `c`.
    pub fn new(c: Context) -> (r: Self)
        ensures
            r.handlers().len() == 0,
            r.spec_context() == c,
    {
        Dispatch { items: Vec::new(), context: c }
    }

    /// Register `handler` for `key`: refused with "full" when `N` handlers
    /// are there, and with "dupe" when `key` already has one.
    pub fn add_handler(&mut self, key: Key, handler: H) -> (r: Result<(), &'static str>)
        ensures
            final(self).spec_context() == old(self).spec_context(),
            old(self).handlers().len() >= N ==> r == Err::<(), &'static str>("full")
                && final(self).handlers() == old(self).handlers(),
            old(self).handlers().len() < N && handler_index(old(self).handlers(), key@) < old(self).handlers().len()
                ==> r == Err::<(), &'static str>("dupe") && final(self).handlers() == old(self).handlers(),
            old(self).handlers().len() < N && handler_index(old(self).handlers(), key@) == old(self).handlers().len()
                ==> r is Ok && final(self).handlers() == old(self).handlers().push((key, handler)),
    {
        if self.items.len() >= N {
            return Err("full");
        }
        proof {
            lemma_handler_index(self.items@, key@);
        }
        let mut i: usize = 0;
        while i < self.items.len()
            invariant
                i <= self.items@.len(),
                self.items@ == old(self).items@,
                self.context == old(self).context,
                self.items@.len() < N,
                forall|j: int| 0 <= j < i ==> (#[trigger] self.items@[j]).0@ != key@,
            decreases self.items@.len() - i,
        {
            if self.items[i].0.same_as(&key) {
                proof {
                    lemma_handler_index(self.items@, key@);
                    assert(handler_index(self.items@, key@) < self.items@.len());
                }
                return Err("dupe");
            }
            i = i + 1;
        }
        proof {
            lemma_handler_index(self.items@, key@);
            if handler_index(self.items@, key@) < self.items@.len() {
                assert(self.items@[handler_index(self.items@, key@)].0@ == key@);
            }
        }
        self.items.push((key, handler));
        Ok(())
    }

    /// The handler registered for `key`, if any.
    pub fn handler_for(&self, key: &Key) -> (r: Option<&H>)
        ensures
            handler_index(self.handlers(), key@) == self.handlers().len() ==> r is None,
            handler_index(self.handlers(), key@) < self.handlers().len()
                ==> r == Some(&self.handlers()[handler_index(self.handlers(), key@)].1),
    {
        proof {
            lemma_handler_index(self.items@, key@);
        }
        let mut i: usize = 0;
        while i < self.items.len()
            invariant
                i <= self.items@.len(),
                forall|j: int| 0 <= j < i ==> (#[trigger] self.items@[j]).0@ != key@,
                0 <= handler_index(self.items@, key@) <= self.items@.len(),
                handler_index(self.items@, key@) < self.items@.len() ==> self.items@[handler_index(self.items@, key@)].0@ == key@,
                forall|j: int| 0 <= j < handler_index(self.items@, key@) ==> (#[trigger] self.items@[j]).0@ != key@,
            decreases self.items@.len() - i,
        {
            if self.items[i].0.same_as(key) {
                assert(handler_index(self.items@, key@) == i) by {
                    if handler_index(self.items@, key@) < i {
                    }
                }
                return Some(&self.items[i].1);
            }
            i = i + 1;
        }
        None
    }

    /// The context handed to every handler.
    pub fn context(&mut self) -> (r: &mut Context)
        ensures
            *r == old(self).spec_context(),
            final(self).spec_context() == *final(r),
            final(self).handlers() == old(self).handlers(),
    {
        &mut self.context
    }
}

} // verus!
