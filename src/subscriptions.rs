use vstd::prelude::*;

use crate::key::{keys_match, Key, VarKey};

verus! {

/// The I/O side has been closed; no further messages are possible.
#[derive(Clone, Copy, Debug, PartialEq, Eq, Structural)]
pub struct IoClosed;

/// What the subscription table holds: each topic key with the sender of its
/// current subscriber, and whether the table has been stopped.
pub struct TableState<S> {
    pub entries: Seq<(Key, S)>,
    pub stopped: bool,
}

/// Each topic key appears at most once.
pub open spec fn unique_topics<S>(entries: Seq<(Key, S)>) -> bool {
    forall|i: int, j: int|
        0 <= i < entries.len() && 0 <= j < entries.len() && i != j
            ==> (#[trigger] entries[i]).0@ != (#[trigger] entries[j]).0@
}

/// Index of the entry for topic `k`, or the length when there is none.
pub open spec fn topic_index<S>(entries: Seq<(Key, S)>, k: Seq<u8>) -> int
    decreases entries.len(),
{
    if entries.len() == 0 {
        0
    } else if entries[0].0@ == k {
        0
    } else {
        1 + topic_index(entries.drop_first(), k)
    }
}

/// Index of the first entry whose key matches a key seen on the wire, or
/// the length when none does.
pub open spec fn route_index<S>(entries: Seq<(Key, S)>, k: Seq<u8>) -> int
    decreases entries.len(),
{
    if entries.len() == 0 {
        0
    } else if keys_match(entries[0].0@, k) {
        0
    } else {
        1 + route_index(entries.drop_first(), k)
    }
}

/// The entries after subscribing to `k` with sender `s`: an existing entry
/// for `k` gets the new sender in its place, else one is appended.
pub open spec fn installed<S>(entries: Seq<(Key, S)>, k: Key, s: S) -> Seq<(Key, S)> {
    let i = topic_index(entries, k@);
    if i < entries.len() {
        entries.update(i, (k, s))
    } else {
        entries.push((k, s))
    }
}

pub proof fn lemma_topic_index<S>(entries: Seq<(Key, S)>, k: Seq<u8>)
    ensures
        0 <= topic_index(entries, k) <= entries.len(),
        forall|j: int| 0 <= j < topic_index(entries, k) ==> (#[trigger] entries[j]).0@ != k,
        topic_index(entries, k) < entries.len() ==> entries[topic_index(entries, k)].0@ == k,
        forall|j: int| 0 <= j < entries.len() && (#[trigger] entries[j]).0@ == k
            ==> topic_index(entries, k) <= j,
    decreases entries.len(),
{
    if entries.len() > 0 && entries[0].0@ != k {
        lemma_topic_index(entries.drop_first(), k);
        assert forall|j: int| 0 < j < entries.len() implies #[trigger] entries[j] == entries.drop_first()[j - 1] by {}
    }
}

pub proof fn lemma_route_index<S>(entries: Seq<(Key, S)>, k: Seq<u8>)
    ensures
        0 <= route_index(entries, k) <= entries.len(),
        forall|j: int| 0 <= j < route_index(entries, k) ==> !keys_match((#[trigger] entries[j]).0@, k),
        route_index(entries, k) < entries.len() ==> keys_match(entries[route_index(entries, k)].0@, k),
        forall|j: int| 0 <= j < entries.len() && keys_match((#[trigger] entries[j]).0@, k)
            ==> route_index(entries, k) <= j,
    decreases entries.len(),
{
    if entries.len() > 0 && !keys_match(entries[0].0@, k) {
        lemma_route_index(entries.drop_first(), k);
        assert forall|j: int| 0 < j < entries.len() implies #[trigger] entries[j] == entries.drop_first()[j - 1] by {}
    }
}

/// However many times a topic is subscribed to, the table keeps one sender
/// per topic: after a subscription to `k`, exactly one entry holds `k`, and
/// it holds the newest sender.
pub proof fn lemma_one_subscriber_per_topic<S>(entries: Seq<(Key, S)>, k: Key, s: S)
    requires
        unique_topics(entries),
    ensures
        ({
            let e = installed(entries, k, s);
            &&& unique_topics(e)
            &&& topic_index(e, k@) < e.len()
            &&& e[topic_index(e, k@)] == (k, s)
            &&& forall|j: int| 0 <= j < e.len() && (#[trigger] e[j]).0@ == k@ ==> j == topic_index(e, k@)
        }),
{
    lemma_topic_index(entries, k@);
    let i = topic_index(entries, k@);
    let e = installed(entries, k, s);
    if i < entries.len() {
        assert forall|a: int, b: int|
            0 <= a < e.len() && 0 <= b < e.len() && a != b
                implies (#[trigger] e[a]).0@ != (#[trigger] e[b]).0@ by {
            if a != i && b != i {
                assert(e[a] == entries[a] && e[b] == entries[b]);
            } else if a == i {
                assert(e[b] == entries[b]);
                assert(entries[i].0@ == k@);
            } else {
                assert(e[a] == entries[a]);
                assert(entries[i].0@ == k@);
            }
        }
    } else {
        assert forall|a: int, b: int|
            0 <= a < e.len() && 0 <= b < e.len() && a != b
                implies (#[trigger] e[a]).0@ != (#[trigger] e[b]).0@ by {
            if a == entries.len() {
                assert(e[b] == entries[b]);
            } else if b == entries.len() {
                assert(e[a] == entries[a]);
            } else {
                assert(e[a] == entries[a] && e[b] == entries[b]);
            }
        }
    }
    lemma_topic_index(e, k@);
    assert(e[i] == (k, s));
}

/// The table of active subscriptions: one sender per topic key.
pub struct SubscriptionTable<S> {
    list: Vec<(Key, S)>,
    stopped: bool,
}

impl<S> View for SubscriptionTable<S> {
    type V = TableState<S>;

    closed spec fn view(&self) -> TableState<S> {
        TableState { entries: self.list@, stopped: self.stopped }
    }
}

impl<S> SubscriptionTable<S> {
    pub open spec fn wf(&self) -> bool {
        unique_topics(self@.entries)
    }

    /// An empty, open table.
    pub fn new() -> (r: SubscriptionTable<S>)
        ensures
            r@.entries.len() == 0,
            !r@.stopped,
            r.wf(),
    {
        SubscriptionTable { list: Vec::new(), stopped: false }
    }

    /// Number of topics with a subscriber.
    pub fn len(&self) -> (r: usize)
        ensures
            r == self@.entries.len(),
    {
        self.list.len()
    }

    /// Whether the table has been stopped.
    pub fn is_stopped(&self) -> (r: bool)
        ensures
            r == self@.stopped,
    {
        self.stopped
    }

    /// Make `sender` the subscriber of topic `key`. Refused once the table
    /// is stopped. A sender it replaces is handed back, so that its receiver
    /// sees the end of its stream once drained.
    pub fn install(&mut self, key: Key, sender: S) -> (r: Result<Option<S>, IoClosed>)
        requires
            old(self).wf(),
        ensures
            final(self).wf(),
            old(self)@.stopped ==> r is Err && final(self)@ == old(self)@,
            !old(self)@.stopped ==> {
                let i = topic_index(old(self)@.entries, key@);
                &&& r is Ok
                &&& final(self)@ == (TableState {
                    entries: installed(old(self)@.entries, key, sender),
                    stopped: false,
                })
                &&& i < old(self)@.entries.len() ==> r == Ok::<Option<S>, IoClosed>(Some(old(self)@.entries[i].1))
                &&& i == old(self)@.entries.len() ==> r == Ok::<Option<S>, IoClosed>(None)
            },
    {
        if self.stopped {
            return Err(IoClosed);
        }
        proof {
            lemma_topic_index(self@.entries, key@);
            lemma_one_subscriber_per_topic(self@.entries, key, sender);
        }
        let ghost before = self@.entries;
        let mut i: usize = 0;
        while i < self.list.len()
            invariant
                i <= self.list@.len(),
                self@.entries == self.list@,
                before == self.list@,
                unique_topics(before),
                self@ == old(self)@,
                !self.stopped,
                forall|j: int| 0 <= j < i ==> (#[trigger] self.list@[j]).0@ != key@,
            decreases self.list@.len() - i,
        {
            if self.list[i].0.same_as(&key) {
                proof {
                    lemma_topic_index(self@.entries, key@);
                    lemma_one_subscriber_per_topic(before, key, sender);
                }
                let old_entry = self.list.remove(i);
                self.list.insert(i, (key, sender));
                assert(topic_index(before, key@) == i);
                assert(self.list@ =~= installed(before, key, sender));
                assert(old_entry == before[i as int]);
                return Ok(Some(old_entry.1));
            }
            i = i + 1;
        }
        proof {
            lemma_topic_index(self@.entries, key@);
            lemma_one_subscriber_per_topic(before, key, sender);
        }
        self.list.push((key, sender));
        assert(self.list@ =~= installed(before, key, sender));
        Ok(None)
    }

    /// The sender for a frame's key: the first subscriber whose topic
    /// matches it at the frame's width, if any.
    pub fn route(&self, key: &VarKey) -> (r: Option<&S>)
        ensures
            route_index(self@.entries, key@) == self@.entries.len() ==> r is None,
            route_index(self@.entries, key@) < self@.entries.len()
                ==> r == Some(&self@.entries[route_index(self@.entries, key@)].1),
    {
        let mut i: usize = 0;
        while i < self.list.len()
            invariant
                i <= self.list@.len(),
                self@.entries == self.list@,
                forall|j: int| 0 <= j < i ==> !keys_match((#[trigger] self.list@[j]).0@, key@),
            decreases self.list@.len() - i,
        {
            if VarKey::Key8(self.list[i].0).matches(key) {
                proof {
                    lemma_route_index(self@.entries, key@);
                }
                return Some(&self.list[i].1);
            }
            i = i + 1;
        }
        proof {
            lemma_route_index(self@.entries, key@);
        }
        None
    }

    /// Stop the table: every sender is removed and handed back, so that
    /// their receivers see the end of their streams; later subscriptions
    /// are refused.
    pub fn close(&mut self) -> (r: Vec<(Key, S)>)
        ensures
            final(self).wf(),
            final(self)@.stopped,
            final(self)@.entries.len() == 0,
            r@ == old(self)@.entries,
    {
        self.stopped = true;
        let mut r: Vec<(Key, S)> = Vec::new();
        std::mem::swap(&mut r, &mut self.list);
        r
    }
}

} // verus!
