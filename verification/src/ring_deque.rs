//! A double-ended queue with a capacity policy, which records a metric for
//! every push and pop.
use std::collections::VecDeque;
use vstd::prelude::*;

verus! {

/// The queue was closed.
#[derive(Clone, Copy, Debug, PartialEq, Eq)]
pub struct Closed;

/// Whether a conditional pop waits for the queue or gives up when another
/// holder has it.
#[derive(Clone, Copy, Debug, PartialEq, Eq)]
pub enum Priority {
    Required,
    Optional,
}

/// What a push does when the queue is at capacity.
#[derive(Clone, Copy, Debug, PartialEq, Eq)]
pub enum Behavior {
    /// no capacity
    Unbounded,
    /// capacity; a push at capacity drops the item at the other end
    Backpressure(usize),
    /// capacity; a push at capacity drops the item at the other end
    Wrap(usize),
    /// capacity; a push at capacity hands the new item back
    Reject(usize),
}

impl Default for Closed {
    fn default() -> (r: Self)
        ensures
            r == Closed,
    {
        Closed
    }
}

impl Default for Priority {
    fn default() -> (r: Self)
        ensures
            r == Priority::Required,
    {
        Priority::Required
    }
}

impl Default for Behavior {
    fn default() -> (r: Self)
        ensures
            r == Behavior::Unbounded,
    {
        Behavior::Unbounded
    }
}

pub open spec fn spec_capacity(b: Behavior) -> Option<usize> {
    match b {
        Behavior::Unbounded => None,
        Behavior::Backpressure(cap) => Some(cap),
        Behavior::Wrap(cap) => Some(cap),
        Behavior::Reject(cap) => Some(cap),
    }
}

impl Behavior {
    /// The capacity, if the queue has one.
    pub fn capacity(&self) -> (r: Option<usize>)
        ensures
            r == spec_capacity(*self),
    {
        match self {
            Behavior::Unbounded => None,
            Behavior::Backpressure(cap) => Some(*cap),
            Behavior::Wrap(cap) => Some(*cap),
            Behavior::Reject(cap) => Some(*cap),
        }
    }
}

/// What the queue records about one operation.
#[derive(Clone, Debug)]
pub enum Record {
    /// An item was pushed (counts `push` and `push_back`/`push_front`), or
    /// refused at capacity (the same counts, with reason `reject`).
    Push { back: bool, rejected: bool },
    /// An item left the queue: its time in the queue if known (measure
    /// `sojourn_time`), the length after (measure `queue_len`), and the counts
    /// `pop` and `pop_back`/`pop_front`, all with the reason.
    Pop { back: bool, reason: String, sojourn: Option<u128>, len: usize },
    /// The length after a push that dropped nothing (measure `queue_len`).
    Len(usize),
}

/// A record as plain values.
pub enum RecordView {
    Push { back: bool, rejected: bool },
    Pop { back: bool, reason: Seq<char>, sojourn: Option<u128>, len: usize },
    Len(usize),
}

impl Record {
    pub open spec fn view(&self) -> RecordView {
        match self {
            Record::Push { back, rejected } => RecordView::Push { back: *back, rejected: *rejected },
            Record::Pop { back, reason, sojourn, len } => RecordView::Pop {
                back: *back,
                reason: reason@,
                sojourn: *sojourn,
                len: *len,
            },
            Record::Len(n) => RecordView::Len(*n),
        }
    }
}

/// A queue as plain values: whether it is open, its policy, its items with
/// the time each was pushed, and what it has recorded.
pub struct QueueView<T> {
    pub open: bool,
    pub behavior: Behavior,
    pub items: Seq<(T, Option<u128>)>,
    pub records: Seq<RecordView>,
}

/// How long an item pushed at `pushed` has waited at `now`, when both are known.
pub open spec fn sojourn(pushed: Option<u128>, now: Option<u128>) -> Option<u128> {
    match (pushed, now) {
        (Some(p), Some(n)) => if p <= n { Some((n - p) as u128) } else { None },
        _ => None,
    }
}

/// The queue has room for another item.
pub open spec fn has_capacity<T>(q: QueueView<T>) -> bool {
    match spec_capacity(q.behavior) {
        Some(cap) => cap > q.items.len(),
        None => true,
    }
}

/// The queue holds no more items than its capacity.
pub open spec fn within_capacity<T>(q: QueueView<T>) -> bool {
    match spec_capacity(q.behavior) {
        Some(cap) => q.items.len() <= cap,
        None => true,
    }
}

/// The policy has no capacity, or one of at least one item.
pub open spec fn positive_capacity(b: Behavior) -> bool {
    match spec_capacity(b) {
        Some(cap) => cap >= 1,
        None => true,
    }
}

/// Takes the item at one end of an open queue.
pub open spec fn take<T>(q: QueueView<T>, back: bool, reason: Seq<char>, now: Option<u128>) -> (QueueView<T>, Option<T>) {
    if q.items.len() == 0 {
        (q, None)
    } else {
        let i = if back { q.items.len() - 1 } else { 0 };
        let items = if back { q.items.drop_last() } else { q.items.drop_first() };
        (
            QueueView {
                items,
                records: q.records.push(
                    RecordView::Pop { back, reason, sojourn: sojourn(q.items[i].1, now), len: items.len() as usize },
                ),
                ..q
            },
            Some(q.items[i].0),
        )
    }
}

pub open spec fn wrap_reason() -> Seq<char> {
    seq!['w', 'r', 'a', 'p']
}

pub open spec fn explicit_reason() -> Seq<char> {
    seq!['e', 'x', 'p', 'l', 'i', 'c', 'i', 't']
}

/// Pushes `v` at one end: on a closed queue nothing happens and the result is
/// `Closed`; at capacity a `Reject` queue hands `v` back, any other drops the
/// item at the other end (reason `wrap`) and gives it back.
pub open spec fn push<T>(q: QueueView<T>, back: bool, v: T, now: Option<u128>) -> (QueueView<T>, Result<Option<T>, Closed>) {
    if !q.open {
        (q, Err(Closed))
    } else if !has_capacity(q) && q.behavior is Reject {
        (QueueView { records: q.records.push(RecordView::Push { back, rejected: true }), ..q }, Ok(Some(v)))
    } else {
        let (q1, prev) = if has_capacity(q) { (q, None) } else { take(q, !back, wrap_reason(), now) };
        let items = if back { q1.items.push((v, now)) } else { seq![(v, now)] + q1.items };
        let records = q1.records.push(RecordView::Push { back, rejected: false });
        let records = if prev is None { records.push(RecordView::Len(items.len() as usize)) } else { records };
        (QueueView { items, records, ..q1 }, Ok(prev))
    }
}

/// Pops from one end of an open queue with the reason `explicit`.
pub open spec fn pop<T>(q: QueueView<T>, back: bool, now: Option<u128>) -> (QueueView<T>, Result<Option<T>, Closed>) {
    if !q.open {
        (q, Err(Closed))
    } else {
        let (q1, r) = take(q, back, explicit_reason(), now);
        (q1, Ok(r))
    }
}

} // verus!

verus! {

/// The time of the running simulation in nanoseconds since its start, or
/// `None` outside a simulation. Calls `bach::time::Instant::try_now`; the
/// result depends on the simulation's clock, so nothing is stated of it.
#[verifier::external_body]
pub fn sim_now() -> (r: Option<u128>) {
    bach::time::Instant::try_now().map(|t| t.elapsed_since_start().as_nanos())
}

/// A double-ended queue with a capacity policy, which records a metric for
/// every push and pop. Items carry the time they were pushed.
pub struct RingDeque<T> {
    open: bool,
    behavior: Behavior,
    queue: VecDeque<(T, Option<u128>)>,
    name: String,
    records: Vec<Record>,
}

pub open spec fn records_view(records: Seq<Record>) -> Seq<RecordView> {
    records.map_values(|r: Record| r.view())
}

impl<T> View for RingDeque<T> {
    type V = QueueView<T>;

    closed spec fn view(&self) -> QueueView<T> {
        QueueView {
            open: self.open,
            behavior: self.behavior,
            items: self.queue@,
            records: records_view(self.records@),
        }
    }
}

fn sojourn_of(pushed: Option<u128>, now: Option<u128>) -> (r: Option<u128>)
    ensures
        r == sojourn(pushed, now),
{
    match (pushed, now) {
        (Some(p), Some(n)) => if p <= n {
            Some(n - p)
        } else {
            None
        },
        _ => None,
    }
}

impl<T> RingDeque<T> {
    /// The name that the queue's metrics carry.
    pub closed spec fn spec_name(&self) -> Seq<char> {
        self.name@
    }

    /// An empty, open queue with the given policy and name.
    pub fn new(behavior: Behavior, name: &str) -> (r: Self)
        ensures
            r@ == (QueueView::<T> { open: true, behavior, items: seq![], records: seq![] }),
            r.spec_name() == name@,
    {
        let cap = match behavior.capacity() {
            Some(cap) => cap,
            None => 64,
        };
        let queue = VecDeque::with_capacity(cap);
        let r = RingDeque { open: true, behavior, queue, name: name.to_owned(), records: Vec::new() };
        assert(r@.records =~= Seq::<RecordView>::empty());
        r
    }

    /// The name that the queue's metrics carry.
    pub fn name(&self) -> (r: &str)
        ensures
            r@ == self.spec_name(),
    {
        self.name.as_str()
    }

    /// The number of items in the queue.
    pub fn len(&self) -> (r: usize)
        ensures
            r == self@.items.len(),
    {
        self.queue.len()
    }

    /// Whether the queue is open.
    pub fn is_open(&self) -> (r: bool)
        ensures
            r == self@.open,
    {
        self.open
    }

    /// Hands out what the queue has recorded so far and forgets it.
    pub fn take_records(&mut self) -> (r: Vec<Record>)
        ensures
            records_view(r@) == old(self)@.records,
            final(self)@ == (QueueView { records: seq![], ..old(self)@ }),
            final(self).spec_name() == old(self).spec_name(),
    {
        let mut r = Vec::new();
        std::mem::swap(&mut r, &mut self.records);
        assert(records_view(self.records@) =~= Seq::<RecordView>::empty());
        r
    }

    fn take_at(&mut self, back: bool, reason: &str, now: Option<u128>) -> (r: Option<T>)
        ensures
            (final(self)@, r) == take(old(self)@, back, reason@, now),
            final(self).spec_name() == old(self).spec_name(),
    {
        let item = if back {
            self.queue.pop_back()
        } else {
            self.queue.pop_front()
        };
        match item {
            None => {
                assert(old(self)@.items.len() == 0) by {
                    if old(self)@.items.len() > 0 {
                        assert(false);
                    }
                };
                None
            },
            Some((v, pushed)) => {
                let s = sojourn_of(pushed, now);
                let len = self.queue.len();
                let ghost before = records_view(self.records@);
                self.records.push(Record::Pop { back, reason: reason.to_owned(), sojourn: s, len });
                assert(records_view(self.records@) =~= before.push(
                    RecordView::Pop { back, reason: reason@, sojourn: s, len },
                ));
                assert(self.queue@ =~= (if back { old(self)@.items.drop_last() } else { old(self)@.items.drop_first() }));
                Some(v)
            },
        }
    }
}

} // verus!

verus! {

impl<T> RingDeque<T> {
    fn has_capacity(&self) -> (r: bool)
        ensures
            r == has_capacity(self@),
    {
        match self.behavior.capacity() {
            Some(cap) => cap > self.queue.len(),
            None => true,
        }
    }

    fn push_at(&mut self, back: bool, value: T, now: Option<u128>) -> (r: Result<Option<T>, Closed>)
        ensures
            (final(self)@, r) == push(old(self)@, back, value, now),
            final(self).spec_name() == old(self).spec_name(),
    {
        if !self.open {
            return Err(Closed);
        }
        let ghost q0 = self@;
        let prev = if !self.has_capacity() {
            if matches!(self.behavior, Behavior::Reject(_)) {
                let ghost before = records_view(self.records@);
                self.records.push(Record::Push { back, rejected: true });
                assert(records_view(self.records@) =~= before.push(RecordView::Push { back, rejected: true }));
                return Ok(Some(value));
            }
            self.take_at(!back, "wrap", now)
        } else {
            None
        };
        proof {
            reveal_strlit("wrap");
            assert("wrap"@ =~= wrap_reason());
        }
        let ghost q1 = self@;
        assert(q1 == (if has_capacity(q0) { q0 } else { take(q0, !back, wrap_reason(), now).0 }));
        if back {
            self.queue.push_back((value, now));
        } else {
            self.queue.push_front((value, now));
        }
        let ghost before = records_view(self.records@);
        self.records.push(Record::Push { back, rejected: false });
        assert(records_view(self.records@) =~= before.push(RecordView::Push { back, rejected: false }));
        if prev.is_none() {
            let len = self.queue.len();
            let ghost before = records_view(self.records@);
            self.records.push(Record::Len(len));
            assert(records_view(self.records@) =~= before.push(RecordView::Len(len)));
        }
        Ok(prev)
    }

    /// Pushes `value` at the back, stamped with the time `now`. On a closed
    /// queue the result is `Closed`. At capacity, a `Reject` queue hands
    /// `value` back and records the refusal; any other drops the front item,
    /// gives it back and records its pop with the reason `wrap`.
    pub fn push_back_at(&mut self, value: T, now: Option<u128>) -> (r: Result<Option<T>, Closed>)
        ensures
            (final(self)@, r) == push(old(self)@, true, value, now),
            final(self).spec_name() == old(self).spec_name(),
            positive_capacity(old(self)@.behavior) && within_capacity(old(self)@) ==> within_capacity(
                final(self)@,
            ),
    {
        self.push_at(true, value, now)
    }

    /// Pushes `value` at the front, stamped with the time `now`; as
    /// `push_back_at` with the ends swapped.
    pub fn push_front_at(&mut self, value: T, now: Option<u128>) -> (r: Result<Option<T>, Closed>)
        ensures
            (final(self)@, r) == push(old(self)@, false, value, now),
            final(self).spec_name() == old(self).spec_name(),
            positive_capacity(old(self)@.behavior) && within_capacity(old(self)@) ==> within_capacity(
                final(self)@,
            ),
    {
        self.push_at(false, value, now)
    }

    /// Pushes `value` at the back, stamped with the simulation's clock; as
    /// `push_back_at` for whatever time the clock gives.
    pub fn push_back(&mut self, value: T) -> (r: Result<Option<T>, Closed>)
        ensures
            exists|now: Option<u128>| (final(self)@, r) == push(old(self)@, true, value, now),
            final(self).spec_name() == old(self).spec_name(),
    {
        let now = sim_now();
        self.push_back_at(value, now)
    }

    /// Pushes `value` at the front, stamped with the simulation's clock; as
    /// `push_front_at` for whatever time the clock gives.
    pub fn push_front(&mut self, value: T) -> (r: Result<Option<T>, Closed>)
        ensures
            exists|now: Option<u128>| (final(self)@, r) == push(old(self)@, false, value, now),
            final(self).spec_name() == old(self).spec_name(),
    {
        let now = sim_now();
        self.push_front_at(value, now)
    }

    fn pop_at(&mut self, back: bool, now: Option<u128>) -> (r: Result<Option<T>, Closed>)
        ensures
            (final(self)@, r) == pop(old(self)@, back, now),
            final(self).spec_name() == old(self).spec_name(),
    {
        if !self.open {
            return Err(Closed);
        }
        proof {
            reveal_strlit("explicit");
            assert("explicit"@ =~= explicit_reason());
        }
        Ok(self.take_at(back, "explicit", now))
    }

    /// Pops the back item at the time `now`, recording its pop with the reason
    /// `explicit`; `Closed` on a closed queue.
    pub fn pop_back_at(&mut self, now: Option<u128>) -> (r: Result<Option<T>, Closed>)
        ensures
            (final(self)@, r) == pop(old(self)@, true, now),
            final(self).spec_name() == old(self).spec_name(),
    {
        self.pop_at(true, now)
    }

    /// Pops the front item at the time `now`, recording its pop with the
    /// reason `explicit`; `Closed` on a closed queue.
    pub fn pop_front_at(&mut self, now: Option<u128>) -> (r: Result<Option<T>, Closed>)
        ensures
            (final(self)@, r) == pop(old(self)@, false, now),
            final(self).spec_name() == old(self).spec_name(),
    {
        self.pop_at(false, now)
    }

    /// Pops the back item at the simulation's clock; as `pop_back_at` for
    /// whatever time the clock gives.
    pub fn pop_back(&mut self) -> (r: Result<Option<T>, Closed>)
        ensures
            exists|now: Option<u128>| (final(self)@, r) == pop(old(self)@, true, now),
            final(self).spec_name() == old(self).spec_name(),
    {
        let now = sim_now();
        self.pop_back_at(now)
    }

    /// Pops the front item at the simulation's clock; as `pop_front_at` for
    /// whatever time the clock gives.
    pub fn pop_front(&mut self) -> (r: Result<Option<T>, Closed>)
        ensures
            exists|now: Option<u128>| (final(self)@, r) == pop(old(self)@, false, now),
            final(self).spec_name() == old(self).spec_name(),
    {
        let now = sim_now();
        self.pop_front_at(now)
    }

    /// Closes the queue; every later operation gives `Closed`. `Closed` if it
    /// was closed already.
    pub fn close(&mut self) -> (r: Result<(), Closed>)
        ensures
            old(self)@.open ==> r == Ok::<(), Closed>(()) && final(self)@ == (QueueView { open: false, ..old(self)@ }),
            !old(self)@.open ==> r == Err::<(), Closed>(Closed) && final(self)@ == old(self)@,
            final(self).spec_name() == old(self).spec_name(),
    {
        if !self.open {
            return Err(Closed);
        }
        self.open = false;
        Ok(())
    }
}

} // verus!

verus! {

/// The item that a conditional pop at one end would look at.
pub open spec fn end_item<T>(q: QueueView<T>, back: bool) -> T
    recommends
        q.items.len() > 0,
{
    if back {
        q.items.last().0
    } else {
        q.items[0].0
    }
}

impl<T> RingDeque<T> {
    fn pop_if_at<F>(&mut self, back: bool, reason: &str, check: F, now: Option<u128>) -> (r: Result<Option<T>, Closed>) where
        F: FnOnce(&T) -> bool,

        requires
            old(self)@.items.len() > 0 ==> check.requires((&end_item(old(self)@, back),)),
        ensures
            final(self).spec_name() == old(self).spec_name(),
            !old(self)@.open ==> r == Err::<Option<T>, Closed>(Closed) && final(self)@ == old(self)@,
            old(self)@.open && old(self)@.items.len() == 0 ==> r == Ok::<Option<T>, Closed>(None)
                && final(self)@ == old(self)@,
            old(self)@.open && old(self)@.items.len() > 0 ==> exists|b: bool|
                #[trigger] check.ensures((&end_item(old(self)@, back),), b) && (if b {
                    (final(self)@, r) == (
                        take(old(self)@, back, reason@, now).0,
                        Ok::<Option<T>, Closed>(take(old(self)@, back, reason@, now).1),
                    )
                } else {
                    r == Ok::<Option<T>, Closed>(None) && final(self)@ == old(self)@
                }),
    {
        if !self.open {
            return Err(Closed);
        }
        let n = self.queue.len();
        if n == 0 {
            return Ok(None);
        }
        let item = if back {
            &self.queue[n - 1]
        } else {
            &self.queue[0]
        };
        let b = check(&item.0);
        if !b {
            return Ok(None);
        }
        Ok(self.take_at(back, reason, now))
    }

    /// Pops the back item at the time `now` if `check` accepts it, recording
    /// its pop with `reason`. `Closed` on a closed queue; `None` when the queue
    /// is empty or `check` refuses the item. The queue has no other holder
    /// here, so both priorities wait for it.
    pub fn pop_back_if_at<F>(
        &mut self,
        priority: Priority,
        reason: &str,
        check: F,
        now: Option<u128>,
    ) -> (r: Result<Option<T>, Closed>) where F: FnOnce(&T) -> bool
        requires
            old(self)@.items.len() > 0 ==> check.requires((&end_item(old(self)@, true),)),
        ensures
            final(self).spec_name() == old(self).spec_name(),
            !old(self)@.open ==> r == Err::<Option<T>, Closed>(Closed) && final(self)@ == old(self)@,
            old(self)@.open && old(self)@.items.len() == 0 ==> r == Ok::<Option<T>, Closed>(None)
                && final(self)@ == old(self)@,
            old(self)@.open && old(self)@.items.len() > 0 ==> exists|b: bool|
                #[trigger] check.ensures((&end_item(old(self)@, true),), b) && (if b {
                    (final(self)@, r) == (
                        take(old(self)@, true, reason@, now).0,
                        Ok::<Option<T>, Closed>(take(old(self)@, true, reason@, now).1),
                    )
                } else {
                    r == Ok::<Option<T>, Closed>(None) && final(self)@ == old(self)@
                }),
    {
        let _ = priority;
        self.pop_if_at(true, reason, check, now)
    }

    /// Pops the front item at the time `now` if `check` accepts it; as
    /// `pop_back_if_at` with the front in place of the back.
    pub fn pop_front_if_at<F>(
        &mut self,
        priority: Priority,
        reason: &str,
        check: F,
        now: Option<u128>,
    ) -> (r: Result<Option<T>, Closed>) where F: FnOnce(&T) -> bool
        requires
            old(self)@.items.len() > 0 ==> check.requires((&end_item(old(self)@, false),)),
        ensures
            final(self).spec_name() == old(self).spec_name(),
            !old(self)@.open ==> r == Err::<Option<T>, Closed>(Closed) && final(self)@ == old(self)@,
            old(self)@.open && old(self)@.items.len() == 0 ==> r == Ok::<Option<T>, Closed>(None)
                && final(self)@ == old(self)@,
            old(self)@.open && old(self)@.items.len() > 0 ==> exists|b: bool|
                #[trigger] check.ensures((&end_item(old(self)@, false),), b) && (if b {
                    (final(self)@, r) == (
                        take(old(self)@, false, reason@, now).0,
                        Ok::<Option<T>, Closed>(take(old(self)@, false, reason@, now).1),
                    )
                } else {
                    r == Ok::<Option<T>, Closed>(None) && final(self)@ == old(self)@
                }),
    {
        let _ = priority;
        self.pop_if_at(false, reason, check, now)
    }
}

} // verus!

verus! {

impl<T> RingDeque<T> {
    /// `pop_back_if_at` at the simulation's clock, for whatever time it gives.
    pub fn pop_back_if<F>(&mut self, priority: Priority, reason: &str, check: F) -> (r: Result<Option<T>, Closed>) where
        F: FnOnce(&T) -> bool,

        requires
            old(self)@.items.len() > 0 ==> check.requires((&end_item(old(self)@, true),)),
        ensures
            final(self).spec_name() == old(self).spec_name(),
            !old(self)@.open ==> r == Err::<Option<T>, Closed>(Closed) && final(self)@ == old(self)@,
            old(self)@.open && old(self)@.items.len() == 0 ==> r == Ok::<Option<T>, Closed>(None)
                && final(self)@ == old(self)@,
            old(self)@.open && old(self)@.items.len() > 0 ==> exists|b: bool, now: Option<u128>|
                #![trigger check.ensures((&end_item(old(self)@, true),), b), take(old(self)@, true, reason@, now)]
                check.ensures((&end_item(old(self)@, true),), b) && (if b {
                    (final(self)@, r) == (
                        take(old(self)@, true, reason@, now).0,
                        Ok::<Option<T>, Closed>(take(old(self)@, true, reason@, now).1),
                    )
                } else {
                    r == Ok::<Option<T>, Closed>(None) && final(self)@ == old(self)@
                }),
    {
        let now = sim_now();
        let ghost q = self@;
        let r = self.pop_back_if_at(priority, reason, check, now);
        proof {
            if q.open && q.items.len() > 0 {
                let b = choose|b: bool|
                    #[trigger] check.ensures((&end_item(q, true),), b) && (if b {
                        (self@, r) == (take(q, true, reason@, now).0, Ok::<Option<T>, Closed>(take(q, true, reason@, now).1))
                    } else {
                        r == Ok::<Option<T>, Closed>(None) && self@ == q
                    });
                let _ = take(q, true, reason@, now);
                assert(check.ensures((&end_item(q, true),), b));
            }
        }
        r
    }

    /// `pop_front_if_at` at the simulation's clock, for whatever time it gives.
    pub fn pop_front_if<F>(&mut self, priority: Priority, reason: &str, check: F) -> (r: Result<Option<T>, Closed>) where
        F: FnOnce(&T) -> bool,

        requires
            old(self)@.items.len() > 0 ==> check.requires((&end_item(old(self)@, false),)),
        ensures
            final(self).spec_name() == old(self).spec_name(),
            !old(self)@.open ==> r == Err::<Option<T>, Closed>(Closed) && final(self)@ == old(self)@,
            old(self)@.open && old(self)@.items.len() == 0 ==> r == Ok::<Option<T>, Closed>(None)
                && final(self)@ == old(self)@,
            old(self)@.open && old(self)@.items.len() > 0 ==> exists|b: bool, now: Option<u128>|
                #![trigger check.ensures((&end_item(old(self)@, false),), b), take(old(self)@, false, reason@, now)]
                check.ensures((&end_item(old(self)@, false),), b) && (if b {
                    (final(self)@, r) == (
                        take(old(self)@, false, reason@, now).0,
                        Ok::<Option<T>, Closed>(take(old(self)@, false, reason@, now).1),
                    )
                } else {
                    r == Ok::<Option<T>, Closed>(None) && final(self)@ == old(self)@
                }),
    {
        let now = sim_now();
        let ghost q = self@;
        let r = self.pop_front_if_at(priority, reason, check, now);
        proof {
            if q.open && q.items.len() > 0 {
                let b = choose|b: bool|
                    #[trigger] check.ensures((&end_item(q, false),), b) && (if b {
                        (self@, r) == (take(q, false, reason@, now).0, Ok::<Option<T>, Closed>(take(q, false, reason@, now).1))
                    } else {
                        r == Ok::<Option<T>, Closed>(None) && self@ == q
                    });
                let _ = take(q, false, reason@, now);
                assert(check.ensures((&end_item(q, false),), b));
            }
        }
        r
    }
}

/// A closed queue refuses every push and pop with `Closed` and stays as it is.
pub proof fn lemma_closed_refuses<T>(q: QueueView<T>, back: bool, v: T, now: Option<u128>)
    requires
        !q.open,
    ensures
        push(q, back, v, now) == (q, Err::<Option<T>, Closed>(Closed)),
        pop(q, back, now) == (q, Err::<Option<T>, Closed>(Closed)),
{
}

/// On an open queue with room, a pop at the end just pushed to gives the
/// pushed item back and leaves the items as they were.
pub proof fn lemma_push_then_pop_same_end<T>(q: QueueView<T>, back: bool, v: T, t1: Option<u128>, t2: Option<u128>)
    requires
        q.open,
        has_capacity(q),
    ensures
        pop(push(q, back, v, t1).0, back, t2).1 == Ok::<Option<T>, Closed>(Some(v)),
        pop(push(q, back, v, t1).0, back, t2).0.items == q.items,
{
    let q1 = push(q, back, v, t1).0;
    if back {
        assert(q1.items.drop_last() =~= q.items);
    } else {
        assert(q1.items.drop_first() =~= q.items);
    }
}

/// Items leave in the order they came: on an open queue with room, pushing
/// at the back and popping at the front gives the oldest item, and the new
/// item is last.
pub proof fn lemma_first_in_first_out<T>(q: QueueView<T>, v: T, t1: Option<u128>, t2: Option<u128>)
    requires
        q.open,
        has_capacity(q),
        q.items.len() > 0,
    ensures
        pop(push(q, true, v, t1).0, false, t2).1 == Ok::<Option<T>, Closed>(Some(q.items[0].0)),
        pop(push(q, true, v, t1).0, false, t2).0.items == q.items.drop_first().push((v, t1)),
{
    let q1 = push(q, true, v, t1).0;
    assert(q1.items.drop_first() =~= q.items.drop_first().push((v, t1)));
}

/// At capacity, a `Reject` queue hands the new item back and keeps its items.
pub proof fn lemma_reject_at_capacity<T>(q: QueueView<T>, back: bool, v: T, now: Option<u128>)
    requires
        q.open,
        q.behavior is Reject,
        !has_capacity(q),
    ensures
        push(q, back, v, now).1 == Ok::<Option<T>, Closed>(Some(v)),
        push(q, back, v, now).0.items == q.items,
{
}

/// At capacity, a `Wrap` or `Backpressure` queue that holds items drops the
/// oldest item at the other end, hands it back, and keeps the new item.
pub proof fn lemma_wrap_at_capacity<T>(q: QueueView<T>, v: T, now: Option<u128>)
    requires
        q.open,
        !(q.behavior is Reject),
        !has_capacity(q),
        q.items.len() > 0,
    ensures
        push(q, true, v, now).1 == Ok::<Option<T>, Closed>(Some(q.items[0].0)),
        push(q, true, v, now).0.items == q.items.drop_first().push((v, now)),
        push(q, true, v, now).0.items.len() == q.items.len(),
{
}

} // verus!

verus! {

/// A metric line as plain values: kind, name, value, unit, attributes.
pub open spec fn metric(
    ts: u64,
    kind: crate::parser::Kind,
    name: Seq<char>,
    value: u64,
    unit: Seq<char>,
    attrs: Seq<crate::parser::AttrView>,
) -> Seq<char> {
    crate::parser::format_event(crate::parser::EventView { timestamp: ts, kind, name, value, unit, attrs })
}

pub open spec fn end_name(prefix: Seq<char>, back: bool) -> Seq<char> {
    prefix + if back { "_back"@ } else { "_front"@ }
}

/// The metric lines of a record of the queue named `q`, stamped `ts`.
pub open spec fn record_lines(r: RecordView, q: Seq<char>, ts: u64) -> Seq<Seq<char>> {
    let count = crate::parser::Kind::Count;
    let measure = crate::parser::Kind::Measure;
    match r {
        RecordView::Push { back, rejected } => {
            let attrs = if rejected {
                seq![("queue_name"@, q), ("reason"@, "reject"@)]
            } else {
                seq![("queue_name"@, q)]
            };
            seq![metric(ts, count, "push"@, 1, seq![], attrs), metric(ts, count, end_name("push"@, back), 1, seq![], attrs)]
        },
        RecordView::Len(n) => seq![metric(ts, measure, "queue_len"@, n as u64, seq![], seq![("queue_name"@, q)])],
        RecordView::Pop { back, reason, sojourn, len } => {
            let attrs = seq![("reason"@, reason), ("queue_name"@, q)];
            let rest = seq![
                metric(ts, measure, "queue_len"@, len as u64, seq![], seq![("queue_name"@, q)]),
                metric(ts, count, "pop"@, 1, seq![], attrs),
                metric(ts, count, end_name("pop"@, back), 1, seq![], attrs),
            ];
            match sojourn {
                Some(ns) => if ns <= u64::MAX {
                    seq![metric(ts, measure, "sojourn_time"@, ns as u64, "ns"@, attrs)] + rest
                } else {
                    rest
                },
                None => rest,
            }
        },
    }
}

impl Record {
    /// The metric lines that record this operation of the queue named `queue`
    /// at the time `timestamp`: counts of pushes and pops, the queue's length,
    /// and an item's sojourn time in nanoseconds when it is known and fits in
    /// a `u64`.
    pub fn lines(&self, queue: &str, timestamp: u64) -> (r: Vec<String>)
        ensures
            r@.map_values(|s: String| s@) == record_lines(self.view(), queue@, timestamp),
    {
        let count = crate::parser::Kind::Count;
        let measure = crate::parser::Kind::Measure;
        let mut out: Vec<String> = Vec::new();
        match self {
            Record::Push { back, rejected } => {
                let mut attrs: Vec<(&str, &str)> = Vec::new();
                attrs.push(("queue_name", queue));
                if *rejected {
                    attrs.push(("reason", "reject"));
                }
                let end = if *back { "push_back" } else { "push_front" };
                proof {
                    reveal_strlit("push_back");
                    reveal_strlit("push_front");
                    reveal_strlit("push");
                    reveal_strlit("_back");
                    reveal_strlit("_front");
                }
                out.push(crate::parser::format_line(timestamp, count, "push", 1, "", attrs.as_slice()));
                out.push(crate::parser::format_line(timestamp, count, end, 1, "", attrs.as_slice()));
                assert(crate::parser::attrs_of(attrs@) =~= (if *rejected {
                    seq![("queue_name"@, queue@), ("reason"@, "reject"@)]
                } else {
                    seq![("queue_name"@, queue@)]
                }));
                assert(end@ =~= end_name("push"@, *back));
                assert(""@ =~= Seq::<char>::empty()) by {
                    reveal_strlit("");
                }
            },
            Record::Len(n) => {
                let mut attrs: Vec<(&str, &str)> = Vec::new();
                attrs.push(("queue_name", queue));
                out.push(crate::parser::format_line(timestamp, measure, "queue_len", *n as u64, "", attrs.as_slice()));
                assert(crate::parser::attrs_of(attrs@) =~= seq![("queue_name"@, queue@)]);
                assert(""@ =~= Seq::<char>::empty()) by {
                    reveal_strlit("");
                }
            },
            Record::Pop { back, reason, sojourn, len } => {
                let mut attrs: Vec<(&str, &str)> = Vec::new();
                attrs.push(("reason", reason.as_str()));
                attrs.push(("queue_name", queue));
                let mut q_attrs: Vec<(&str, &str)> = Vec::new();
                q_attrs.push(("queue_name", queue));
                match sojourn {
                    Some(ns) => {
                        if *ns <= u64::MAX as u128 {
                            out.push(crate::parser::format_line(timestamp, measure, "sojourn_time", *ns as u64, "ns", attrs.as_slice()));
                        }
                    },
                    None => {},
                }
                let end = if *back { "pop_back" } else { "pop_front" };
                proof {
                    reveal_strlit("pop_back");
                    reveal_strlit("pop_front");
                    reveal_strlit("pop");
                    reveal_strlit("_back");
                    reveal_strlit("_front");
                }
                out.push(crate::parser::format_line(timestamp, measure, "queue_len", *len as u64, "", q_attrs.as_slice()));
                out.push(crate::parser::format_line(timestamp, count, "pop", 1, "", attrs.as_slice()));
                out.push(crate::parser::format_line(timestamp, count, end, 1, "", attrs.as_slice()));
                assert(crate::parser::attrs_of(attrs@) =~= seq![("reason"@, reason@), ("queue_name"@, queue@)]);
                assert(crate::parser::attrs_of(q_attrs@) =~= seq![("queue_name"@, queue@)]);
                assert(end@ =~= end_name("pop"@, *back));
                assert(""@ =~= Seq::<char>::empty()) by {
                    reveal_strlit("");
                }
            },
        }
        assert(out@.map_values(|s: String| s@) =~= record_lines(self.view(), queue@, timestamp));
        out
    }
}

} // verus!

verus! {

/// A call on a queue, with the clock value it is stamped with.
pub enum QueueCall<T> {
    PushBack(T, Option<u128>),
    PushFront(T, Option<u128>),
    PopBack(Option<u128>),
    PopFront(Option<u128>),
    Close,
}

/// The queue after the call `c`.
pub open spec fn apply<T>(q: QueueView<T>, c: QueueCall<T>) -> QueueView<T> {
    match c {
        QueueCall::PushBack(v, t) => push(q, true, v, t).0,
        QueueCall::PushFront(v, t) => push(q, false, v, t).0,
        QueueCall::PopBack(t) => pop(q, true, t).0,
        QueueCall::PopFront(t) => pop(q, false, t).0,
        QueueCall::Close => QueueView { open: false, ..q },
    }
}

/// The queue after the calls `cs`, in order.
pub open spec fn apply_all<T>(q: QueueView<T>, cs: Seq<QueueCall<T>>) -> QueueView<T>
    decreases cs.len(),
{
    if cs.len() == 0 {
        q
    } else {
        apply(apply_all(q, cs.drop_last()), cs.last())
    }
}

/// The most items a queue with the policy `b` ever holds: its capacity for
/// `Reject`, its capacity but at least one for `Wrap` and `Backpressure`,
/// which make room for a new item by dropping one; none for `Unbounded`.
pub open spec fn bound(b: Behavior) -> Option<nat> {
    match b {
        Behavior::Unbounded => None,
        Behavior::Reject(c) => Some(c as nat),
        Behavior::Wrap(c) => Some(if c == 0 { 1 } else { c as nat }),
        Behavior::Backpressure(c) => Some(if c == 0 { 1 } else { c as nat }),
    }
}

pub open spec fn within_bound<T>(q: QueueView<T>) -> bool {
    match bound(q.behavior) {
        Some(n) => q.items.len() <= n,
        None => true,
    }
}

/// A queue holds no more than its bound after any sequence of calls that
/// starts within it, as a new queue does; its policy never changes.
pub proof fn lemma_bound_kept<T>(q: QueueView<T>, cs: Seq<QueueCall<T>>)
    requires
        within_bound(q),
    ensures
        within_bound(apply_all(q, cs)),
        apply_all(q, cs).behavior == q.behavior,
    decreases cs.len(),
{
    if cs.len() > 0 {
        lemma_bound_kept(q, cs.drop_last());
    }
}

/// The items at the back of `q` after pushing each of `vs` at the back.
pub open spec fn push_backs<T>(q: QueueView<T>, vs: Seq<(T, Option<u128>)>) -> QueueView<T>
    decreases vs.len(),
{
    if vs.len() == 0 {
        q
    } else {
        push_backs(push(q, true, vs[0].0, vs[0].1).0, vs.drop_first())
    }
}

/// Pops at one end once per clock value of `ts`: the queue after, and what
/// each pop gave.
pub open spec fn pops<T>(q: QueueView<T>, back: bool, ts: Seq<Option<u128>>) -> (QueueView<T>, Seq<Result<Option<T>, Closed>>)
    decreases ts.len(),
{
    if ts.len() == 0 {
        (q, seq![])
    } else {
        let (q1, r) = pop(q, back, ts[0]);
        let (q2, rs) = pops(q1, back, ts.drop_first());
        (q2, seq![r] + rs)
    }
}

proof fn lemma_push_backs_unbounded<T>(q: QueueView<T>, vs: Seq<(T, Option<u128>)>)
    requires
        q.open,
        q.behavior == Behavior::Unbounded,
    ensures
        push_backs(q, vs).items == q.items + vs,
        push_backs(q, vs).open,
    decreases vs.len(),
{
    if vs.len() > 0 {
        let q1 = push(q, true, vs[0].0, vs[0].1).0;
        lemma_push_backs_unbounded(q1, vs.drop_first());
        assert(q.items + vs =~= q1.items + vs.drop_first());
    } else {
        assert(q.items + vs =~= q.items);
    }
}

proof fn lemma_pops<T>(q: QueueView<T>, back: bool, ts: Seq<Option<u128>>)
    requires
        q.open,
        ts.len() == q.items.len() + 1,
    ensures
        pops(q, back, ts).1 == (if back { q.items.reverse() } else { q.items }).map_values(
            |p: (T, Option<u128>)| Ok::<Option<T>, Closed>(Some(p.0)),
        ).push(Ok::<Option<T>, Closed>(None)),
    decreases ts.len(),
{
    let f = |p: (T, Option<u128>)| Ok::<Option<T>, Closed>(Some(p.0));
    if q.items.len() == 0 {
        assert(ts.drop_first().len() == 0);
        assert(q.items.reverse() =~= Seq::<(T, Option<u128>)>::empty());
        let (q1, r) = pop(q, back, ts[0]);
        assert(r == Ok::<Option<T>, Closed>(None));
        assert(pops(q1, back, ts.drop_first()).1 == Seq::<Result<Option<T>, Closed>>::empty());
        assert(pops(q, back, ts).1 =~= seq![Ok::<Option<T>, Closed>(None)]);
        assert(q.items.map_values(f).push(Ok::<Option<T>, Closed>(None)) =~= seq![Ok::<Option<T>, Closed>(None)]);
    } else {
        let (q1, r) = pop(q, back, ts[0]);
        lemma_pops(q1, back, ts.drop_first());
        if back {
            assert(q1.items == q.items.drop_last());
            assert(q.items.reverse() =~= seq![q.items.last()] + q.items.drop_last().reverse());
            assert(r == Ok::<Option<T>, Closed>(Some(q.items.last().0)));
            assert(seq![r] + q1.items.reverse().map_values(f).push(Ok::<Option<T>, Closed>(None))
                =~= q.items.reverse().map_values(f).push(Ok::<Option<T>, Closed>(None)));
        } else {
            assert(q1.items == q.items.drop_first());
            assert(r == Ok::<Option<T>, Closed>(Some(q.items[0].0)));
            assert(seq![r] + q1.items.map_values(f).push(Ok::<Option<T>, Closed>(None))
                =~= q.items.map_values(f).push(Ok::<Option<T>, Closed>(None)));
        }
    }
}

/// First in, first out, over any number of items: pushing `vs` at the back
/// of an empty open unbounded queue, then popping at the front once more than
/// there are items, gives the items in the order they were pushed and then
/// nothing; popping at the back gives them in the reverse order.
pub proof fn lemma_fifo_sequence<T>(
    q: QueueView<T>,
    vs: Seq<(T, Option<u128>)>,
    back: bool,
    ts: Seq<Option<u128>>,
)
    requires
        q.open,
        q.behavior == Behavior::Unbounded,
        q.items.len() == 0,
        ts.len() == vs.len() + 1,
    ensures
        pops(push_backs(q, vs), back, ts).1 == (if back { vs.reverse() } else { vs }).map_values(
            |p: (T, Option<u128>)| Ok::<Option<T>, Closed>(Some(p.0)),
        ).push(Ok::<Option<T>, Closed>(None)),
{
    lemma_push_backs_unbounded(q, vs);
    assert(q.items + vs =~= vs);
    lemma_pops(push_backs(q, vs), back, ts);
}

} // verus!

verus! {

/// The items of `old`, but for at most one taken from an end, stand
/// together and in their order in `new`.
pub open spec fn keeps_order<T>(old: Seq<(T, Option<u128>)>, new: Seq<(T, Option<u128>)>) -> bool {
    exists|lo: int, hi: int, k: int|
        0 <= lo <= hi <= old.len() && old.len() - (hi - lo) <= 1 && 0 <= k && k + (hi - lo) <= new.len()
            && #[trigger] new.subrange(k, k + (hi - lo)) == #[trigger] old.subrange(lo, hi)
}

proof fn lemma_keeps_order_at<T>(old: Seq<(T, Option<u128>)>, new: Seq<(T, Option<u128>)>, lo: int, hi: int, k: int)
    requires
        0 <= lo <= hi <= old.len(),
        old.len() - (hi - lo) <= 1,
        0 <= k,
        k + (hi - lo) <= new.len(),
        new.subrange(k, k + (hi - lo)) == old.subrange(lo, hi),
    ensures
        keeps_order(old, new),
{
}

/// Items keep their order: after any call, every item that was in the queue,
/// but for one dropped or popped at an end, is still there, together with
/// the others and in the same order.
pub proof fn lemma_call_keeps_order<T>(q: QueueView<T>, c: QueueCall<T>)
    ensures
        keeps_order(q.items, apply(q, c).items),
{
    let old = q.items;
    let n = old.len() as int;
    let new = apply(q, c).items;
    if new == old || n == 0 {
        if new == old {
            assert(new.subrange(0, n) =~= old.subrange(0, n));
            lemma_keeps_order_at(old, new, 0, n, 0);
        } else {
            assert(new.subrange(0, 0) =~= old.subrange(0, 0));
            lemma_keeps_order_at(old, new, 0, 0, 0);
        }
    } else {
        match c {
            QueueCall::PushBack(v, t) => {
                if has_capacity(q) {
                    assert(new == old.push((v, t)));
                    assert(new.subrange(0, n) =~= old.subrange(0, n));
                    lemma_keeps_order_at(old, new, 0, n, 0);
                } else {
                    assert(new == old.drop_first().push((v, t)));
                    assert(new.subrange(0, n - 1) =~= old.subrange(1, n));
                    lemma_keeps_order_at(old, new, 1, n, 0);
                }
            },
            QueueCall::PushFront(v, t) => {
                if has_capacity(q) {
                    assert(new == seq![(v, t)] + old);
                    assert(new.subrange(1, 1 + n) =~= old.subrange(0, n));
                    lemma_keeps_order_at(old, new, 0, n, 1);
                } else {
                    assert(new == seq![(v, t)] + old.drop_last());
                    assert(new.subrange(1, n) =~= old.subrange(0, n - 1));
                    lemma_keeps_order_at(old, new, 0, n - 1, 1);
                }
            },
            QueueCall::PopBack(t) => {
                assert(new == old.drop_last());
                assert(new.subrange(0, n - 1) =~= old.subrange(0, n - 1));
                lemma_keeps_order_at(old, new, 0, n - 1, 0);
            },
            QueueCall::PopFront(t) => {
                assert(new == old.drop_first());
                assert(new.subrange(0, n - 1) =~= old.subrange(1, n));
                lemma_keeps_order_at(old, new, 1, n, 0);
            },
            QueueCall::Close => {},
        }
    }
}

} // verus!

verus! {

broadcast use vstd::std_specs::vec::group_vec_axioms;

/// A handle on a queue of a `Deques` table. A copy of a handle is a clone of
/// the queue: every copy reaches the same items, and closing through one
/// closes it for all.
#[derive(Clone, Copy, Debug)]
pub struct Handle {
    index: usize,
}

impl Handle {
    /// The place of the handle's queue in its table.
    pub closed spec fn at(self) -> int {
        self.index as int
    }
}

/// Queues shared through handles: each handle, and each copy of it, works
/// on the one queue it was made for.
pub struct Deques<T> {
    queues: Vec<RingDeque<T>>,
}

impl<T> View for Deques<T> {
    type V = Seq<QueueView<T>>;

    closed spec fn view(&self) -> Seq<QueueView<T>> {
        self.queues@.map_values(|q: RingDeque<T>| q@)
    }
}

/// The queue at `i` as it is after closing.
pub open spec fn closed_at<T>(qs: Seq<QueueView<T>>, i: int) -> Seq<QueueView<T>> {
    qs.update(i, QueueView { open: false, ..qs[i] })
}

impl<T> Deques<T> {
    /// The name that the metrics of the queue of `h` carry.
    pub closed spec fn spec_name_of(&self, h: Handle) -> Seq<char> {
        self.queues@[h.at()].spec_name()
    }

    /// A table without queues.
    pub fn new() -> (r: Self)
        ensures
            r@ == Seq::<QueueView<T>>::empty(),
    {
        let r = Deques { queues: Vec::new() };
        assert(r@ =~= Seq::<QueueView<T>>::empty());
        r
    }

    /// Adds an empty, open queue with the given policy and name, and gives
    /// its handle.
    pub fn add(&mut self, behavior: Behavior, name: &str) -> (h: Handle)
        ensures
            final(self)@ == old(self)@.push(QueueView::<T> { open: true, behavior, items: seq![], records: seq![] }),
            h.at() == old(self)@.len(),
            final(self).spec_name_of(h) == name@,
    {
        let q = RingDeque::new(behavior, name);
        let h = Handle { index: self.queues.len() };
        self.queues.push(q);
        assert(self@ =~= old(self)@.push(QueueView::<T> { open: true, behavior, items: seq![], records: seq![] }));
        h
    }

    /// The number of items in the queue of `h`.
    pub fn len(&self, h: Handle) -> (r: usize)
        requires
            0 <= h.at() < self@.len(),
        ensures
            r == self@[h.at()].items.len(),
    {
        self.queues[h.index].len()
    }

    /// Whether the queue of `h` is open.
    pub fn is_open(&self, h: Handle) -> (r: bool)
        requires
            0 <= h.at() < self@.len(),
        ensures
            r == self@[h.at()].open,
    {
        self.queues[h.index].is_open()
    }

    /// `RingDeque::push_back` on the queue of `h`; the other queues stay.
    pub fn push_back(&mut self, h: Handle, value: T) -> (r: Result<Option<T>, Closed>)
        requires
            0 <= h.at() < old(self)@.len(),
        ensures
            final(self)@.len() == old(self)@.len(),
            exists|now: Option<u128>| (final(self)@[h.at()], r) == push(old(self)@[h.at()], true, value, now),
            final(self)@ == old(self)@.update(h.at(), final(self)@[h.at()]),
    {
        let ghost q0 = self.queues@[h.at()]@;
        let r = self.queues[h.index].push_back(value);
        let ghost q1 = self.queues@[h.at()]@;
        proof {
            let now = choose|now: Option<u128>| (q1, r) == push(q0, true, value, now);
            assert(self@[h.at()] == q1);
            assert(old(self)@[h.at()] == q0);
            assert((self@[h.at()], r) == push(old(self)@[h.at()], true, value, now));
        }
        assert(self@ =~= old(self)@.update(h.at(), self@[h.at()]));
        r
    }

    /// `RingDeque::push_front` on the queue of `h`; the other queues stay.
    pub fn push_front(&mut self, h: Handle, value: T) -> (r: Result<Option<T>, Closed>)
        requires
            0 <= h.at() < old(self)@.len(),
        ensures
            final(self)@.len() == old(self)@.len(),
            exists|now: Option<u128>| (final(self)@[h.at()], r) == push(old(self)@[h.at()], false, value, now),
            final(self)@ == old(self)@.update(h.at(), final(self)@[h.at()]),
    {
        let ghost q0 = self.queues@[h.at()]@;
        let r = self.queues[h.index].push_front(value);
        let ghost q1 = self.queues@[h.at()]@;
        proof {
            let now = choose|now: Option<u128>| (q1, r) == push(q0, false, value, now);
            assert(self@[h.at()] == q1);
            assert(old(self)@[h.at()] == q0);
            assert((self@[h.at()], r) == push(old(self)@[h.at()], false, value, now));
        }
        assert(self@ =~= old(self)@.update(h.at(), self@[h.at()]));
        r
    }

    /// `RingDeque::pop_back` on the queue of `h`; the other queues stay.
    pub fn pop_back(&mut self, h: Handle) -> (r: Result<Option<T>, Closed>)
        requires
            0 <= h.at() < old(self)@.len(),
        ensures
            final(self)@.len() == old(self)@.len(),
            exists|now: Option<u128>| (final(self)@[h.at()], r) == pop(old(self)@[h.at()], true, now),
            final(self)@ == old(self)@.update(h.at(), final(self)@[h.at()]),
    {
        let ghost q0 = self.queues@[h.at()]@;
        let r = self.queues[h.index].pop_back();
        let ghost q1 = self.queues@[h.at()]@;
        proof {
            let now = choose|now: Option<u128>| (q1, r) == pop(q0, true, now);
            assert(self@[h.at()] == q1);
            assert(old(self)@[h.at()] == q0);
            assert((self@[h.at()], r) == pop(old(self)@[h.at()], true, now));
        }
        assert(self@ =~= old(self)@.update(h.at(), self@[h.at()]));
        r
    }

    /// `RingDeque::pop_front` on the queue of `h`; the other queues stay.
    pub fn pop_front(&mut self, h: Handle) -> (r: Result<Option<T>, Closed>)
        requires
            0 <= h.at() < old(self)@.len(),
        ensures
            final(self)@.len() == old(self)@.len(),
            exists|now: Option<u128>| (final(self)@[h.at()], r) == pop(old(self)@[h.at()], false, now),
            final(self)@ == old(self)@.update(h.at(), final(self)@[h.at()]),
    {
        let ghost q0 = self.queues@[h.at()]@;
        let r = self.queues[h.index].pop_front();
        let ghost q1 = self.queues@[h.at()]@;
        proof {
            let now = choose|now: Option<u128>| (q1, r) == pop(q0, false, now);
            assert(self@[h.at()] == q1);
            assert(old(self)@[h.at()] == q0);
            assert((self@[h.at()], r) == pop(old(self)@[h.at()], false, now));
        }
        assert(self@ =~= old(self)@.update(h.at(), self@[h.at()]));
        r
    }

    /// Closes the queue of `h` for every copy of `h`; `Closed` if it was
    /// closed already.
    pub fn close(&mut self, h: Handle) -> (r: Result<(), Closed>)
        requires
            0 <= h.at() < old(self)@.len(),
        ensures
            old(self)@[h.at()].open ==> r == Ok::<(), Closed>(()) && final(self)@ == closed_at(old(self)@, h.at()),
            !old(self)@[h.at()].open ==> r == Err::<(), Closed>(Closed) && final(self)@ == old(self)@,
    {
        let r = self.queues[h.index].close();
        assert(self@ =~= old(self)@.update(h.at(), self@[h.at()]));
        r
    }
}

/// Closing a queue through one handle closes it for every copy, for good:
/// after it, a push or a pop at either end through any copy gives `Closed`
/// and leaves the queue as it is, so none of its items is handed out again,
/// and closing again gives `Closed` too.
pub proof fn lemma_close_shared<T>(qs: Seq<QueueView<T>>, i: int, back: bool, v: T, now: Option<u128>)
    requires
        0 <= i < qs.len(),
    ensures
        !closed_at(qs, i)[i].open,
        closed_at(qs, i)[i].items == qs[i].items,
        push(closed_at(qs, i)[i], back, v, now) == (closed_at(qs, i)[i], Err::<Option<T>, Closed>(Closed)),
        pop(closed_at(qs, i)[i], back, now) == (closed_at(qs, i)[i], Err::<Option<T>, Closed>(Closed)),
        forall|j: int| 0 <= j < qs.len() && j != i ==> closed_at(qs, i)[j] == qs[j],
{
    lemma_closed_refuses(closed_at(qs, i)[i], back, v, now);
}

} // verus!
