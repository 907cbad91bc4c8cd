//! The scenarios that the web page simulates: queues of a kind and capacity,
//! and actors that run a list of operations on them. What an actor does is
//! worked out here as a plan: the steps it takes once, and the steps it then
//! repeats for ever if its operations reach a loop.
use core::time::Duration;
use vstd::prelude::*;
use crate::duration::duration_nanos;
use crate::ring_deque::Behavior;

verus! {

/// The kind of a queue as a scenario names it.
#[derive(Clone, Copy, Debug, PartialEq, Eq)]
pub enum QueueType {
    Unbounded,
    /// at capacity, the oldest item makes way for the new one
    PreferNew(u32),
    /// at capacity, the new item is refused
    PreferOld(u32),
}

impl Default for QueueType {
    fn default() -> (r: Self)
        ensures
            r == QueueType::Unbounded,
    {
        QueueType::Unbounded
    }
}

/// The queue policy of a queue kind.
pub open spec fn behavior_of(t: QueueType) -> Behavior {
    match t {
        QueueType::Unbounded => Behavior::Unbounded,
        QueueType::PreferNew(cap) => Behavior::Wrap(cap as usize),
        QueueType::PreferOld(cap) => Behavior::Reject(cap as usize),
    }
}

impl From<QueueType> for Behavior {
    fn from(value: QueueType) -> (r: Behavior) {
        match value {
            QueueType::Unbounded => Behavior::Unbounded,
            QueueType::PreferNew(cap) => Behavior::Wrap(cap as usize),
            QueueType::PreferOld(cap) => Behavior::Reject(cap as usize),
        }
    }
}

impl vstd::std_specs::convert::FromSpecImpl<QueueType> for Behavior {
    open spec fn obeys_from_spec() -> bool {
        true
    }

    open spec fn from_spec(v: QueueType) -> Behavior {
        behavior_of(v)
    }
}

/// An operation of an actor.
#[derive(Debug)]
pub enum Operation {
    /// wait this long
    Sleep(Duration),
    /// push `count` new items at the back of the queue
    PushBack { queue: String, count: u32 },
    /// push `count` new items at the front of the queue
    PushFront { queue: String, count: u32 },
    /// pop an item from the back of the queue
    PopBack { queue: String },
    /// pop an item from the front of the queue
    PopFront { queue: String },
    /// run the operations again and again, for ever
    Loop(Vec<Operation>),
}

/// A step of a plan.
#[derive(Debug)]
pub enum Step {
    /// wait this many nanoseconds
    Sleep(Duration),
    /// push `count` new items at one end of the queue
    Push { back: bool, queue: String, count: u32 },
    /// pop an item from one end of the queue
    Pop { back: bool, queue: String },
}

/// A step as plain values.
pub enum StepView {
    Sleep(nat),
    Push { back: bool, queue: Seq<char>, count: u32 },
    Pop { back: bool, queue: Seq<char> },
}

pub open spec fn step_view(s: Step) -> StepView {
    match s {
        Step::Sleep(d) => StepView::Sleep(duration_nanos(d) as nat),
        Step::Push { back, queue, count } => StepView::Push { back, queue: queue@, count },
        Step::Pop { back, queue } => StepView::Pop { back, queue: queue@ },
    }
}

pub open spec fn steps_view(s: Seq<Step>) -> Seq<StepView> {
    s.map_values(|x: Step| step_view(x))
}

/// Whether any of the steps waits.
pub open spec fn sleeps(s: Seq<StepView>) -> bool {
    exists|i: int| 0 <= i < s.len() && #[trigger] s[i] is Sleep
}

/// The nanoseconds a loop waits when a round of it waited for nothing.
pub open spec fn idle_nanos() -> nat {
    1_000_000
}

/// What the operations `ops` do: the steps taken once, and, if they reach a
/// loop, the steps then repeated for ever. A zero sleep is no step; a loop
/// runs its operations for ever, waiting a millisecond after each round that
/// did not wait, so nothing after it runs; a loop inside a loop that reaches
/// it keeps the outer one in its first round.
pub open spec fn plan_of(ops: Seq<Operation>) -> (Seq<StepView>, Option<Seq<StepView>>)
    decreases ops, 1nat, 0nat,
{
    plan_prefix(ops, ops.len())
}

/// The plan of the first `k` operations of `ops`.
pub open spec fn plan_prefix(ops: Seq<Operation>, k: nat) -> (Seq<StepView>, Option<Seq<StepView>>)
    decreases ops, 0nat, k,
{
    if k == 0 || k > ops.len() {
        (seq![], None)
    } else {
        let (steps, cycle) = plan_prefix(ops, (k - 1) as nat);
        if cycle is Some {
            (steps, cycle)
        } else {
            match ops[k - 1] {
                Operation::Sleep(d) => if duration_nanos(d) == 0 {
                    (steps, None)
                } else {
                    (steps.push(StepView::Sleep(duration_nanos(d) as nat)), None)
                },
                Operation::PushBack { queue, count } => (
                    steps.push(StepView::Push { back: true, queue: queue@, count }),
                    None,
                ),
                Operation::PushFront { queue, count } => (
                    steps.push(StepView::Push { back: false, queue: queue@, count }),
                    None,
                ),
                Operation::PopBack { queue } => (steps.push(StepView::Pop { back: true, queue: queue@ }), None),
                Operation::PopFront { queue } => (steps.push(StepView::Pop { back: false, queue: queue@ }), None),
                Operation::Loop(body) => {
                    let (inner, inner_cycle) = plan_of(body@);
                    match inner_cycle {
                        Some(c) => (steps + inner, Some(c)),
                        None => (
                            steps,
                            Some(
                                if sleeps(inner) {
                                    inner
                                } else {
                                    inner.push(StepView::Sleep(idle_nanos()))
                                },
                            ),
                        ),
                    }
                },
            }
        }
    }
}

} // verus!

verus! {

/// What an actor does: `once`, then, if its operations reach a loop,
/// `repeat` again and again.
#[derive(Debug)]
pub struct Plan {
    pub once: Vec<Step>,
    pub repeat: Option<Vec<Step>>,
}

pub open spec fn opt_steps_view(o: Option<Vec<Step>>) -> Option<Seq<StepView>> {
    match o {
        Some(v) => Some(steps_view(v@)),
        None => None,
    }
}

proof fn lemma_plan_prefix_stable(ops: Seq<Operation>, k: nat, m: nat)
    requires
        k <= m <= ops.len(),
        plan_prefix(ops, k).1 is Some,
    ensures
        plan_prefix(ops, m) == plan_prefix(ops, k),
    decreases m,
{
    if m > k {
        lemma_plan_prefix_stable(ops, k, (m - 1) as nat);
    }
}

/// Whether any of the steps waits.
fn any_sleep(steps: &Vec<Step>) -> (r: bool)
    ensures
        r == sleeps(steps_view(steps@)),
{
    let mut i: usize = 0;
    while i < steps.len()
        invariant
            i <= steps@.len(),
            forall|j: int| 0 <= j < i ==> !(#[trigger] steps_view(steps@)[j] is Sleep),
        decreases steps@.len() - i,
    {
        match &steps[i] {
            Step::Sleep(_) => {
                assert(steps_view(steps@)[i as int] is Sleep);
                return true;
            },
            _ => {},
        }
        i = i + 1;
    }
    false
}

/// What the operations `ops` do (see `plan_of`).
pub fn plan(ops: &Vec<Operation>) -> (r: Plan)
    ensures
        (steps_view(r.once@), opt_steps_view(r.repeat)) == plan_of(ops@),
    decreases ops@,
{
    let mut once: Vec<Step> = Vec::new();
    let mut repeat: Option<Vec<Step>> = None;
    let mut i: usize = 0;
    assert(steps_view(once@) =~= Seq::<StepView>::empty());
    while i < ops.len()
        invariant
            i <= ops@.len(),
            (steps_view(once@), opt_steps_view(repeat)) == plan_prefix(ops@, i as nat),
            repeat is None,
        decreases ops@.len() - i,
    {
        let ghost s0 = steps_view(once@);
        match &ops[i] {
            Operation::Sleep(d) => {
                if d.as_nanos() != 0 {
                    once.push(Step::Sleep(*d));
                    assert(steps_view(once@) =~= s0.push(StepView::Sleep(duration_nanos(*d) as nat)));
                }
            },
            Operation::PushBack { queue, count } => {
                once.push(Step::Push { back: true, queue: queue.as_str().to_owned(), count: *count });
                assert(steps_view(once@) =~= s0.push(StepView::Push { back: true, queue: queue@, count: *count }));
            },
            Operation::PushFront { queue, count } => {
                once.push(Step::Push { back: false, queue: queue.as_str().to_owned(), count: *count });
                assert(steps_view(once@) =~= s0.push(StepView::Push { back: false, queue: queue@, count: *count }));
            },
            Operation::PopBack { queue } => {
                once.push(Step::Pop { back: true, queue: queue.as_str().to_owned() });
                assert(steps_view(once@) =~= s0.push(StepView::Pop { back: true, queue: queue@ }));
            },
            Operation::PopFront { queue } => {
                once.push(Step::Pop { back: false, queue: queue.as_str().to_owned() });
                assert(steps_view(once@) =~= s0.push(StepView::Pop { back: false, queue: queue@ }));
            },
            Operation::Loop(body) => {
                assert(decreases_to!(ops@ => body@)) by {
                    assert(decreases_to!(ops@ => ops@[i as int]));
                };
                let inner = plan(body);
                let Plan { once: mut steps, repeat: inner_repeat } = inner;
                match inner_repeat {
                    Some(c) => {
                        let ghost st = steps_view(steps@);
                        once.append(&mut steps);
                        assert(steps_view(once@) =~= s0 + st);
                        proof {
                            lemma_plan_prefix_stable(ops@, (i + 1) as nat, ops@.len());
                        }
                        return Plan { once, repeat: Some(c) };
                    },
                    None => {
                        let ghost st = steps_view(steps@);
                        if !any_sleep(&steps) {
                            steps.push(Step::Sleep(Duration::from_millis(1)));
                            assert(steps_view(steps@) =~= st.push(StepView::Sleep(idle_nanos())));
                        }
                        proof {
                            lemma_plan_prefix_stable(ops@, (i + 1) as nat, ops@.len());
                        }
                        return Plan { once, repeat: Some(steps) };
                    },
                }
            },
        }
        i = i + 1;
    }
    Plan { once, repeat }
}

} // verus!

verus! {

proof fn lemma_plan_prefix_extend(ops: Seq<Operation>, more: Seq<Operation>, k: nat)
    requires
        k <= ops.len(),
    ensures
        plan_prefix(ops + more, k) == plan_prefix(ops, k),
    decreases k,
{
    if k > 0 {
        lemma_plan_prefix_extend(ops, more, (k - 1) as nat);
        assert((ops + more)[k - 1] == ops[k - 1]);
    }
}

/// Nothing after a loop runs: once the operations reach a loop, more
/// operations after them change nothing.
pub proof fn lemma_nothing_after_a_loop(ops: Seq<Operation>, more: Seq<Operation>)
    requires
        plan_of(ops).1 is Some,
    ensures
        plan_of(ops + more) == plan_of(ops),
{
    lemma_plan_prefix_extend(ops, more, ops.len());
    lemma_plan_prefix_stable(ops + more, ops.len(), (ops + more).len());
}

} // verus!

verus! {

/// A queue of a scenario: its id, its name and its kind.
#[derive(Debug)]
pub struct Queue {
    pub id: String,
    pub name: String,
    pub ty: QueueType,
}

/// An actor of a scenario: its id, its name and the operations it runs.
#[derive(Debug)]
pub struct Actor {
    pub id: String,
    pub name: String,
    pub operations: Vec<Operation>,
}

/// A scenario: actors, queues, and how long it runs.
#[derive(Debug)]
pub struct Kew {
    pub actors: Vec<Actor>,
    pub queues: Vec<Queue>,
    pub run_time: Duration,
}

impl Default for Kew {
    fn default() -> (r: Self)
        ensures
            r.actors@.len() == 0,
            r.queues@.len() == 0,
            duration_nanos(r.run_time) == 1_000_000_000,
    {
        Kew { actors: Vec::new(), queues: Vec::new(), run_time: Duration::from_secs(1) }
    }
}

/// The queues by id, each with the policy of the last queue that has the
/// id, in the order the ids first appear.
pub open spec fn queue_table(qs: Seq<Queue>) -> Seq<(Seq<char>, Behavior)>
    decreases qs.len(),
{
    if qs.len() == 0 {
        seq![]
    } else {
        crate::chapter::insert_named(queue_table(qs.drop_last()), qs.last().id@, behavior_of(qs.last().ty))
    }
}

pub open spec fn named_view(v: Seq<(String, Behavior)>) -> Seq<(Seq<char>, Behavior)> {
    v.map_values(|e: (String, Behavior)| (e.0@, e.1))
}

impl Kew {
    /// The queues that the scenario makes: one per id, with the policy of
    /// the last queue given with that id.
    pub fn queue_table(&self) -> (r: Vec<(String, Behavior)>)
        ensures
            named_view(r@) == queue_table(self.queues@),
            crate::chapter::distinct_ids(named_view(r@)),
    {
        let mut table: Vec<(String, Behavior)> = Vec::new();
        let mut k: usize = 0;
        assert(self.queues@.subrange(0, 0) =~= Seq::<Queue>::empty());
        assert(named_view(table@) =~= Seq::<(Seq<char>, Behavior)>::empty());
        while k < self.queues.len()
            invariant
                k <= self.queues@.len(),
                named_view(table@) == queue_table(self.queues@.subrange(0, k as int)),
                crate::chapter::distinct_ids(named_view(table@)),
            decreases self.queues@.len() - k,
        {
            let q = &self.queues[k];
            let id = q.id.as_str();
            let b = Behavior::from(q.ty);
            let ghost old_t = named_view(table@);
            proof {
                assert(self.queues@.subrange(0, k + 1).drop_last() =~= self.queues@.subrange(0, k as int));
                assert(self.queues@.subrange(0, k + 1).last() == *q);
            }
            let n = table.len();
            let mut i: usize = 0;
            while i < n
                invariant
                    n == table@.len(),
                    old_t == named_view(table@),
                    i <= n,
                    forall|j: int| 0 <= j < i ==> #[trigger] old_t[j].0 != id@,
                ensures
                    i <= n,
                    i < n ==> old_t[i as int].0 == id@,
                    forall|j: int| 0 <= j < i ==> #[trigger] old_t[j].0 != id@,
                decreases n - i,
            {
                assert(old_t[i as int].0 == table@[i as int].0@);
                if crate::text::str_eq(table[i].0.as_str(), id) {
                    break;
                }
                i = i + 1;
            }
            if i < n {
                let mut entry = (id.to_owned(), b);
                table.set_and_swap(i, &mut entry);
                proof {
                    let w = choose|w: int| 0 <= w < old_t.len() && #[trigger] old_t[w].0 == id@;
                    if w != i {
                        if w < i {
                            assert(old_t[w].0 != id@);
                        } else {
                            assert(old_t[i as int].0 != old_t[w].0);
                        }
                    }
                    assert(named_view(table@) =~= old_t.update(i as int, (id@, b)));
                    assert forall|a: int, c: int| 0 <= a < c < named_view(table@).len() implies #[trigger] named_view(table@)[a].0 != #[trigger] named_view(table@)[c].0 by {
                        if a != i && c != i {
                            assert(old_t[a].0 != old_t[c].0);
                        } else if a == i {
                            assert(old_t[i as int].0 != old_t[c].0);
                        } else {
                            assert(old_t[a].0 != old_t[i as int].0);
                        }
                    }
                }
            } else {
                table.push((id.to_owned(), b));
                proof {
                    assert(named_view(table@) =~= old_t.push((id@, b)));
                    assert(!exists|w: int| 0 <= w < old_t.len() && #[trigger] old_t[w].0 == id@);
                    assert forall|a: int, c: int| 0 <= a < c < named_view(table@).len() implies #[trigger] named_view(table@)[a].0 != #[trigger] named_view(table@)[c].0 by {
                        if c < old_t.len() {
                            assert(old_t[a].0 != old_t[c].0);
                        } else {
                            assert(old_t[a].0 != id@);
                        }
                    }
                }
            }
            k = k + 1;
        }
        assert(self.queues@.subrange(0, self.queues@.len() as int) =~= self.queues@);
        table
    }

    /// What each actor does, by its id, in the order the actors are given.
    pub fn actor_plans(&self) -> (r: Vec<(String, Plan)>)
        ensures
            r@.len() == self.actors@.len(),
            forall|i: int|
                0 <= i < r@.len() ==> (#[trigger] r@[i]).0@ == self.actors@[i].id@ && (
                    steps_view(r@[i].1.once@),
                    opt_steps_view(r@[i].1.repeat),
                ) == plan_of(self.actors@[i].operations@),
    {
        let mut out: Vec<(String, Plan)> = Vec::new();
        let mut i: usize = 0;
        while i < self.actors.len()
            invariant
                i <= self.actors@.len(),
                out@.len() == i,
                forall|j: int|
                    0 <= j < i ==> (#[trigger] out@[j]).0@ == self.actors@[j].id@ && (
                        steps_view(out@[j].1.once@),
                        opt_steps_view(out@[j].1.repeat),
                    ) == plan_of(self.actors@[j].operations@),
            decreases self.actors@.len() - i,
        {
            let a = &self.actors[i];
            let p = plan(&a.operations);
            out.push((a.id.as_str().to_owned(), p));
            i = i + 1;
        }
        out
    }
}

} // verus!

verus! {

/// What an actor does against the queues.
#[derive(Debug)]
pub enum Action {
    /// wait this long
    Sleep(Duration),
    /// send the item numbered `id` to one end of the queue
    Send { queue: String, back: bool, id: u64 },
    /// receive an item from one end of the queue
    Recv { queue: String, back: bool },
}

pub enum ActionView {
    Sleep(nat),
    Send { queue: Seq<char>, back: bool, id: nat },
    Recv { queue: Seq<char>, back: bool },
}

pub open spec fn action_view(a: Action) -> ActionView {
    match a {
        Action::Sleep(d) => ActionView::Sleep(duration_nanos(d) as nat),
        Action::Send { queue, back, id } => ActionView::Send { queue: queue@, back, id: id as nat },
        Action::Recv { queue, back } => ActionView::Recv { queue: queue@, back },
    }
}

/// Whether the queue table has a queue with the id `q`.
pub open spec fn has_queue(table: Seq<(Seq<char>, Behavior)>, q: Seq<char>) -> bool {
    exists|i: int| 0 <= i < table.len() && #[trigger] table[i].0 == q
}

/// Whether every queue that a step reaches is in the table: a push reaches
/// its queue only when it sends something, a pop always does.
pub open spec fn step_queue_known(s: StepView, table: Seq<(Seq<char>, Behavior)>) -> bool {
    match s {
        StepView::Sleep(_) => true,
        StepView::Push { queue, count, .. } => count == 0 || has_queue(table, queue),
        StepView::Pop { queue, .. } => has_queue(table, queue),
    }
}

/// What a step does, with items numbered from `next`: the actions, and the
/// next number. A push of `count` items sends the numbers `next` to
/// `next + count - 1` in order; a pop receives once; a sleep waits.
pub open spec fn step_actions(s: StepView, next: nat) -> (Seq<ActionView>, nat) {
    match s {
        StepView::Sleep(d) => (seq![ActionView::Sleep(d)], next),
        StepView::Push { back, queue, count } => (
            Seq::new(count as nat, |i: int| ActionView::Send { queue, back, id: (next + i) as nat }),
            (next + count) as nat,
        ),
        StepView::Pop { back, queue } => (seq![ActionView::Recv { queue, back }], next),
    }
}

/// Whether the table has a queue with the id `q`.
fn find_queue(table: &Vec<(String, Behavior)>, q: &str) -> (r: bool)
    ensures
        r == has_queue(named_view(table@), q@),
{
    let mut i: usize = 0;
    while i < table.len()
        invariant
            i <= table@.len(),
            forall|j: int| 0 <= j < i ==> #[trigger] named_view(table@)[j].0 != q@,
        decreases table@.len() - i,
    {
        assert(named_view(table@)[i as int].0 == table@[i as int].0@);
        if crate::text::str_eq(table[i].0.as_str(), q) {
            return true;
        }
        i = i + 1;
    }
    false
}

/// Whether every queue that `step` reaches is in `table`; a step that
/// reaches a queue the scenario lacks is refused with `invalid queue`.
pub fn knows_queue(step: &Step, table: &Vec<(String, Behavior)>) -> (r: bool)
    ensures
        r == step_queue_known(step_view(*step), named_view(table@)),
{
    match step {
        Step::Sleep(_) => true,
        Step::Push { queue, count, .. } => *count == 0 || find_queue(table, queue.as_str()),
        Step::Pop { queue, .. } => find_queue(table, queue.as_str()),
    }
}

/// What the step `step` does against the queues of `table`, with items
/// numbered from `next` (see `step_actions`).
pub fn run_step(step: &Step, table: &Vec<(String, Behavior)>, next: u64) -> (r: (Vec<Action>, u64))
    requires
        step_queue_known(step_view(*step), named_view(table@)),
        step matches Step::Push { count, .. } ==> next + *count <= u64::MAX,
    ensures
        r.0@.map_values(|a: Action| action_view(a)) == step_actions(step_view(*step), next as nat).0,
        r.1 == step_actions(step_view(*step), next as nat).1,
{
    match step {
        Step::Sleep(d) => {
            let mut acts: Vec<Action> = Vec::new();
            acts.push(Action::Sleep(*d));
            assert(acts@.map_values(|a: Action| action_view(a)) =~= seq![ActionView::Sleep(duration_nanos(*d) as nat)]);
            (acts, next)
        },
        Step::Push { back, queue, count } => {
            let mut acts: Vec<Action> = Vec::new();
            let mut k: u32 = 0;
            while k < *count
                invariant
                    k <= *count,
                    next + *count <= u64::MAX,
                    acts@.map_values(|a: Action| action_view(a)) == Seq::new(
                        k as nat,
                        |i: int| ActionView::Send { queue: queue@, back: *back, id: (next + i) as nat },
                    ),
                decreases *count - k,
            {
                let ghost a0 = acts@.map_values(|a: Action| action_view(a));
                let ghost v0 = acts@;
                let id: u64 = next + k as u64;
                let act = Action::Send { queue: queue.as_str().to_owned(), back: *back, id };
                assert(action_view(act) == ActionView::Send { queue: queue@, back: *back, id: (next + k) as nat });
                acts.push(act);
                assert(acts@ == v0.push(act));
                assert(acts@.map_values(|a: Action| action_view(a)) =~= a0.push(action_view(act)));
                assert(acts@.map_values(|a: Action| action_view(a)) =~= Seq::new(
                    (k + 1) as nat,
                    |i: int| ActionView::Send { queue: queue@, back: *back, id: (next + i) as nat },
                ));
                k = k + 1;
            }
            (acts, next + *count as u64)
        },
        Step::Pop { back, queue } => {
            let mut acts: Vec<Action> = Vec::new();
            acts.push(Action::Recv { queue: queue.as_str().to_owned(), back: *back });
            assert(acts@.map_values(|a: Action| action_view(a)) =~= seq![ActionView::Recv { queue: queue@, back: *back }]);
            (acts, next)
        },
    }
}

} // verus!
