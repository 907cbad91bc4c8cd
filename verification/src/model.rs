//! The numbering behind the picture of a running simulation that the web
//! page draws: queues and groups get ids in the order they appear, a group
//! keeps its id, items are numbered, and the events are gathered into steps,
//! one per instant of the simulation's clock.
use vstd::prelude::*;
use crate::text::str_eq;

verus! {

/// What to do with the steps at an instant of the clock.
#[derive(Clone, Copy, Debug, PartialEq, Eq)]
pub enum StepChange {
    /// the events go to the current step
    Same,
    /// the first step starts here; when the clock is past its start, an
    /// empty step at the start comes first
    First { empty_start: bool },
    /// the current step is done and a new one starts here
    Next,
}

/// The numbering of a simulation's picture.
pub struct Scope {
    next_item: i32,
    next_queue: i32,
    groups: Vec<(String, i32)>,
    step: Option<u128>,
}

/// The numbering as plain values: the next item and queue ids, the groups
/// with their ids in the order they appeared, and the instant of the
/// current step.
pub struct ScopeView {
    pub next_item: i32,
    pub next_queue: i32,
    pub groups: Seq<(Seq<char>, i32)>,
    pub step: Option<u128>,
}

impl View for Scope {
    type V = ScopeView;

    closed spec fn view(&self) -> ScopeView {
        ScopeView {
            next_item: self.next_item,
            next_queue: self.next_queue,
            groups: self.groups@.map_values(|g: (String, i32)| (g.0@, g.1)),
            step: self.step,
        }
    }
}

/// The id of the first group named `name`.
pub open spec fn group_id(groups: Seq<(Seq<char>, i32)>, name: Seq<char>) -> Option<i32>
    decreases groups.len(),
{
    if groups.len() == 0 {
        None
    } else if groups[0].0 == name {
        Some(groups[0].1)
    } else {
        group_id(groups.drop_first(), name)
    }
}

/// What happens to the steps when events come at the instant `now`.
pub open spec fn step_change(step: Option<u128>, now: u128) -> StepChange {
    match step {
        None => StepChange::First { empty_start: now != 0 },
        Some(start) => if start == now {
            StepChange::Same
        } else {
            StepChange::Next
        },
    }
}

/// The numbering is consistent: the numbers start at zero, no two groups
/// share a name or an id, and every group's id is below the next queue id.
pub open spec fn scope_wf(s: ScopeView) -> bool {
    &&& s.next_item >= 0
    &&& s.next_queue >= 0
    &&& forall|i: int| 0 <= i < s.groups.len() ==> 0 <= (#[trigger] s.groups[i]).1 < s.next_queue
    &&& forall|i: int, j: int| 0 <= i < j < s.groups.len() ==> #[trigger] s.groups[i].0 != #[trigger] s.groups[j].0
        && s.groups[i].1 != s.groups[j].1
}

impl Scope {
    /// Nothing numbered yet and no step.
    pub fn new() -> (r: Scope)
        ensures
            scope_wf(r@),
            r@ == (ScopeView { next_item: 0, next_queue: 0, groups: seq![], step: None }),
    {
        let r = Scope { next_item: 0, next_queue: 0, groups: Vec::new(), step: None };
        assert(r@.groups =~= Seq::<(Seq<char>, i32)>::empty());
        r
    }

    /// The id of a new queue.
    pub fn create_queue(&mut self) -> (r: i32)
        requires
            old(self)@.next_queue < i32::MAX,
        ensures
            scope_wf(old(self)@) ==> scope_wf(final(self)@),
            r == old(self)@.next_queue,
            final(self)@ == (ScopeView { next_queue: (r + 1) as i32, ..old(self)@ }),
    {
        let id = self.next_queue;
        self.next_queue = id + 1;
        id
    }

    /// The id of a new item.
    pub fn create_item(&mut self) -> (r: i32)
        requires
            old(self)@.next_item < i32::MAX,
        ensures
            scope_wf(old(self)@) ==> scope_wf(final(self)@),
            r == old(self)@.next_item,
            final(self)@ == (ScopeView { next_item: (r + 1) as i32, ..old(self)@ }),
    {
        let id = self.next_item;
        self.next_item = id + 1;
        id
    }

    /// The id of the group named `name`, and whether it is new: a group seen
    /// before keeps its id; a new one gets the next queue id.
    pub fn queue_id_for_group(&mut self, name: &str) -> (r: (i32, bool))
        requires
            group_id(old(self)@.groups, name@) is None ==> old(self)@.next_queue < i32::MAX,
        ensures
            scope_wf(old(self)@) ==> scope_wf(final(self)@),
            match group_id(old(self)@.groups, name@) {
                Some(id) => r == (id, false) && final(self)@ == old(self)@,
                None => r == (old(self)@.next_queue, true) && final(self)@ == (ScopeView {
                    next_queue: (old(self)@.next_queue + 1) as i32,
                    groups: old(self)@.groups.push((name@, old(self)@.next_queue)),
                    ..old(self)@
                }),
            },
    {
        let ghost gs = self@.groups;
        let mut i: usize = 0;
        assert(gs.subrange(0, gs.len() as int) =~= gs);
        while i < self.groups.len()
            invariant
                gs == self@.groups,
                self@ == old(self)@,
                i <= gs.len(),
                group_id(gs, name@) == group_id(gs.subrange(i as int, gs.len() as int), name@),
            decreases gs.len() - i,
        {
            let ghost rest = gs.subrange(i as int, gs.len() as int);
            assert(rest[0] == gs[i as int]);
            assert(gs[i as int] == (self.groups@[i as int].0@, self.groups@[i as int].1));
            if str_eq(self.groups[i].0.as_str(), name) {
                return (self.groups[i].1, false);
            }
            assert(rest.drop_first() =~= gs.subrange(i + 1, gs.len() as int));
            i = i + 1;
        }
        let id = self.next_queue;
        self.next_queue = id + 1;
        self.groups.push((name.to_owned(), id));
        assert(self@.groups =~= gs.push((name@, id)));
        proof {
            if scope_wf(old(self)@) {
                assert(old(self)@.groups == gs);
                lemma_group_id_absent(gs, name@);
                assert forall|a: int, b: int| 0 <= a < b < self@.groups.len() implies #[trigger] self@.groups[a].0
                    != #[trigger] self@.groups[b].0 && self@.groups[a].1 != self@.groups[b].1 by {
                    if b < gs.len() {
                        assert(self@.groups[a] == gs[a] && self@.groups[b] == gs[b]);
                        assert(old(self)@.groups == gs);
                        assert(old(self)@.groups[a].0 != old(self)@.groups[b].0);
                    } else {
                        assert(self@.groups[a] == gs[a]);
                        assert(self@.groups[b] == (name@, id));
                        assert(gs[a].0 != name@);
                        assert(gs[a].1 < id);
                    }
                }
            }
        }
        (id, true)
    }

    /// Events come at the instant `now` of the clock, in nanoseconds since
    /// its start: the step they go to, which becomes the current one.
    pub fn step_at(&mut self, now: u128) -> (r: StepChange)
        ensures
            r == step_change(old(self)@.step, now),
            scope_wf(old(self)@) ==> scope_wf(final(self)@),
            final(self)@ == (ScopeView { step: Some(now), ..old(self)@ }),
    {
        let r = match self.step {
            None => StepChange::First { empty_start: now != 0 },
            Some(start) => if start == now {
                StepChange::Same
            } else {
                StepChange::Next
            },
        };
        self.step = Some(now);
        r
    }

    /// Whether a step is open, which is pushed when the simulation finishes.
    pub fn has_step(&self) -> (r: bool)
        ensures
            r == self@.step is Some,
    {
        self.step.is_some()
    }
}

} // verus!

verus! {

/// A group keeps its id: once a new group is added, asking for it again
/// gives the id it got, and every other group keeps its own.
pub proof fn lemma_group_keeps_its_id(groups: Seq<(Seq<char>, i32)>, name: Seq<char>, id: i32, other: Seq<char>)
    requires
        group_id(groups, name) is None,
    ensures
        group_id(groups.push((name, id)), name) == Some(id),
        other != name ==> group_id(groups.push((name, id)), other) == group_id(groups, other),
    decreases groups.len(),
{
    if groups.len() == 0 {
        assert(groups.push((name, id))[0] == (name, id));
        assert(groups.push((name, id)).drop_first() =~= Seq::<(Seq<char>, i32)>::empty());
    } else {
        assert(groups.push((name, id)).drop_first() =~= groups.drop_first().push((name, id)));
        assert(groups.push((name, id))[0] == groups[0]);
        lemma_group_keeps_its_id(groups.drop_first(), name, id, other);
        assert(group_id(groups.push((name, id)), other) == if groups[0].0 == other {
            Some(groups[0].1)
        } else {
            group_id(groups.drop_first().push((name, id)), other)
        });
    }
}

} // verus!

verus! {

proof fn lemma_group_id_absent(groups: Seq<(Seq<char>, i32)>, name: Seq<char>)
    requires
        group_id(groups, name) is None,
    ensures
        forall|i: int| 0 <= i < groups.len() ==> #[trigger] groups[i].0 != name,
    decreases groups.len(),
{
    if groups.len() > 0 {
        lemma_group_id_absent(groups.drop_first(), name);
        assert forall|i: int| 0 <= i < groups.len() implies #[trigger] groups[i].0 != name by {
            if i > 0 {
                assert(groups[i] == groups.drop_first()[i - 1]);
            }
        }
    }
}

/// Ids never repeat: in a consistent numbering, the id that the next new
/// queue or group gets is none of the groups' ids, and every later id is
/// larger still.
pub proof fn lemma_fresh_queue_id(s: ScopeView)
    requires
        scope_wf(s),
    ensures
        forall|i: int| 0 <= i < s.groups.len() ==> (#[trigger] s.groups[i]).1 != s.next_queue,
{
}

} // verus!
