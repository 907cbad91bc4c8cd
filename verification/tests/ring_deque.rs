use kew::ring_deque::{Behavior, Closed, Priority, Record, RingDeque};

#[test]
fn capacity_of_each_behavior() {
    assert_eq!(Behavior::Unbounded.capacity(), None);
    assert_eq!(Behavior::Backpressure(3).capacity(), Some(3));
    assert_eq!(Behavior::Wrap(4).capacity(), Some(4));
    assert_eq!(Behavior::Reject(5).capacity(), Some(5));
    assert_eq!(Behavior::default(), Behavior::Unbounded);
    assert_eq!(Closed::default(), Closed);
    assert!(matches!(Priority::default(), Priority::Required));
}

#[test]
fn closed_queue_refuses_everything() {
    let mut q: RingDeque<u32> = RingDeque::new(Behavior::Unbounded, "q");
    q.push_back_at(1, None).unwrap();
    assert_eq!(q.close(), Ok(()));
    assert!(!q.is_open());
    assert_eq!(q.push_back_at(2, None), Err(Closed));
    assert_eq!(q.push_front_at(2, None), Err(Closed));
    assert_eq!(q.pop_back_at(None), Err(Closed));
    assert_eq!(q.pop_front_at(None), Err(Closed));
    assert_eq!(q.close(), Err(Closed));
    assert_eq!(q.len(), 1);
}

#[test]
fn push_then_pop_same_end_gives_it_back() {
    let mut q: RingDeque<u32> = RingDeque::new(Behavior::Unbounded, "q");
    q.push_back_at(1, None).unwrap();
    q.push_back_at(2, None).unwrap();
    assert_eq!(q.pop_back_at(None), Ok(Some(2)));
    q.push_front_at(7, None).unwrap();
    assert_eq!(q.pop_front_at(None), Ok(Some(7)));
    assert_eq!(q.len(), 1);
}

#[test]
fn first_in_first_out() {
    let mut q: RingDeque<u32> = RingDeque::new(Behavior::Unbounded, "q");
    for i in 0..5 {
        assert_eq!(q.push_back_at(i, None), Ok(None));
    }
    for i in 0..5 {
        assert_eq!(q.pop_front_at(None), Ok(Some(i)));
    }
    assert_eq!(q.pop_front_at(None), Ok(None));
}

#[test]
fn reject_hands_back_at_capacity() {
    let mut q: RingDeque<u32> = RingDeque::new(Behavior::Reject(2), "q");
    assert_eq!(q.push_back_at(1, None), Ok(None));
    assert_eq!(q.push_back_at(2, None), Ok(None));
    assert_eq!(q.push_back_at(3, None), Ok(Some(3)));
    assert_eq!(q.push_front_at(4, None), Ok(Some(4)));
    assert_eq!(q.len(), 2);
    assert_eq!(q.pop_front_at(None), Ok(Some(1)));
    assert_eq!(q.pop_front_at(None), Ok(Some(2)));
}

#[test]
fn wrap_drops_the_other_end() {
    let mut q: RingDeque<u32> = RingDeque::new(Behavior::Wrap(2), "q");
    q.push_back_at(1, None).unwrap();
    q.push_back_at(2, None).unwrap();
    assert_eq!(q.push_back_at(3, None), Ok(Some(1)));
    assert_eq!(q.push_front_at(0, None), Ok(Some(3)));
    assert_eq!(q.len(), 2);
    assert_eq!(q.pop_front_at(None), Ok(Some(0)));
    assert_eq!(q.pop_front_at(None), Ok(Some(2)));

    let mut b: RingDeque<u32> = RingDeque::new(Behavior::Backpressure(1), "b");
    b.push_back_at(1, None).unwrap();
    assert_eq!(b.push_back_at(2, None), Ok(Some(1)));
}

#[test]
fn conditional_pops() {
    let mut q: RingDeque<u32> = RingDeque::new(Behavior::Unbounded, "q");
    q.push_back_at(1, None).unwrap();
    q.push_back_at(2, None).unwrap();
    assert_eq!(q.pop_front_if_at(Priority::Required, "check", |v| *v > 5, None), Ok(None));
    assert_eq!(q.pop_front_if_at(Priority::Optional, "check", |v| *v == 1, None), Ok(Some(1)));
    assert_eq!(q.pop_back_if_at(Priority::Required, "check", |v| *v == 2, None), Ok(Some(2)));
    assert_eq!(q.pop_back_if_at(Priority::Required, "check", |_| true, None), Ok(None));
    q.close().unwrap();
    assert_eq!(q.pop_back_if_at(Priority::Required, "check", |_| true, None), Err(Closed));
}

#[test]
fn records_become_metric_lines() {
    let mut q: RingDeque<u32> = RingDeque::new(Behavior::Unbounded, "fifo");
    q.push_back_at(1, Some(10)).unwrap();
    assert_eq!(q.pop_front_at(Some(25)), Ok(Some(1)));
    let records = q.take_records();
    assert_eq!(records.len(), 3);
    let mut lines = vec![];
    for r in &records {
        lines.extend(r.lines(q.name(), 100));
    }
    assert_eq!(
        lines,
        vec![
            "kew[100]count#push=1 queue_name=fifo",
            "kew[100]count#push_back=1 queue_name=fifo",
            "kew[100]measure#queue_len=1 queue_name=fifo",
            "kew[100]measure#sojourn_time=15ns reason=explicit queue_name=fifo",
            "kew[100]measure#queue_len=0 queue_name=fifo",
            "kew[100]count#pop=1 reason=explicit queue_name=fifo",
            "kew[100]count#pop_front=1 reason=explicit queue_name=fifo",
        ]
    );
    assert!(q.take_records().is_empty());
}

#[test]
fn rejected_push_is_recorded_with_reason() {
    let mut q: RingDeque<u32> = RingDeque::new(Behavior::Reject(0), "r");
    assert_eq!(q.push_front_at(1, None), Ok(Some(1)));
    let records = q.take_records();
    assert_eq!(records.len(), 1);
    assert_eq!(
        records[0].lines("r", 5),
        vec![
            "kew[5]count#push=1 queue_name=r reason=reject",
            "kew[5]count#push_front=1 queue_name=r reason=reject",
        ]
    );
    let unknown = Record::Pop { back: true, reason: "wrap".to_string(), sojourn: None, len: 3 };
    assert_eq!(unknown.lines("r", 1).len(), 3);
}

#[test]
fn many_items_leave_in_order() {
    let mut q: RingDeque<u32> = RingDeque::new(Behavior::Unbounded, "q");
    for i in 0..100 {
        assert_eq!(q.push_back_at(i, Some(i as u128)), Ok(None));
    }
    for i in 0..100 {
        assert_eq!(q.pop_front_at(None), Ok(Some(i)));
    }
    assert_eq!(q.pop_front_at(None), Ok(None));
    for i in 0..10 {
        q.push_back_at(i, None).unwrap();
    }
    for i in (0..10).rev() {
        assert_eq!(q.pop_back_at(None), Ok(Some(i)));
    }
}

#[test]
fn the_bound_holds_under_any_calls() {
    for b in [Behavior::Wrap(0), Behavior::Backpressure(0), Behavior::Wrap(3), Behavior::Reject(0), Behavior::Reject(2)] {
        let bound = match b {
            Behavior::Reject(c) => c,
            Behavior::Wrap(c) | Behavior::Backpressure(c) => c.max(1),
            Behavior::Unbounded => usize::MAX,
        };
        let mut q: RingDeque<u32> = RingDeque::new(b, "q");
        for i in 0..20u32 {
            match i % 5 {
                0 | 1 => drop(q.push_back_at(i, None)),
                2 => drop(q.push_front_at(i, None)),
                3 if i % 3 == 0 => drop(q.pop_front_at(None)),
                _ => drop(q.push_back_at(i, None)),
            }
            assert!(q.len() <= bound);
        }
    }
}

#[test]
fn closing_is_shared_by_copies_of_a_handle() {
    let mut qs: kew::ring_deque::Deques<u32> = kew::ring_deque::Deques::new();
    let q = qs.add(Behavior::Unbounded, "shared");
    let other = qs.add(Behavior::Unbounded, "other");
    let q2 = q;
    assert_eq!(qs.push_back(q, 1), Ok(None));
    assert_eq!(qs.push_back(q2, 2), Ok(None));
    assert_eq!(qs.len(q), 2);
    assert_eq!(qs.pop_front(q2), Ok(Some(1)));
    assert_eq!(qs.close(q), Ok(()));
    assert!(!qs.is_open(q2));
    assert_eq!(qs.close(q), Err(Closed));
    assert_eq!(qs.close(q2), Err(Closed));
    assert_eq!(qs.pop_front(q), Err(Closed));
    assert_eq!(qs.pop_back(q2), Err(Closed));
    assert_eq!(qs.push_back(q, 3), Err(Closed));
    assert_eq!(qs.push_front(q2, 3), Err(Closed));
    assert!(qs.is_open(other));
    assert_eq!(qs.push_front(other, 9), Ok(None));
    assert_eq!(qs.pop_back(other), Ok(Some(9)));
}
