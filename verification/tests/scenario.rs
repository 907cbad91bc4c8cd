use core::time::Duration;
use kew::ring_deque::Behavior;
use kew::scenario::{knows_queue, plan, run_step, Action, Actor, Kew, Operation, Queue, QueueType, Step};

fn q(s: &str) -> String {
    s.to_string()
}

#[test]
fn queue_types_become_behaviors() {
    assert_eq!(Behavior::from(QueueType::Unbounded), Behavior::Unbounded);
    assert_eq!(Behavior::from(QueueType::PreferNew(3)), Behavior::Wrap(3));
    assert_eq!(Behavior::from(QueueType::PreferOld(2)), Behavior::Reject(2));
    assert_eq!(QueueType::default(), QueueType::Unbounded);
}

#[test]
fn straight_operations_run_once() {
    let ops = vec![
        Operation::Sleep(Duration::ZERO),
        Operation::PushBack { queue: q("a"), count: 2 },
        Operation::Sleep(Duration::from_millis(5)),
        Operation::PopFront { queue: q("a") },
        Operation::PushFront { queue: q("b"), count: 1 },
        Operation::PopBack { queue: q("b") },
    ];
    let p = plan(&ops);
    assert!(p.repeat.is_none());
    assert_eq!(p.once.len(), 5);
    assert!(matches!(&p.once[0], Step::Push { back: true, queue, count: 2 } if queue == "a"));
    assert!(matches!(&p.once[1], Step::Sleep(d) if *d == Duration::from_millis(5)));
    assert!(matches!(&p.once[2], Step::Pop { back: false, queue } if queue == "a"));
    assert!(matches!(&p.once[3], Step::Push { back: false, queue, count: 1 } if queue == "b"));
    assert!(matches!(&p.once[4], Step::Pop { back: true, queue } if queue == "b"));
}

#[test]
fn a_loop_that_never_waits_waits_a_millisecond() {
    let ops = vec![
        Operation::PushBack { queue: q("a"), count: 1 },
        Operation::Loop(vec![Operation::PopFront { queue: q("a") }, Operation::Sleep(Duration::ZERO)]),
        Operation::PushBack { queue: q("never"), count: 1 },
    ];
    let p = plan(&ops);
    assert_eq!(p.once.len(), 1);
    let r = p.repeat.unwrap();
    assert_eq!(r.len(), 2);
    assert!(matches!(&r[0], Step::Pop { back: false, queue } if queue == "a"));
    assert!(matches!(&r[1], Step::Sleep(d) if *d == Duration::from_millis(1)));
}

#[test]
fn a_loop_that_waits_repeats_as_it_is() {
    let ops = vec![Operation::Loop(vec![
        Operation::Sleep(Duration::from_millis(3)),
        Operation::PushBack { queue: q("a"), count: 4 },
    ])];
    let p = plan(&ops);
    assert!(p.once.is_empty());
    let r = p.repeat.unwrap();
    assert_eq!(r.len(), 2);
    assert!(matches!(&r[0], Step::Sleep(d) if *d == Duration::from_millis(3)));
}

#[test]
fn an_inner_loop_keeps_the_outer_one_in_its_first_round() {
    let ops = vec![Operation::Loop(vec![
        Operation::PushBack { queue: q("a"), count: 1 },
        Operation::Loop(vec![Operation::Sleep(Duration::from_millis(2))]),
        Operation::PopFront { queue: q("a") },
    ])];
    let p = plan(&ops);
    assert_eq!(p.once.len(), 1);
    assert!(matches!(&p.once[0], Step::Push { back: true, queue, count: 1 } if queue == "a"));
    let r = p.repeat.unwrap();
    assert_eq!(r.len(), 1);
    assert!(matches!(&r[0], Step::Sleep(d) if *d == Duration::from_millis(2)));
}

#[test]
fn nothing_after_a_loop_changes_the_plan() {
    let base = || {
        vec![
            Operation::PushBack { queue: q("a"), count: 1 },
            Operation::Loop(vec![Operation::PopFront { queue: q("a") }]),
        ]
    };
    let mut more = base();
    more.push(Operation::PushFront { queue: q("b"), count: 9 });
    more.push(Operation::Sleep(Duration::from_secs(1)));
    assert_eq!(format!("{:?}", plan(&base())), format!("{:?}", plan(&more)));
}

#[test]
fn the_last_queue_with_an_id_wins() {
    let mut k = Kew::default();
    assert_eq!(k.run_time, Duration::from_secs(1));
    k.queues.push(Queue { id: q("a"), name: q("first"), ty: QueueType::Unbounded });
    k.queues.push(Queue { id: q("b"), name: q("second"), ty: QueueType::PreferOld(2) });
    k.queues.push(Queue { id: q("a"), name: q("again"), ty: QueueType::PreferNew(4) });
    let table = k.queue_table();
    assert_eq!(table, vec![(q("a"), Behavior::Wrap(4)), (q("b"), Behavior::Reject(2))]);
    k.actors.push(Actor {
        id: q("client"),
        name: q("Client"),
        operations: vec![Operation::PushBack { queue: q("a"), count: 1 }],
    });
    let plans = k.actor_plans();
    assert_eq!(plans.len(), 1);
    assert_eq!(plans[0].0, "client");
    assert_eq!(plans[0].1.once.len(), 1);
}

#[test]
fn steps_become_actions_with_numbered_items() {
    let table = vec![(q("a"), Behavior::Unbounded)];
    let push = Step::Push { back: true, queue: q("a"), count: 3 };
    assert!(knows_queue(&push, &table));
    let (acts, next) = run_step(&push, &table, 10);
    assert_eq!(next, 13);
    assert_eq!(acts.len(), 3);
    for (i, a) in acts.iter().enumerate() {
        assert!(matches!(a, Action::Send { queue, back: true, id } if queue == "a" && *id == 10 + i as u64));
    }
    let missing = Step::Push { back: false, queue: q("zz"), count: 1 };
    assert!(!knows_queue(&missing, &table));
    let none = Step::Push { back: false, queue: q("zz"), count: 0 };
    assert!(knows_queue(&none, &table));
    let (acts, next) = run_step(&none, &table, 4);
    assert!(acts.is_empty());
    assert_eq!(next, 4);
    let pop = Step::Pop { back: false, queue: q("a") };
    assert!(knows_queue(&pop, &table));
    let (acts, next) = run_step(&pop, &table, 4);
    assert_eq!(next, 4);
    assert!(matches!(&acts[0], Action::Recv { queue, back: false } if queue == "a"));
    assert!(!knows_queue(&Step::Pop { back: true, queue: q("b") }, &table));
    let sleep = Step::Sleep(Duration::from_millis(2));
    assert!(knows_queue(&sleep, &table));
    let (acts, _) = run_step(&sleep, &table, 0);
    assert!(matches!(&acts[0], Action::Sleep(d) if *d == Duration::from_millis(2)));
}
