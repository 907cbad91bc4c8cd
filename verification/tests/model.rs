use kew::model::{Scope, StepChange};

#[test]
fn groups_keep_their_ids() {
    let mut s = Scope::new();
    assert_eq!(s.create_queue(), 0);
    assert_eq!(s.queue_id_for_group("Clients"), (1, true));
    assert_eq!(s.queue_id_for_group("Server"), (2, true));
    assert_eq!(s.queue_id_for_group("Clients"), (1, false));
    assert_eq!(s.create_queue(), 3);
    assert_eq!(s.create_item(), 0);
    assert_eq!(s.create_item(), 1);
}

#[test]
fn steps_follow_the_clock() {
    let mut s = Scope::new();
    assert!(!s.has_step());
    assert_eq!(s.step_at(5), StepChange::First { empty_start: true });
    assert_eq!(s.step_at(5), StepChange::Same);
    assert_eq!(s.step_at(9), StepChange::Next);
    assert!(s.has_step());
    let mut t = Scope::new();
    assert_eq!(t.step_at(0), StepChange::First { empty_start: false });
}

#[test]
fn queue_and_group_ids_never_repeat() {
    let mut s = Scope::new();
    let mut ids = vec![s.create_queue()];
    for name in ["a", "b", "a", "c", "b"] {
        let (id, new) = s.queue_id_for_group(name);
        if new {
            ids.push(id);
        }
        ids.push(s.create_queue());
    }
    let mut sorted = ids.clone();
    sorted.sort();
    sorted.dedup();
    assert_eq!(sorted.len(), ids.len());
}
