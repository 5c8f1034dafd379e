use jmap::queue::{Action, ActionClass, Queue, LONG_SLUMBER, TICKS_PER_SECOND};

fn popped(action: Option<Action>) -> Option<(u64, ActionClass)> {
    action.map(|a| (a.due, a.event))
}

#[test]
fn empty_queue_sleeps_long() {
    let queue = Queue::new();
    assert_eq!(queue.wake_up_time(5), LONG_SLUMBER);
    assert_eq!(LONG_SLUMBER, 24 * 60 * 60 * TICKS_PER_SECOND);
    assert_eq!(queue.len(), 0);
    assert_eq!(queue.next_due(), None);
}

#[test]
fn wake_up_time_is_saturating() {
    let mut queue = Queue::new();
    queue.schedule(100, ActionClass::Session);
    assert_eq!(queue.wake_up_time(40), 60);
    assert_eq!(queue.wake_up_time(100), 0);
    assert_eq!(queue.wake_up_time(250), 0);
}

#[test]
fn wake_up_time_follows_the_earliest() {
    let mut queue = Queue::new();
    queue.schedule(500, ActionClass::Account);
    queue.schedule(120, ActionClass::Store(3));
    queue.schedule(300, ActionClass::Session);
    assert_eq!(queue.next_due(), Some(120));
    assert_eq!(queue.wake_up_time(20), 100);
}

#[test]
fn pop_gives_only_what_is_due() {
    let mut queue = Queue::new();
    queue.schedule(20, ActionClass::Account);
    queue.schedule(10, ActionClass::Session);
    assert!(queue.pop(9).is_none());
    assert_eq!(popped(queue.pop(10)), Some((10, ActionClass::Session)));
    assert!(queue.pop(19).is_none());
    assert_eq!(popped(queue.pop(25)), Some((20, ActionClass::Account)));
    assert!(queue.pop(1000).is_none());
    assert_eq!(queue.len(), 0);
}

#[test]
fn pop_drains_in_order_of_due() {
    let mut queue = Queue::new();
    queue.schedule(30, ActionClass::OtelMetrics);
    queue.schedule(10, ActionClass::Store(1));
    queue.schedule(20, ActionClass::Acme("p".to_string()));
    let mut order = Vec::new();
    while let Some(action) = queue.pop(100) {
        order.push(action.due);
    }
    assert_eq!(order, vec![10, 20, 30]);
}

#[test]
fn actions_due_together_leave_as_they_came() {
    let mut queue = Queue::new();
    queue.schedule(10, ActionClass::Account);
    queue.schedule(10, ActionClass::Session);
    queue.schedule(10, ActionClass::CalculateMetrics);
    assert_eq!(popped(queue.pop(10)), Some((10, ActionClass::Account)));
    assert_eq!(popped(queue.pop(10)), Some((10, ActionClass::Session)));
    assert_eq!(popped(queue.pop(10)), Some((10, ActionClass::CalculateMetrics)));
}

#[test]
fn has_action_looks_at_the_class_only() {
    let mut queue = Queue::new();
    queue.schedule(77, ActionClass::Acme("mx".to_string()));
    queue.schedule(78, ActionClass::Store(2));
    assert!(queue.has_action(&ActionClass::Acme("mx".to_string())));
    assert!(!queue.has_action(&ActionClass::Acme("www".to_string())));
    let early = Action { due: 1, event: ActionClass::Acme("mx".to_string()) };
    let late = Action { due: 9, event: ActionClass::Acme("mx".to_string()) };
    let other = Action { due: 1, event: ActionClass::Account };
    assert!(early == late);
    assert!(early != other);
    assert!(queue.has_action(&ActionClass::Store(2)));
    assert!(!queue.has_action(&ActionClass::Store(1)));
    assert!(!queue.has_action(&ActionClass::Session));
}

#[test]
fn remove_action_takes_every_entry_of_the_class() {
    let mut queue = Queue::new();
    queue.schedule(5, ActionClass::Session);
    queue.schedule(6, ActionClass::Account);
    queue.schedule(7, ActionClass::Session);
    queue.remove_action(&ActionClass::Session);
    assert_eq!(queue.len(), 1);
    assert!(!queue.has_action(&ActionClass::Session));
    assert_eq!(queue.due_of(&ActionClass::Account), Some(6));
    queue.remove_action(&ActionClass::ValidateLicense);
    assert_eq!(queue.len(), 1);
}

#[test]
fn due_of_finds_the_tick() {
    let mut queue = Queue::new();
    queue.schedule(40, ActionClass::InternalMetrics);
    queue.schedule(15, ActionClass::AlertMetrics);
    assert_eq!(queue.due_of(&ActionClass::InternalMetrics), Some(40));
    assert_eq!(queue.due_of(&ActionClass::AlertMetrics), Some(15));
    assert_eq!(queue.due_of(&ActionClass::Session), None);
    assert_eq!(queue.due_count(14), 0);
    assert_eq!(queue.due_count(15), 1);
    assert_eq!(queue.due_count(40), 2);
}

#[test]
fn guarded_schedule_keeps_one_entry_per_class() {
    let mut queue = Queue::new();
    for due in [30u64, 10, 20] {
        if !queue.has_action(&ActionClass::OtelMetrics) {
            queue.schedule(due, ActionClass::OtelMetrics);
        }
    }
    assert_eq!(queue.len(), 1);
    assert_eq!(queue.due_of(&ActionClass::OtelMetrics), Some(30));
}

#[test]
fn classes_compare_by_tag_and_payload() {
    assert!(ActionClass::Store(1).same_as(&ActionClass::Store(1)));
    assert!(!ActionClass::Store(1).same_as(&ActionClass::Store(2)));
    assert!(ActionClass::Acme("a".to_string()).same_as(&ActionClass::Acme("a".to_string())));
    assert!(!ActionClass::Acme("a".to_string()).same_as(&ActionClass::Acme("b".to_string())));
    assert!(!ActionClass::Session.same_as(&ActionClass::Account));
    assert_eq!(ActionClass::Acme("a".to_string()).clone(), ActionClass::Acme("a".to_string()));
}
