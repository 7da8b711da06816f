use server_poller::scheduler::{NextDue, SchedulerHandle};

fn ready(next: NextDue) -> (String, u128) {
    match next {
        NextDue::Ready(entry) => (entry.key, entry.due),
        other => panic!("{other:?}"),
    }
}

#[test]
fn an_empty_schedule_is_idle() {
    assert!(matches!(SchedulerHandle::new().next_due(0), NextDue::Idle));
}

#[test]
fn polls_come_when_due_and_in_order() {
    let mut scheduler = SchedulerHandle::new();
    scheduler.schedule("late".to_string(), 30);
    scheduler.schedule("first".to_string(), 10);
    scheduler.schedule("second".to_string(), 10);
    scheduler.schedule("middle".to_string(), 20);
    assert!(matches!(scheduler.next_due(4), NextDue::Wait(6)));
    assert_eq!(ready(scheduler.next_due(10)), ("first".to_string(), 10));
    assert_eq!(ready(scheduler.next_due(10)), ("second".to_string(), 10));
    assert!(matches!(scheduler.next_due(10), NextDue::Wait(10)));
    assert_eq!(ready(scheduler.next_due(99)), ("middle".to_string(), 20));
    assert_eq!(ready(scheduler.next_due(99)), ("late".to_string(), 30));
    assert!(matches!(scheduler.next_due(99), NextDue::Idle));
}
