use ngenrs::timer::TimerQueue;

#[test]
fn handles_are_fresh_and_ordered() {
    let mut q = TimerQueue::new();
    let a = q.add(100, String::from("on_a")).expect("handle space is fresh");
    let b = q.add(200, String::from("on_b")).expect("handle space is fresh");
    assert_eq!(a, 1);
    assert_eq!(b, 2);
    assert_eq!(q.active(), 2);
}

#[test]
fn poll_expires_only_due_timers_in_order() {
    let mut q = TimerQueue::new();
    q.add(50, String::from("first")).unwrap();
    q.add(500, String::from("late")).unwrap();
    q.add(60, String::from("second")).unwrap();

    let none_yet = q.poll(10);
    assert!(none_yet.is_empty());
    assert_eq!(q.active(), 3);

    let due = q.poll(100);
    assert_eq!(due.len(), 2);
    assert_eq!(due[0].callback, "first");
    assert_eq!(due[1].callback, "second");
    assert_eq!(q.active(), 1);

    let rest = q.poll(1000);
    assert_eq!(rest.len(), 1);
    assert_eq!(rest[0].callback, "late");
    assert_eq!(q.active(), 0);
}

#[test]
fn poll_at_exact_deadline_expires() {
    let mut q = TimerQueue::new();
    q.add(75, String::from("edge")).unwrap();
    let due = q.poll(75);
    assert_eq!(due.len(), 1);
    assert_eq!(due[0].callback, "edge");
}

#[test]
fn remove_cancels_one_timer() {
    let mut q = TimerQueue::new();
    let a = q.add(10, String::from("kept")).unwrap();
    let b = q.add(10, String::from("cancelled")).unwrap();
    assert_ne!(a, b);
    q.remove(b);
    assert_eq!(q.active(), 1);
    let due = q.poll(10);
    assert_eq!(due.len(), 1);
    assert_eq!(due[0].callback, "kept");
}

#[test]
fn remove_of_unknown_handle_keeps_everything() {
    let mut q = TimerQueue::new();
    q.add(10, String::from("stays")).unwrap();
    q.remove(99);
    assert_eq!(q.active(), 1);
}

#[test]
fn cancelled_handles_are_not_reused() {
    let mut q = TimerQueue::new();
    let a = q.add(10, String::from("x")).unwrap();
    q.remove(a);
    let b = q.add(10, String::from("y")).unwrap();
    assert_ne!(a, b);
}
