use epub_translator::dispatcher::Dispatcher;
use epub_translator::pipeline::Job;

fn job(id: usize) -> Job {
    Job { id, text: format!("text {}", id), attempt: 0 }
}

#[test]
fn dispatcher_starts_up_to_the_limit() {
    let mut d = Dispatcher::new(2);
    assert_eq!(d.limit(), 2);
    assert_eq!(d.submit(job(0)).map(|j| j.id), Some(0));
    assert_eq!(d.submit(job(1)).map(|j| j.id), Some(1));
    assert!(d.submit(job(2)).is_none());
    assert!(d.submit(job(3)).is_none());
    assert_eq!(d.in_flight(), 2);
    assert_eq!(d.waiting(), 2);
}

#[test]
fn dispatcher_hands_permits_on_in_order() {
    let mut d = Dispatcher::new(1);
    assert!(d.submit(job(0)).is_some());
    assert!(d.submit(job(1)).is_none());
    assert!(d.submit(job(2)).is_none());
    assert_eq!(d.finished().map(|j| j.id), Some(1));
    assert_eq!(d.in_flight(), 1);
    assert_eq!(d.finished().map(|j| j.id), Some(2));
    assert_eq!(d.in_flight(), 1);
    assert!(d.finished().is_none());
    assert_eq!(d.in_flight(), 0);
    assert!(d.finished().is_none());
    assert_eq!(d.in_flight(), 0);
}

#[test]
fn dispatcher_without_permits_starts_nothing() {
    let mut d = Dispatcher::new(0);
    assert!(d.submit(job(0)).is_none());
    assert!(d.finished().is_none());
    assert_eq!(d.in_flight(), 0);
    assert_eq!(d.waiting(), 1);
}

#[test]
fn dispatcher_never_exceeds_the_limit() {
    let limit = 3;
    let mut d = Dispatcher::new(limit);
    let mut started = 0;
    for id in 0..20 {
        if d.submit(job(id)).is_some() {
            started += 1;
        }
        assert!(d.in_flight() <= limit);
        if id % 3 == 2 {
            if d.finished().is_some() {
                started += 1;
            }
            assert!(d.in_flight() <= limit);
        }
    }
    while d.in_flight() > 0 {
        if d.finished().is_some() {
            started += 1;
        }
        assert!(d.in_flight() <= limit);
    }
    assert_eq!(started, 20);
    assert_eq!(d.waiting(), 0);
}
