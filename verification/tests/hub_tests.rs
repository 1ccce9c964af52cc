use line_relay::hub::{Delivery, Hub, PublishError, CAPACITY};

fn line(text: &str) -> Delivery {
    Delivery::Line(text.to_string())
}

#[test]
fn new_hub_has_no_subscribers() {
    let hub = Hub::new();
    assert_eq!(hub.subscriber_count(), 0);
    assert!(!hub.is_subscribed(0));
}

#[test]
fn publish_without_subscribers_reports_it() {
    let mut hub = Hub::new();
    assert_eq!(hub.publish("lost".to_string()), Err(PublishError::NoSubscribers));
}

#[test]
fn publish_returns_the_number_of_subscribers() {
    let mut hub = Hub::new();
    let _a = hub.subscribe();
    assert_eq!(hub.publish("one".to_string()), Ok(1));
    let _b = hub.subscribe();
    let _c = hub.subscribe();
    assert_eq!(hub.publish("two".to_string()), Ok(3));
    assert_eq!(hub.subscriber_count(), 3);
}

#[test]
fn subscribers_get_the_least_free_identifier() {
    let mut hub = Hub::new();
    assert_eq!(hub.subscribe(), 0);
    assert_eq!(hub.subscribe(), 1);
    assert_eq!(hub.subscribe(), 2);
    assert!(hub.unsubscribe(1));
    assert!(!hub.is_subscribed(1));
    assert_eq!(hub.subscribe(), 1);
    assert_eq!(hub.subscribe(), 3);
}

#[test]
fn lines_arrive_in_publication_order() {
    let mut hub = Hub::new();
    let s = hub.subscribe();
    for text in ["first", "second", "third"] {
        assert_eq!(hub.publish(text.to_string()), Ok(1));
    }
    assert_eq!(hub.receive(s), line("first"));
    assert_eq!(hub.publish("fourth".to_string()), Ok(1));
    assert_eq!(hub.receive(s), line("second"));
    assert_eq!(hub.receive(s), line("third"));
    assert_eq!(hub.receive(s), line("fourth"));
    assert_eq!(hub.receive(s), Delivery::Empty);
}

#[test]
fn equal_lines_are_each_delivered() {
    let mut hub = Hub::new();
    let s = hub.subscribe();
    assert_eq!(hub.publish("same".to_string()), Ok(1));
    assert_eq!(hub.publish("same".to_string()), Ok(1));
    assert_eq!(hub.receive(s), line("same"));
    assert_eq!(hub.receive(s), line("same"));
    assert_eq!(hub.receive(s), Delivery::Empty);
}

#[test]
fn late_subscriber_sees_nothing_from_before() {
    let mut hub = Hub::new();
    let early = hub.subscribe();
    assert_eq!(hub.publish("before".to_string()), Ok(1));
    let late = hub.subscribe();
    assert_eq!(hub.receive(late), Delivery::Empty);
    assert_eq!(hub.publish("after".to_string()), Ok(2));
    assert_eq!(hub.receive(late), line("after"));
    assert_eq!(hub.receive(late), Delivery::Empty);
    assert_eq!(hub.receive(early), line("before"));
    assert_eq!(hub.receive(early), line("after"));
}

#[test]
fn line_published_without_subscribers_is_never_delivered() {
    let mut hub = Hub::new();
    assert_eq!(hub.publish("nobody".to_string()), Err(PublishError::NoSubscribers));
    let s = hub.subscribe();
    assert_eq!(hub.receive(s), Delivery::Empty);
}

#[test]
fn every_subscriber_receives_every_line() {
    let mut hub = Hub::new();
    let ids: Vec<usize> = (0..5).map(|_| hub.subscribe()).collect();
    assert_eq!(hub.publish("to all".to_string()), Ok(5));
    for id in ids.iter() {
        assert_eq!(hub.receive(*id), line("to all"));
        assert_eq!(hub.receive(*id), Delivery::Empty);
    }
}

#[test]
fn subscribers_progress_independently() {
    let mut hub = Hub::new();
    let fast = hub.subscribe();
    let slow = hub.subscribe();
    for i in 0..10 {
        assert_eq!(hub.publish(format!("line {}", i)), Ok(2));
        assert_eq!(hub.receive(fast), line(&format!("line {}", i)));
    }
    for i in 0..10 {
        assert_eq!(hub.receive(slow), line(&format!("line {}", i)));
    }
    assert_eq!(hub.receive(slow), Delivery::Empty);
    assert_eq!(hub.receive(fast), Delivery::Empty);
}

#[test]
fn capacity_is_one_hundred_lines() {
    assert_eq!(CAPACITY, 100);
}

#[test]
fn a_full_backlog_is_not_yet_lag() {
    let mut hub = Hub::new();
    let s = hub.subscribe();
    for i in 0..100 {
        assert_eq!(hub.publish(format!("{}", i)), Ok(1));
    }
    for i in 0..100 {
        assert_eq!(hub.receive(s), line(&format!("{}", i)));
    }
    assert_eq!(hub.receive(s), Delivery::Empty);
}

#[test]
fn one_line_too_many_drops_the_oldest() {
    let mut hub = Hub::new();
    let s = hub.subscribe();
    for i in 0..101 {
        assert_eq!(hub.publish(format!("{}", i)), Ok(1));
    }
    assert_eq!(hub.receive(s), Delivery::Lagged(1));
    for i in 1..101 {
        assert_eq!(hub.receive(s), line(&format!("{}", i)));
    }
    assert_eq!(hub.receive(s), Delivery::Empty);
}

#[test]
fn lagging_subscriber_recovers() {
    let mut hub = Hub::new();
    let s = hub.subscribe();
    for i in 0..250 {
        assert_eq!(hub.publish(format!("{}", i)), Ok(1));
    }
    assert_eq!(hub.receive(s), Delivery::Lagged(150));
    assert_eq!(hub.receive(s), line("150"));
    assert_eq!(hub.publish("later".to_string()), Ok(1));
    for i in 151..250 {
        assert_eq!(hub.receive(s), line(&format!("{}", i)));
    }
    assert_eq!(hub.receive(s), line("later"));
    assert_eq!(hub.receive(s), Delivery::Empty);
}

#[test]
fn lag_counts_lines_lost_after_a_partial_read() {
    let mut hub = Hub::new();
    let s = hub.subscribe();
    for i in 0..60 {
        assert_eq!(hub.publish(format!("{}", i)), Ok(1));
    }
    for i in 0..10 {
        assert_eq!(hub.receive(s), line(&format!("{}", i)));
    }
    for i in 60..130 {
        assert_eq!(hub.publish(format!("{}", i)), Ok(1));
    }
    // 120 lines wait, 100 are kept: 10..30 are lost.
    assert_eq!(hub.receive(s), Delivery::Lagged(20));
    assert_eq!(hub.receive(s), line("30"));
}

#[test]
fn lag_of_one_subscriber_is_not_lag_of_another() {
    let mut hub = Hub::new();
    let slow = hub.subscribe();
    let fast = hub.subscribe();
    for i in 0..120 {
        assert_eq!(hub.publish(format!("{}", i)), Ok(2));
        assert_eq!(hub.receive(fast), line(&format!("{}", i)));
    }
    assert_eq!(hub.receive(fast), Delivery::Empty);
    assert_eq!(hub.receive(slow), Delivery::Lagged(20));
    assert_eq!(hub.receive(slow), line("20"));
}

#[test]
fn unknown_subscriber_is_closed() {
    let mut hub = Hub::new();
    assert_eq!(hub.receive(0), Delivery::Closed);
    let s = hub.subscribe();
    assert_eq!(hub.receive(s + 1), Delivery::Closed);
    assert!(hub.unsubscribe(s));
    assert_eq!(hub.receive(s), Delivery::Closed);
    assert!(!hub.unsubscribe(s));
}

#[test]
fn leaving_does_not_disturb_the_others() {
    let mut hub = Hub::new();
    let a = hub.subscribe();
    let b = hub.subscribe();
    let c = hub.subscribe();
    assert_eq!(hub.publish("one".to_string()), Ok(3));
    assert!(hub.unsubscribe(b));
    assert_eq!(hub.subscriber_count(), 2);
    assert_eq!(hub.publish("two".to_string()), Ok(2));
    for id in [a, c] {
        assert_eq!(hub.receive(id), line("one"));
        assert_eq!(hub.receive(id), line("two"));
        assert_eq!(hub.receive(id), Delivery::Empty);
    }
    let d = hub.subscribe();
    assert_eq!(d, b);
    assert_eq!(hub.receive(d), Delivery::Empty);
    assert_eq!(hub.publish("three".to_string()), Ok(3));
    assert_eq!(hub.receive(d), line("three"));
    assert_eq!(hub.receive(a), line("three"));
}

#[test]
fn reused_identifier_starts_afresh() {
    let mut hub = Hub::new();
    let a = hub.subscribe();
    for i in 0..150 {
        assert_eq!(hub.publish(format!("{}", i)), Ok(1));
    }
    assert!(hub.unsubscribe(a));
    let b = hub.subscribe();
    assert_eq!(a, b);
    assert_eq!(hub.receive(b), Delivery::Empty);
}
