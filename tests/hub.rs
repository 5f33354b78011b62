use chatroom::hub::Hub;

fn drain(h: &mut Hub, id: usize) -> Vec<String> {
    let mut out = Vec::new();
    while let Some(m) = h.next_message(id) {
        out.push(m);
    }
    out
}

#[test]
fn late_subscriber_never_sees_earlier_messages() {
    let mut h = Hub::new(100);
    let a = h.subscribe();
    h.publish("m1".to_string());
    let b = h.subscribe();
    h.publish("m2".to_string());
    assert_eq!(drain(&mut h, a), vec!["m1".to_string(), "m2".to_string()]);
    assert_eq!(drain(&mut h, b), vec!["m2".to_string()]);
}

#[test]
fn subscriber_receives_everything_in_order_once() {
    let mut h = Hub::new(10);
    let a = h.subscribe();
    for i in 0..5 {
        h.publish(format!("msg {i}"));
    }
    let got = drain(&mut h, a);
    assert_eq!(got, (0..5).map(|i| format!("msg {i}")).collect::<Vec<_>>());
    assert_eq!(h.next_message(a), None);
}

#[test]
fn publish_with_no_subscribers_is_discarded() {
    let mut h = Hub::new(4);
    h.publish("nobody".to_string());
    let a = h.subscribe();
    assert_eq!(h.next_message(a), None);
}

#[test]
fn full_queue_drops_oldest_for_that_subscriber_only() {
    let mut h = Hub::new(2);
    let slow = h.subscribe();
    let fast = h.subscribe();
    h.publish("1".to_string());
    assert_eq!(h.next_message(fast), Some("1".to_string()));
    h.publish("2".to_string());
    assert_eq!(h.next_message(fast), Some("2".to_string()));
    h.publish("3".to_string());
    assert_eq!(h.next_message(fast), Some("3".to_string()));
    assert_eq!(drain(&mut h, slow), vec!["2".to_string(), "3".to_string()]);
}

#[test]
fn zero_capacity_queues_nothing() {
    let mut h = Hub::new(0);
    let a = h.subscribe();
    h.publish("x".to_string());
    assert_eq!(h.next_message(a), None);
    assert_eq!(h.capacity(), 0);
}

#[test]
fn unsubscribed_id_gets_nothing_and_is_reused() {
    let mut h = Hub::new(8);
    let a = h.subscribe();
    let b = h.subscribe();
    h.publish("before".to_string());
    h.unsubscribe(a);
    assert_eq!(h.next_message(a), None);
    let c = h.subscribe();
    assert_eq!(c, a);
    h.publish("after".to_string());
    assert_eq!(drain(&mut h, c), vec!["after".to_string()]);
    assert_eq!(drain(&mut h, b), vec!["before".to_string(), "after".to_string()]);
}

#[test]
fn unknown_id_gets_nothing() {
    let mut h = Hub::new(8);
    h.publish("x".to_string());
    assert_eq!(h.next_message(7), None);
    h.unsubscribe(7);
}
