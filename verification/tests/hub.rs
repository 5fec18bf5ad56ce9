use m87::hub::{ProducerAction, ProducerHub};

#[test]
fn test_first_subscriber_starts_producer() {
    let mut hub = ProducerHub::new();
    assert_eq!(hub.subscribe("LOGS"), ProducerAction::StartProducer);
    assert_eq!(hub.subscribe("LOGS"), ProducerAction::Nothing);
}

#[test]
fn test_last_unsubscriber_stops_producer() {
    let mut hub = ProducerHub::new();
    hub.subscribe("METRICS");
    hub.subscribe("METRICS");
    assert_eq!(hub.unsubscribe("METRICS"), ProducerAction::Nothing);
    assert_eq!(hub.unsubscribe("METRICS"), ProducerAction::StopProducer);
}

#[test]
fn test_topics_are_independent() {
    let mut hub = ProducerHub::new();
    assert_eq!(hub.subscribe("LOGS"), ProducerAction::StartProducer);
    assert_eq!(hub.subscribe("METRICS"), ProducerAction::StartProducer);
    assert_eq!(hub.unsubscribe("LOGS"), ProducerAction::StopProducer);
    assert_eq!(hub.subscribe("METRICS"), ProducerAction::Nothing);
}
