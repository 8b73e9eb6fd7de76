use mqtt_session::{
    Client, ConnectionState, Error, Event, Message, Packet, QoS, OPERATIONS_ABANDONED,
    SUBSCRIPTION_REJECTED,
};

fn connected() -> Client {
    let mut c = Client::new("client-1").unwrap();
    c.set_reconnect(100, 1000).unwrap();
    c.connect("broker.local", 1883).unwrap();
    c.on_connack(true, true, 0);
    c.take_packets();
    c.take_events();
    c
}

fn deliveries(events: &[Event]) -> Vec<(i64, Message)> {
    let mut out = Vec::new();
    for e in events {
        if let Event::Delivery { handle, message } = e {
            out.push((*handle, message.copied()));
        }
    }
    out
}

#[test]
fn new_rejects_nul_in_client_id() {
    assert_eq!(Client::new("ab\0").err(), Some(Error::NulError(2)));
    let c = Client::new("id").unwrap();
    assert_eq!(c.client_id(), "id");
    assert_eq!(c.state(), ConnectionState::Disconnected);
}

#[test]
fn connect_validates_broker_address() {
    let mut c = Client::new("id").unwrap();
    assert_eq!(c.connect("", 1883), Err(Error::ConfigurationError));
    assert_eq!(c.connect("bad host", 1883), Err(Error::ConfigurationError));
    assert_eq!(c.connect("host", 0), Err(Error::ConfigurationError));
    assert_eq!(c.connect("h\0st", 1883), Err(Error::NulError(1)));
    assert_eq!(c.state(), ConnectionState::Disconnected);
    assert!(c.take_events().is_empty());
    assert_eq!(c.connect("host", 1883), Ok(()));
    assert_eq!(c.host(), "host");
    assert_eq!(c.port(), 1883);
    assert_eq!(c.state(), ConnectionState::Connecting);
    assert_eq!(c.connect("host", 1883), Err(Error::ConnectionError));
    let ev = c.take_events();
    assert_eq!(ev.len(), 1);
    assert!(matches!(ev[0], Event::StateChanged(ConnectionState::Connecting)));
}

#[test]
fn sensor_subscription_receives_matching_publish() {
    let mut c = connected();
    let h = c.subscribe("sensors/+/temp", QoS::AtLeastOnce).unwrap();
    let out = c.publish(&Message::new("sensors/room1/temp", &[0x41, 0x42]).with_qos(QoS::AtLeastOnce), 5);
    assert!(out.is_ok());
    // The broker echoes the publication back.
    c.on_publish(7, Message::new("sensors/room1/temp", &[0x41, 0x42]).with_qos(QoS::AtLeastOnce), 6);
    let got = deliveries(&c.take_events());
    assert_eq!(got.len(), 1);
    assert_eq!(got[0].0, h);
    assert_eq!(got[0].1.topic(), "sensors/room1/temp");
    assert_eq!(got[0].1.payload(), &[0x41, 0x42]);
    assert_eq!(got[0].1.qos(), QoS::AtLeastOnce);
    assert!(!got[0].1.is_retained());
    let packets = c.take_packets();
    assert!(matches!(packets.last(), Some(Packet::Puback(7))));
}

#[test]
fn publish_to_wildcard_topic_is_invalid() {
    let mut c = connected();
    let r = c.publish(&Message::new("a/#", b"x").with_qos(QoS::AtLeastOnce), 0);
    assert_eq!(r, Err(Error::InvalidTopic));
    assert_eq!(c.in_flight_count(), 0);
    assert!(c.take_packets().is_empty());
    assert_eq!(c.publish(&Message::new("", b"x"), 0), Err(Error::InvalidTopic));
    assert_eq!(c.publish(&Message::new("a\0", b"x"), 0), Err(Error::NulError(1)));
}

#[test]
fn qos0_publishes_are_never_tracked() {
    let mut c = connected();
    let m = Message::new("a/b", b"same");
    assert_eq!(c.publish(&m, 0), Ok(0));
    assert_eq!(c.publish(&m, 0), Ok(0));
    assert_eq!(c.in_flight_count(), 0);
    assert_eq!(c.take_packets().len(), 2);
    c.on_tick(1_000_000, 10);
    assert!(c.take_packets().is_empty());
}

#[test]
fn qos1_ids_are_distinct_and_freed_by_puback() {
    let mut c = connected();
    let m = Message::new("a/b", b"1").with_qos(QoS::AtLeastOnce);
    let a = c.publish(&m, 0).unwrap();
    let b = c.publish(&m, 0).unwrap();
    assert_ne!(a, b);
    assert!(a > 0 && b > 0);
    assert_eq!(c.in_flight_count(), 2);
    c.on_puback(a as u16);
    assert_eq!(c.in_flight_count(), 1);
    c.on_puback(a as u16);
    assert_eq!(c.in_flight_count(), 1);
}

#[test]
fn qos1_retransmitted_with_duplicate_flag_after_timeout() {
    let mut c = connected();
    let id = c.publish(&Message::new("a/b", b"p").with_qos(QoS::AtLeastOnce), 100).unwrap();
    c.take_packets();
    c.on_tick(150, 100);
    assert!(c.take_packets().is_empty());
    c.on_tick(200, 100);
    let ps = c.take_packets();
    assert_eq!(ps.len(), 1);
    match &ps[0] {
        Packet::Publish { id: pid, message, duplicate } => {
            assert_eq!(*pid as i64, id);
            assert!(*duplicate);
            assert_eq!(message.payload(), b"p");
        }
        _ => panic!("expected a publication"),
    }
    assert_eq!(c.in_flight_count(), 1);
    c.on_puback(id as u16);
    assert_eq!(c.in_flight_count(), 0);
}

#[test]
fn qos2_outbound_handshake() {
    let mut c = connected();
    let id = c.publish(&Message::new("a/b", b"p").with_qos(QoS::ExactlyOnce), 0).unwrap() as u16;
    c.take_packets();
    c.on_puback(id);
    assert_eq!(c.in_flight_count(), 1);
    c.on_pubrec(id);
    let ps = c.take_packets();
    assert!(matches!(ps.as_slice(), [Packet::Pubrel(x)] if *x == id));
    c.on_tick(500, 100);
    let ps = c.take_packets();
    assert!(matches!(ps.as_slice(), [Packet::Pubrel(x)] if *x == id));
    c.on_pubcomp(id);
    assert_eq!(c.in_flight_count(), 0);
}

#[test]
fn qos2_inbound_delivered_once_despite_repeated_publish() {
    let mut c = connected();
    let h = c.subscribe("x/#", QoS::ExactlyOnce).unwrap();
    let msg = Message::new("x/y", b"once").with_qos(QoS::ExactlyOnce);
    c.on_publish(9, msg.copied(), 0);
    c.on_publish(9, msg.copied(), 1);
    assert!(deliveries(&c.take_events()).is_empty());
    assert_eq!(c.in_flight_count(), 1);
    c.on_pubrel(9);
    let got = deliveries(&c.take_events());
    assert_eq!(got.len(), 1);
    assert_eq!(got[0].0, h);
    assert_eq!(got[0].1.payload(), b"once");
    c.on_pubrel(9);
    assert!(deliveries(&c.take_events()).is_empty());
    let ps = c.take_packets();
    assert!(matches!(ps.last(), Some(Packet::Pubcomp(9))));
}

#[test]
fn unsubscribe_stops_routing_even_for_held_message() {
    let mut c = connected();
    let h = c.subscribe("t", QoS::ExactlyOnce).unwrap();
    c.on_publish(3, Message::new("t", b"z").with_qos(QoS::ExactlyOnce), 0);
    assert_eq!(c.unsubscribe(h), Ok(()));
    c.on_pubrel(3);
    assert!(deliveries(&c.take_events()).is_empty());
    assert_eq!(c.unsubscribe(h), Err(Error::SubscriptionError));
    assert_eq!(c.unsubscribe(12345), Err(Error::SubscriptionError));
}

#[test]
fn delivery_once_per_handle_with_capped_qos() {
    let mut c = connected();
    let a = c.subscribe("s/+", QoS::AtMostOnce).unwrap();
    let b = c.subscribe("s/+", QoS::ExactlyOnce).unwrap();
    c.on_publish(4, Message::new("s/1", b"v").with_qos(QoS::AtLeastOnce), 0);
    let got = deliveries(&c.take_events());
    assert_eq!(got.len(), 2);
    assert_eq!((got[0].0, got[0].1.qos()), (a, QoS::AtMostOnce));
    assert_eq!((got[1].0, got[1].1.qos()), (b, QoS::AtLeastOnce));
}

#[test]
fn subscribe_rejects_malformed_filters() {
    let mut c = connected();
    assert_eq!(c.subscribe("a/#/b", QoS::AtMostOnce), Err(Error::InvalidTopic));
    assert_eq!(c.subscribe("", QoS::AtMostOnce), Err(Error::InvalidTopic));
    assert_eq!(c.subscribe("a\0", QoS::AtMostOnce), Err(Error::NulError(1)));
    assert_eq!(c.subscription_count(), 0);
    let h1 = c.subscribe("a", QoS::AtMostOnce).unwrap();
    let h2 = c.subscribe("a", QoS::AtMostOnce).unwrap();
    assert_eq!(h2, h1 + 1);
    let ps = c.take_packets();
    assert!(matches!(&ps[0], Packet::Subscribe { handle, filter, .. } if *handle == h1 && filter == "a"));
}

#[test]
fn broker_rejection_rolls_subscription_back() {
    let mut c = connected();
    let h = c.subscribe("a", QoS::AtMostOnce).unwrap();
    c.on_suback(h, false);
    assert_eq!(c.subscription_count(), 0);
    let ev = c.take_events();
    assert!(matches!(&ev[0], Event::Error { code, .. } if *code == SUBSCRIPTION_REJECTED));
}

#[test]
fn reconnection_keeps_operations_and_disconnect_discards_them() {
    let mut c = connected();
    c.subscribe("a", QoS::AtLeastOnce).unwrap();
    let id = c.publish(&Message::new("a", b"k").with_qos(QoS::AtLeastOnce), 0).unwrap();
    c.take_packets();
    c.take_events();
    c.on_link_lost();
    assert_eq!(c.state(), ConnectionState::Reconnecting);
    assert_eq!(c.in_flight_count(), 1);
    assert_eq!(c.backoff_delay(), 100);
    c.on_backoff_elapsed();
    assert_eq!(c.state(), ConnectionState::Connecting);
    assert_eq!(c.backoff_delay(), 200);
    c.on_connack(true, false, 10);
    assert_eq!(c.state(), ConnectionState::Connected);
    assert_eq!(c.in_flight_count(), 1);
    let ps = c.take_packets();
    assert_eq!(ps.len(), 2);
    assert!(matches!(&ps[0], Packet::Publish { id: x, duplicate: true, .. } if *x as i64 == id));
    assert!(matches!(&ps[1], Packet::Subscribe { .. }));
    let states: Vec<_> = c
        .take_events()
        .into_iter()
        .filter_map(|e| match e {
            Event::StateChanged(s) => Some(s),
            _ => None,
        })
        .collect();
    assert_eq!(
        states,
        vec![ConnectionState::Reconnecting, ConnectionState::Connecting, ConnectionState::Connected]
    );
    c.disconnect();
    assert_eq!(c.state(), ConnectionState::Disconnected);
    assert_eq!(c.in_flight_count(), 0);
    let ev = c.take_events();
    assert_eq!(ev.len(), 2);
    assert!(matches!(ev[0], Event::StateChanged(ConnectionState::Disconnected)));
    assert!(matches!(&ev[1], Event::Error { code, .. } if *code == OPERATIONS_ABANDONED));
    c.disconnect();
    assert!(c.take_events().is_empty());
}

#[test]
fn backoff_doubles_up_to_ceiling() {
    let mut c = Client::new("b").unwrap();
    assert_eq!(c.set_reconnect(0, 1000), Err(Error::ConfigurationError));
    assert_eq!(c.set_reconnect(2000, 1000), Err(Error::ConfigurationError));
    assert_eq!(c.set_reconnect(300, 1000), Ok(()));
    c.connect("h", 1).unwrap();
    let mut seen = Vec::new();
    for _ in 0..4 {
        c.on_connect_failed();
        assert_eq!(c.state(), ConnectionState::Reconnecting);
        seen.push(c.backoff_delay());
        c.on_backoff_elapsed();
    }
    assert_eq!(seen, vec![300, 600, 1000, 1000]);
}

#[test]
fn failure_without_policy_disconnects() {
    let mut c = Client::new("n").unwrap();
    c.connect("h", 1).unwrap();
    c.on_connack(false, false, 0);
    assert_eq!(c.state(), ConnectionState::Disconnected);
    c.connect("h", 1).unwrap();
    c.on_connack(true, true, 0);
    c.on_link_lost();
    assert_eq!(c.state(), ConnectionState::Disconnected);
}

#[test]
fn unsubscribe_drops_queued_deliveries() {
    let mut c = connected();
    let a = c.subscribe("q/#", QoS::AtMostOnce).unwrap();
    let b = c.subscribe("q/#", QoS::AtMostOnce).unwrap();
    c.on_publish(0, Message::new("q/1", b"m"), 0);
    assert!(c.is_subscribed(a));
    assert_eq!(c.unsubscribe(a), Ok(()));
    assert!(!c.is_subscribed(a));
    assert!(c.is_subscribed(b));
    let got = deliveries(&c.take_events());
    assert_eq!(got.len(), 1);
    assert_eq!(got[0].0, b);
    c.on_publish(0, Message::new("q/2", b"n"), 0);
    let got = deliveries(&c.take_events());
    assert_eq!(got.len(), 1);
    assert_eq!(got[0].0, b);
}

#[test]
fn rejection_drops_queued_deliveries_and_handle() {
    let mut c = connected();
    let h = c.subscribe("r", QoS::AtMostOnce).unwrap();
    assert_eq!(h, 1);
    c.on_publish(0, Message::new("r", b"m"), 0);
    c.on_suback(h, false);
    let ev = c.take_events();
    assert_eq!(ev.len(), 1);
    assert!(matches!(&ev[0], Event::Error { code, .. } if *code == SUBSCRIPTION_REJECTED));
    assert_eq!(c.unsubscribe(h), Err(Error::SubscriptionError));
}

#[test]
fn reconnection_retransmits_whatever_the_send_time() {
    let mut c = connected();
    let id = c.publish(&Message::new("a", b"k").with_qos(QoS::AtLeastOnce), 1000).unwrap();
    c.take_packets();
    c.on_link_lost();
    c.on_backoff_elapsed();
    c.on_connack(true, true, 5);
    let ps = c.take_packets();
    assert_eq!(ps.len(), 1);
    assert!(matches!(&ps[0], Packet::Publish { id: x, duplicate: true, .. } if *x as i64 == id));
}
