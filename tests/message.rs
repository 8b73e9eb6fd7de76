use mqtt_session::{ConnectionState, Message, MessageView, QoS};

#[test]
fn test_message_creation() {
    let msg = Message {
        topic: "test/topic".into(),
        payload: vec![1, 2, 3],
        qos: QoS::AtLeastOnce,
        retained: false,
    };
    assert_eq!(msg.topic, "test/topic");
}

#[test]
fn test_message_view_getters() {
    let topic = "test/topic";
    let payload = vec![1, 2, 3];
    let qos = QoS::AtLeastOnce;
    let retained = true;

    let view = MessageView {
        topic,
        payload: &payload,
        qos,
        retained,
    };

    assert_eq!(view.topic(), "test/topic");
    assert_eq!(view.payload(), &[1, 2, 3]);
    assert_eq!(view.qos(), QoS::AtLeastOnce);
    assert!(view.is_retained());
}

#[test]
fn test_message_view_to_owned() {
    let topic = "test/topic";
    let payload = vec![1, 2, 3];
    let qos = QoS::AtLeastOnce;
    let retained = true;

    let view = MessageView {
        topic,
        payload: &payload,
        qos,
        retained,
    };

    let owned = view.to_owned();

    assert_eq!(owned.topic(), view.topic());
    assert_eq!(owned.payload(), view.payload());
    assert_eq!(owned.qos(), view.qos());
    assert_eq!(owned.is_retained(), view.is_retained());

    assert_eq!(owned.topic, String::from("test/topic"));
    assert_eq!(owned.payload, vec![1, 2, 3]);
}

#[test]
fn message_builders_set_fields() {
    let m = Message::new("a/b", b"xy").with_qos(QoS::ExactlyOnce).with_retain(true);
    assert_eq!(m.topic(), "a/b");
    assert_eq!(m.payload(), b"xy");
    assert_eq!(m.qos(), QoS::ExactlyOnce);
    assert!(m.is_retained());
    let plain = Message::new("t", &[]);
    assert_eq!(plain.qos(), QoS::AtMostOnce);
    assert!(!plain.is_retained());
    let c = m.copied();
    assert_eq!(c.topic, "a/b");
    assert_eq!(c.payload, vec![b'x', b'y']);
}

#[test]
fn qos_codes_and_cap() {
    assert_eq!(QoS::AtMostOnce.code(), 0);
    assert_eq!(QoS::AtLeastOnce.code(), 1);
    assert_eq!(QoS::ExactlyOnce.code(), 2);
    assert_eq!(u32::from(QoS::ExactlyOnce), 2);
    assert_eq!(u32::from(QoS::AtMostOnce), 0);
    assert_eq!(QoS::from_code(2), Some(QoS::ExactlyOnce));
    assert_eq!(QoS::from_code(3), None);
    assert_eq!(QoS::ExactlyOnce.capped_by(QoS::AtLeastOnce), QoS::AtLeastOnce);
    assert_eq!(QoS::AtMostOnce.capped_by(QoS::ExactlyOnce), QoS::AtMostOnce);
}

#[test]
fn connection_state_codes() {
    assert_eq!(ConnectionState::from(0u32), ConnectionState::Disconnected);
    assert_eq!(ConnectionState::from(1u32), ConnectionState::Connecting);
    assert_eq!(ConnectionState::from(2u32), ConnectionState::Connected);
    assert_eq!(ConnectionState::from(3u32), ConnectionState::Reconnecting);
    assert_eq!(ConnectionState::from(42u32), ConnectionState::Disconnected);
}
