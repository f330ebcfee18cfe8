use mqtt::packet::{
    ConnectPacket, DisconnectPacket, PingreqPacket, PublishPacket, QoSWithPacketIdentifier,
    SubscribePacket, UnsubscribePacket,
};
use mqtt::{Encodable, QualityOfService, TopicFilter, TopicName};

#[test]
fn generate_connect_packet() {
    let mut connect = ConnectPacket::new("Hello MQTT Broker");
    connect.set_will(Some((
        TopicName::new("topic").unwrap(),
        vec![
            1, 2, 3, 4, 5, 6, 7, 8, 9, 10, 11, 12, 13, 14, 15, 16, 72, 255, 50, 0, 0, 0,
        ],
    )));
    let mut packet = Vec::new();
    connect.encode(&mut packet).unwrap();
    println!("{packet:?}");
    assert_eq!(rusty_fume::mqtt::generate_connect_packet().to_vec(), packet);
    assert_eq!(packet.len(), 62);
}

#[test]
fn generate_publish_packet() {
    let mut publish = PublishPacket::new(
        TopicName::new("topic").unwrap(),
        QoSWithPacketIdentifier::Level0,
        vec![1, 2, 3, 4, 5, 6, 7, 8, 9, 10, 11, 12, 72, 255, 50, 0, 0, 0],
    );
    publish.set_retain(true);
    let mut packet = Vec::new();
    publish.encode(&mut packet).unwrap();
    println!("{packet:?}");
    assert_eq!(rusty_fume::mqtt::generate_publish_packet().to_vec(), packet);
    assert_eq!(packet.len(), 27);
}

#[test]
fn generate_subscribe_packet() {
    let subscribe = SubscribePacket::new(
        100,
        vec![(TopicFilter::new("topic").unwrap(), QualityOfService::Level0)],
    );
    let mut packet = Vec::new();
    subscribe.encode(&mut packet).unwrap();
    println!("{packet:?}");
    assert_eq!(rusty_fume::mqtt::generate_subscribe_packet().to_vec(), packet);
    assert_eq!(packet.len(), 12);
}

#[test]
fn generate_unsubscribe_packet() {
    let unsubscribe = UnsubscribePacket::new(10, vec![TopicFilter::new("topic").unwrap()]);
    let mut packet = Vec::new();
    unsubscribe.encode(&mut packet).unwrap();
    println!("{packet:?}");
    assert_eq!(rusty_fume::mqtt::generate_unsubscribe_packet().to_vec(), packet);
    assert_eq!(packet.len(), 11);
}

#[test]
fn generate_disconnect_packet() {
    let disconnect = DisconnectPacket::new();
    let mut packet = Vec::new();
    disconnect.encode(&mut packet).unwrap();
    println!("{packet:?}");
    assert_eq!(rusty_fume::mqtt::generate_disconnect_packet().to_vec(), packet);
    assert_eq!(packet, vec![224, 0]);
}

#[test]
fn generate_pingreq_packet() {
    let pingreq = PingreqPacket::new();
    let mut packet = Vec::new();
    pingreq.encode(&mut packet).unwrap();
    println!("{packet:?}");
    assert_eq!(rusty_fume::mqtt::generate_pingreq_packet().to_vec(), packet);
    assert_eq!(packet, vec![192, 0]);
}
