use mesquitte_client::client::ConnectStatus;
use mesquitte_client::pkid::PacketIds;
use mesquitte_client::protocol::{QoSWithPacketIdentifier, QualityOfService};
use mesquitte_client::v5::client::{
    begin_connect, begin_disconnect, begin_publish, begin_subscribe, begin_subscribe_multiple,
    begin_unsubscribe, fail_connect, finish_connect, settle_subscribe, settle_subscribe_multiple,
    settle_unsubscribe, ConnectReply,
};
use mesquitte_client::v5::token::{
    ConnectToken, DisconnectToken, PublishToken, RetainHandling, SubscribeOptions, SubscribeToken,
    Token, TokenError, UnsubscribeToken,
};
use mqtt_codec_kit::v5::control::{ConnackProperties, SubscribeProperties};

fn options(qos: QualityOfService) -> SubscribeOptions {
    SubscribeOptions {
        qos,
        no_local: false,
        retain_as_published: false,
        retain_handling: RetainHandling::SendAtSubscribe,
    }
}

#[test]
fn v5_connect_proceeds_only_when_disconnected() {
    let mut status = ConnectStatus::Disconnected;
    let mut token = ConnectToken::new();
    assert!(begin_connect(&mut status, &mut token));
    assert_eq!(status, ConnectStatus::Connecting);

    let mut token = ConnectToken::new();
    assert!(!begin_connect(&mut status, &mut token));
    assert!(matches!(token.poll(), Some(Some(TokenError::Reconnecting))));

    let mut status = ConnectStatus::Connected;
    let mut token = ConnectToken::new();
    token.set_reason_code(0x87);
    assert!(!begin_connect(&mut status, &mut token));
    assert_eq!(token.reason_code(), 0);
    assert!(token.poll().is_none());
}

#[test]
fn v5_connack_settles_the_attempt() {
    let mut status = ConnectStatus::Connecting;
    let mut token = ConnectToken::new();
    let mut props = ConnackProperties::default();
    props.set_receive_maximum(Some(7));
    assert!(finish_connect(
        &mut status,
        &mut token,
        ConnectReply::Connack { reason_code: 0, session_present: true, properties: props.clone() }
    ));
    assert_eq!(status, ConnectStatus::Connected);
    assert!(token.session_present());
    assert_eq!(token.connack_properties(), &props);
    assert!(matches!(token.poll(), Some(None)));

    let mut status = ConnectStatus::Connecting;
    let mut token = ConnectToken::new();
    assert!(!finish_connect(
        &mut status,
        &mut token,
        ConnectReply::Connack { reason_code: 0x86, session_present: false, properties: ConnackProperties::default() }
    ));
    assert_eq!(status, ConnectStatus::Disconnected);
    assert_eq!(token.reason_code(), 0x86);
    assert!(matches!(token.poll(), Some(Some(TokenError::ConnectFailed(0x86)))));

    let mut token = ConnectToken::new();
    assert!(!finish_connect(&mut status, &mut token, ConnectReply::OtherPacket));
    assert!(matches!(token.poll(), Some(Some(TokenError::PacketError(m))) if m == "Not Connack Packet"));

    let mut token = ConnectToken::new();
    assert!(!finish_connect(&mut status, &mut token, ConnectReply::DecodeError("bad".to_string())));
    assert!(matches!(token.poll(), Some(Some(TokenError::PacketError(m))) if m == "bad"));

    let mut token = ConnectToken::new();
    assert!(!finish_connect(&mut status, &mut token, ConnectReply::Closed));
    assert!(matches!(token.poll(), Some(Some(TokenError::ConnectFailed(0)))));

    let mut status = ConnectStatus::Connecting;
    let mut token = ConnectToken::new();
    fail_connect(&mut status, &mut token, TokenError::ConnectTimeout);
    assert_eq!(status, ConnectStatus::Disconnected);
    assert!(matches!(token.poll(), Some(Some(TokenError::ConnectTimeout))));
}

#[test]
fn v5_disconnect_needs_a_connection() {
    let mut token = DisconnectToken::new();
    assert!(!begin_disconnect(ConnectStatus::Disconnected, &mut token));
    assert!(matches!(token.poll(), Some(Some(TokenError::ConnectionLost))));
    let mut token = DisconnectToken::new();
    assert!(begin_disconnect(ConnectStatus::Connected, &mut token));
    assert!(token.poll().is_none());
}

#[test]
fn v5_publish_takes_an_id_and_checks_the_name() {
    let mut ids: PacketIds<u8> = PacketIds::new();
    let mut token = PublishToken::new();
    let r = begin_publish(ConnectStatus::Connected, &mut ids, 1, &mut token, QualityOfService::Level2, "a/b");
    assert_eq!(r, Some(QoSWithPacketIdentifier::Level2(2)));
    assert_eq!(token.qos(), QualityOfService::Level2);

    let mut token = PublishToken::new();
    let r = begin_publish(ConnectStatus::Connected, &mut ids, 1, &mut token, QualityOfService::Level1, "a/+");
    assert_eq!(r, None);
    assert!(matches!(token.poll(), Some(Some(TokenError::InvalidTopic))));
    assert_eq!(ids.get_token(3), Some(&1));

    let mut token = PublishToken::new();
    let r = begin_publish(ConnectStatus::Connecting, &mut ids, 1, &mut token, QualityOfService::Level0, "a");
    assert_eq!(r, None);
    assert!(matches!(token.poll(), Some(Some(TokenError::ConnectionLost))));
}

#[test]
fn v5_subscribe_checks_filters() {
    let mut ids: PacketIds<u8> = PacketIds::new();
    let mut token: SubscribeToken<u8> = SubscribeToken::new();
    assert_eq!(begin_subscribe(ConnectStatus::Connected, &mut ids, 1, &mut token, "a/#"), Some(2));
    let mut token: SubscribeToken<u8> = SubscribeToken::new();
    assert_eq!(begin_subscribe(ConnectStatus::Connected, &mut ids, 1, &mut token, "a#"), None);
    assert!(matches!(token.poll(), Some(Some(TokenError::InvalidTopic))));

    let mut token: SubscribeToken<u8> = SubscribeToken::new();
    assert_eq!(settle_subscribe(&mut token, 8, true), Some(8));
    assert_eq!(settle_subscribe(&mut token, 8, false), None);
    assert!(matches!(token.poll(), Some(Some(TokenError::InvalidTopic))));
}

#[test]
fn v5_subscribe_multiple_copies_the_properties() {
    let mut ids: PacketIds<u8> = PacketIds::new();
    let mut token: SubscribeToken<u8> = SubscribeToken::new();
    let mut props = SubscribeProperties::default();
    props.set_identifier(Some(5));
    let props = Some(props);
    let topics = vec![("a".to_string(), options(QualityOfService::Level1)), ("b/+".to_string(), options(QualityOfService::Level0))];
    let (id, subs) = begin_subscribe_multiple(ConnectStatus::Connected, &mut ids, 1, &mut token, &topics, &props, 7).unwrap();
    assert_eq!(id, 2);
    assert_eq!(subs.len(), 2);
    assert_eq!(subs[1].topic, "b/+");
    assert_eq!(subs[0].options.qos, QualityOfService::Level1);
    assert_eq!(subs[0].properties, props);
    assert_eq!(subs[1].handler, 7);

    let mut token: SubscribeToken<u8> = SubscribeToken::new();
    assert!(settle_subscribe_multiple(&mut token, 3, &topics, &props, &vec![false, true], 7).is_none());
    assert!(matches!(token.poll(), Some(Some(TokenError::InvalidTopic))));
}

#[test]
fn v5_unsubscribe_keeps_the_valid_prefix() {
    let mut ids: PacketIds<u8> = PacketIds::new();
    let mut token = UnsubscribeToken::new();
    let topics = vec!["a".to_string(), "b+".to_string(), "c".to_string()];
    assert_eq!(begin_unsubscribe(ConnectStatus::Connected, &mut ids, 1, &mut token, &topics), None);
    assert_eq!(token.topics(), vec!["a".to_string()]);
    assert!(matches!(token.poll(), Some(Some(TokenError::InvalidTopic))));

    let mut token = UnsubscribeToken::new();
    assert_eq!(settle_unsubscribe(&mut token, 6, &topics, &vec![true, true, true]), Some(6));
    assert_eq!(token.topics(), topics);
}

#[test]
fn v5_token_results_and_errors() {
    let mut token: SubscribeToken<u8> = SubscribeToken::new();
    token.set_result(0, 1);
    assert!(token.result().is_empty());
    let mut any: Token<u8> = Token::Subscribe(token);
    any.set_error(TokenError::PacketError("x".to_string()));
    match any {
        Token::Subscribe(t) => assert!(matches!(t.poll(), Some(Some(TokenError::PacketError(m))) if m == "x")),
        _ => panic!("kind changed"),
    }
}
