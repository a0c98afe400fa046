use mesquitte_client::client::{
    attach_subscriptions, attach_topics,
    begin_connect, begin_disconnect, begin_publish, begin_subscribe, begin_subscribe_multiple,
    begin_unsubscribe, build_connect_packet, fail_connect, finish_connect, settle_subscribe,
    settle_subscribe_multiple, settle_unsubscribe, ConnectReply, ConnectStatus, ReconnectAction,
    Reconnector, TimerAction,
};
use mesquitte_client::error::TokenError;
use mesquitte_client::options::ClientOptions;
use mesquitte_client::pkid::PacketIds;
use mesquitte_client::protocol::{ConnectReturnCode, QoSWithPacketIdentifier, QualityOfService};
use mesquitte_client::token::{Entry, Subscription, Token, ConnectToken, DisconnectToken, PublishToken, SubscribeToken, UnsubscribeToken};

#[test]
fn connect_proceeds_only_when_disconnected() {
    let mut status = ConnectStatus::Disconnected;
    let mut token = ConnectToken::new();
    assert!(begin_connect(&mut status, &mut token));
    assert_eq!(status, ConnectStatus::Connecting);

    let mut token = ConnectToken::new();
    assert!(!begin_connect(&mut status, &mut token));
    assert!(matches!(token.poll(), Some(Some(TokenError::Reconnecting))));

    let mut status = ConnectStatus::Connected;
    let mut token = ConnectToken::new();
    token.set_return_code(ConnectReturnCode::NotAuthorized);
    assert!(!begin_connect(&mut status, &mut token));
    assert_eq!(token.return_code(), ConnectReturnCode::ConnectionAccepted);
    assert!(token.poll().is_none());
}

#[test]
fn connack_settles_the_attempt() {
    let mut status = ConnectStatus::Connecting;
    let mut token = ConnectToken::new();
    assert!(finish_connect(
        &mut status,
        &mut token,
        ConnectReply::Connack { code: ConnectReturnCode::ConnectionAccepted, session_present: true }
    ));
    assert_eq!(status, ConnectStatus::Connected);
    assert!(token.session_present());
    assert!(matches!(token.poll(), Some(None)));

    let mut status = ConnectStatus::Connecting;
    let mut token = ConnectToken::new();
    assert!(!finish_connect(
        &mut status,
        &mut token,
        ConnectReply::Connack { code: ConnectReturnCode::BadUserNameOrPassword, session_present: false }
    ));
    assert_eq!(status, ConnectStatus::Disconnected);
    assert_eq!(token.return_code(), ConnectReturnCode::BadUserNameOrPassword);
    assert!(matches!(token.poll(), Some(Some(TokenError::MqttConnectFailed(4)))));

    let mut token = ConnectToken::new();
    assert!(!finish_connect(&mut status, &mut token, ConnectReply::OtherPacket));
    assert!(matches!(token.poll(), Some(Some(TokenError::PacketError(m))) if m == "Protocol Error"));

    let mut token = ConnectToken::new();
    assert!(!finish_connect(&mut status, &mut token, ConnectReply::DecodeError("oops".to_string())));
    assert!(matches!(token.poll(), Some(Some(TokenError::PacketError(m))) if m == "oops"));

    let mut token = ConnectToken::new();
    assert!(!finish_connect(&mut status, &mut token, ConnectReply::Closed));
    assert!(matches!(token.poll(), Some(Some(TokenError::MqttConnectFailed(0)))));
}

#[test]
fn failed_network_reports_last_error() {
    let mut status = ConnectStatus::Connecting;
    let mut token = ConnectToken::new();
    fail_connect(&mut status, &mut token, None);
    assert_eq!(status, ConnectStatus::Disconnected);
    assert!(matches!(token.poll(), Some(Some(TokenError::NotConnected))));
}

#[test]
fn disconnect_needs_a_connection() {
    let mut token = DisconnectToken::new();
    assert!(!begin_disconnect(ConnectStatus::Connecting, &mut token));
    assert!(matches!(token.poll(), Some(Some(TokenError::ConnectionLost))));
    let mut token = DisconnectToken::new();
    assert!(begin_disconnect(ConnectStatus::Connected, &mut token));
    assert!(token.poll().is_none());
}

#[test]
fn publish_takes_an_id_above_level_zero() {
    let mut ids: PacketIds<u8> = PacketIds::new();
    let mut token = PublishToken::new();
    let r = begin_publish(ConnectStatus::Connected, &mut ids, 1, &mut token, QualityOfService::Level1, "a/b");
    assert_eq!(r, Some(QoSWithPacketIdentifier::Level1(2)));
    assert_eq!(token.qos(), QualityOfService::Level1);
    assert!(token.poll().is_none());

    let mut token = PublishToken::new();
    let r = begin_publish(ConnectStatus::Connected, &mut ids, 2, &mut token, QualityOfService::Level0, "a/b");
    assert_eq!(r, Some(QoSWithPacketIdentifier::Level0));
    assert_eq!(ids.get_token(3), None);
}

#[test]
fn publish_rejects_wildcards_and_keeps_the_id() {
    let mut ids: PacketIds<u8> = PacketIds::new();
    let mut token = PublishToken::new();
    let r = begin_publish(ConnectStatus::Connected, &mut ids, 9, &mut token, QualityOfService::Level2, "a/+");
    assert_eq!(r, None);
    assert!(matches!(token.poll(), Some(Some(TokenError::InvalidTopic))));
    assert_eq!(ids.get_token(2), Some(&9));

    let mut token = PublishToken::new();
    let r = begin_publish(ConnectStatus::Connected, &mut ids, 9, &mut token, QualityOfService::Level0, "");
    assert_eq!(r, None);
    assert!(matches!(token.poll(), Some(Some(TokenError::InvalidTopic))));

    let mut token = PublishToken::new();
    let r = begin_publish(ConnectStatus::Disconnected, &mut ids, 9, &mut token, QualityOfService::Level1, "a");
    assert_eq!(r, None);
    assert!(matches!(token.poll(), Some(Some(TokenError::ConnectionLost))));
    assert_eq!(ids.get_token(3), None);
}

#[test]
fn subscribe_checks_the_filter() {
    let mut ids: PacketIds<u8> = PacketIds::new();
    let mut token: SubscribeToken<u8> = SubscribeToken::new();
    assert_eq!(begin_subscribe(ConnectStatus::Connected, &mut ids, 1, &mut token, "a/+/#"), Some(2));
    let mut token: SubscribeToken<u8> = SubscribeToken::new();
    assert_eq!(begin_subscribe(ConnectStatus::Connected, &mut ids, 1, &mut token, "a/#/b"), None);
    assert!(matches!(token.poll(), Some(Some(TokenError::InvalidTopic))));
    assert_eq!(ids.get_token(3), Some(&1));
}

#[test]
fn subscribe_multiple_builds_one_subscription_per_filter() {
    let mut ids: PacketIds<u8> = PacketIds::new();
    let mut token: SubscribeToken<u8> = SubscribeToken::new();
    let topics = vec![("a".to_string(), QualityOfService::Level1), ("b/+".to_string(), QualityOfService::Level2)];
    let (id, subs) = begin_subscribe_multiple(ConnectStatus::Connected, &mut ids, 1, &mut token, &topics, 7).unwrap();
    assert_eq!(id, 2);
    assert_eq!(subs.len(), 2);
    assert_eq!(subs[1].topic, "b/+");
    assert_eq!(subs[1].qos, QualityOfService::Level2);
    assert_eq!(subs[0].handler, 7);

    let bad = vec![("a".to_string(), QualityOfService::Level1), ("b#".to_string(), QualityOfService::Level2)];
    let mut token: SubscribeToken<u8> = SubscribeToken::new();
    assert!(begin_subscribe_multiple(ConnectStatus::Connected, &mut ids, 1, &mut token, &bad, 7).is_none());
    assert!(matches!(token.poll(), Some(Some(TokenError::InvalidTopic))));
}

#[test]
fn unsubscribe_keeps_the_filters_before_an_invalid_one() {
    let mut ids: PacketIds<u8> = PacketIds::new();
    let mut token = UnsubscribeToken::new();
    let topics = vec!["a".to_string(), "b".to_string(), "c+".to_string(), "d".to_string()];
    assert_eq!(begin_unsubscribe(ConnectStatus::Connected, &mut ids, 1, &mut token, &topics), None);
    assert_eq!(token.topics(), vec!["a".to_string(), "b".to_string()]);
    assert!(matches!(token.poll(), Some(Some(TokenError::InvalidTopic))));

    let mut token = UnsubscribeToken::new();
    let topics = vec!["a".to_string()];
    assert_eq!(begin_unsubscribe(ConnectStatus::Connected, &mut ids, 1, &mut token, &topics), Some(3));
    assert_eq!(token.topics(), vec!["a".to_string()]);
}

#[test]
fn settled_subscription_follows_the_codec() {
    let mut token: SubscribeToken<u8> = SubscribeToken::new();
    assert_eq!(settle_subscribe(&mut token, 9, true), Some(9));
    assert!(token.poll().is_none());
    assert_eq!(settle_subscribe(&mut token, 9, false), None);
    assert!(matches!(token.poll(), Some(Some(TokenError::InvalidTopic))));
}

#[test]
fn settled_multiple_subscription_follows_the_codec() {
    let topics = vec![("x".to_string(), QualityOfService::Level0), ("y".to_string(), QualityOfService::Level1)];
    let mut token: SubscribeToken<u8> = SubscribeToken::new();
    let (id, subs) = settle_subscribe_multiple(&mut token, 4, &topics, &vec![true, true], 3).unwrap();
    assert_eq!(id, 4);
    assert_eq!(subs.len(), 2);
    assert_eq!(subs[0].topic, "x");
    assert_eq!(subs[1].qos, QualityOfService::Level1);
    assert!(token.poll().is_none());

    let mut token: SubscribeToken<u8> = SubscribeToken::new();
    assert!(settle_subscribe_multiple(&mut token, 4, &topics, &vec![true, false], 3).is_none());
    assert!(matches!(token.poll(), Some(Some(TokenError::InvalidTopic))));
}

#[test]
fn settled_unsubscription_keeps_the_judged_prefix() {
    let topics = vec!["p".to_string(), "q".to_string(), "r".to_string()];
    let mut token = UnsubscribeToken::new();
    assert_eq!(settle_unsubscribe(&mut token, 5, &topics, &vec![true, false, true]), None);
    assert_eq!(token.topics(), vec!["p".to_string()]);
    assert!(matches!(token.poll(), Some(Some(TokenError::InvalidTopic))));

    let mut token = UnsubscribeToken::new();
    assert_eq!(settle_unsubscribe(&mut token, 5, &topics, &vec![true, true, true]), Some(5));
    assert_eq!(token.topics(), topics);
    assert!(token.poll().is_none());
}

#[test]
fn connect_packet_follows_the_options() {
    let mut options = ClientOptions::new();
    options
        .set_server("localhost:1883".to_string())
        .set_client_id("test_qx".to_string())
        .set_username("qinxin".to_string())
        .set_password("111".to_string());
    let p = build_connect_packet(&options);
    assert_eq!(p.client_id, "test_qx");
    assert_eq!(p.keep_alive, 30);
    assert!(p.will.is_none());
    assert_eq!(p.username.as_deref(), Some("qinxin"));
    assert_eq!(p.password.as_deref(), Some("111"));

    let mut options = ClientOptions::new();
    options
        .set_will("last/will".to_string(), vec![1, 2], QualityOfService::Level2, true)
        .set_keep_alive(65_536_500);
    let p = build_connect_packet(&options);
    let w = p.will.unwrap();
    assert_eq!(w.topic, "last/will");
    assert_eq!(w.payload, vec![1, 2]);
    assert_eq!(w.qos, 2);
    assert!(w.retain);
    assert_eq!(p.keep_alive, 0);
    assert!(p.username.is_none());
    options.unset_will();
    assert!(build_connect_packet(&options).will.is_none());
}

#[test]
fn reconnector_counts_attempts() {
    assert_eq!(Reconnector::on_timer(ConnectStatus::Disconnected, false, true), TimerAction::Reconnect);
    assert_eq!(Reconnector::on_timer(ConnectStatus::Disconnected, false, false), TimerAction::Exit);
    assert_eq!(Reconnector::on_timer(ConnectStatus::Disconnected, true, false), TimerAction::Continue);
    assert_eq!(Reconnector::on_timer(ConnectStatus::Connected, false, true), TimerAction::Continue);

    let mut r = Reconnector::new(Some(2));
    assert!(!r.exhausted());
    r.start_attempt();
    assert_eq!(r.settle_attempt(true, false), ReconnectAction::Retry);
    r.start_attempt();
    assert_eq!(r.attempts(), 2);
    assert!(r.exhausted());
    assert_eq!(r.settle_attempt(false, false), ReconnectAction::Resubscribe);
    assert_eq!(r.attempts(), 0);
    r.start_attempt();
    assert_eq!(r.settle_attempt(false, true), ReconnectAction::Done);
    assert!(!Reconnector::new(None).exhausted());
}

#[test]
fn sent_requests_get_their_subscriptions_and_filters() {
    let mut ids: PacketIds<Entry<u8, u8>> = PacketIds::new();
    let sub = ids.get_id(Entry { waiter: 1, token: Token::Subscribe(SubscribeToken::new()) });
    let unsub = ids.get_id(Entry { waiter: 2, token: Token::Unsubscribe(UnsubscribeToken::new()) });
    attach_subscriptions(&mut ids, sub, vec![Subscription::new("q".to_string(), QualityOfService::Level1, 4)]);
    attach_topics(&mut ids, unsub, vec!["r".to_string(), "s".to_string()]);
    match &ids.get_token(sub).unwrap().token {
        Token::Subscribe(t) => assert_eq!(t.get_subscription(0).map(|s| s.handler), Some(4)),
        _ => unreachable!(),
    }
    match &ids.get_token(unsub).unwrap().token {
        Token::Unsubscribe(t) => assert_eq!(t.topics(), vec!["r".to_string(), "s".to_string()]),
        _ => unreachable!(),
    }
    // a request of another kind is left as it was
    attach_topics(&mut ids, sub, vec!["x".to_string()]);
    attach_subscriptions(&mut ids, 77, vec![]);
    assert_eq!(ids.last_issued_id(), 3);
}

#[test]
fn filters_follow_the_codec_rule() {
    let cases = [
        ("#", true),
        ("+/+", true),
        ("a/+/c/#", true),
        ("$share/g/a/#", true),
        ("$share/g", true),
        ("$share/g/a#", false),
        ("a/#/b", false),
        ("a/b+", false),
        ("", false),
    ];
    for (filter, valid) in cases {
        let mut ids: PacketIds<u8> = PacketIds::new();
        let mut token: SubscribeToken<u8> = SubscribeToken::new();
        let r = begin_subscribe(ConnectStatus::Connected, &mut ids, 1, &mut token, filter);
        assert_eq!(r.is_some(), valid, "filter {:?}", filter);
    }
}
