use mesquitte_client::error::{MqttError, TokenError};
use mesquitte_client::protocol::{ConnectReturnCode, QualityOfService, SubscribeReturnCode};
use mesquitte_client::token::{
    ConnectToken, DisconnectToken, PublishToken, SubscribeToken, Subscription, Token,
    TokenState, UnsubscribeToken,
};

#[test]
fn token_is_pending_until_its_flow_ends() {
    let mut s = TokenState::new();
    assert!(s.poll().is_none());
    s.flow_complete();
    assert!(matches!(s.poll(), Some(None)));
}

#[test]
fn failed_token_reports_its_error() {
    let mut s = TokenState::new();
    s.set_error(MqttError::ProtocolError);
    match s.poll() {
        Some(Some(TokenError::PacketError(m))) => assert_eq!(m, "Protocol Error"),
        other => panic!("unexpected {:?}", other),
    }
    s.flow_complete();
    assert!(matches!(s.poll(), Some(Some(TokenError::PacketError(_)))));
}

#[test]
fn token_error_mapping() {
    assert!(matches!(TokenError::from(&MqttError::NetworkUnreachable), TokenError::NotConnected));
    assert!(matches!(TokenError::from(&MqttError::MqttConnectFailed(5)), TokenError::MqttConnectFailed(5)));
    assert!(matches!(TokenError::from(&MqttError::IOError("boom".to_string())), TokenError::IOError(m) if m == "boom"));
    assert!(matches!(TokenError::from(&MqttError::VariablePacketError("bad".to_string())), TokenError::PacketError(m) if m == "bad"));
    assert!(matches!(TokenError::from(&MqttError::ConnectTimeout), TokenError::ConnectTimeout));
    assert!(matches!(TokenError::from(&MqttError::ConnectionLost), TokenError::ConnectionLost));
    assert!(matches!(TokenError::from(&MqttError::Reconnecting), TokenError::Reconnecting));
    assert!(matches!(TokenError::from(&MqttError::InvalidTopic), TokenError::InvalidTopic));
    assert!(matches!(TokenError::from(&MqttError::PacketIdError), TokenError::PacketIdError));
    assert!(matches!(TokenError::from(&MqttError::InternalChannelError), TokenError::InternalChannelError));
}

#[test]
fn connect_token_defaults_and_setters() {
    let mut t = ConnectToken::new();
    assert_eq!(t.return_code(), ConnectReturnCode::ConnectionAccepted);
    assert!(!t.session_present());
    t.set_return_code(ConnectReturnCode::NotAuthorized);
    t.set_session_present();
    assert_eq!(t.return_code(), ConnectReturnCode::NotAuthorized);
    assert!(t.session_present());
    assert!(t.poll().is_none());
}

#[test]
fn publish_token_keeps_its_level() {
    let mut t = PublishToken::new();
    assert_eq!(t.qos(), QualityOfService::Level0);
    t.set_qos(QualityOfService::Level2);
    t.set_error(MqttError::ConnectionLost);
    assert_eq!(t.qos(), QualityOfService::Level2);
    assert!(matches!(t.poll(), Some(Some(TokenError::ConnectionLost))));
}

#[test]
fn subscribe_token_records_results_by_filter() {
    let mut t: SubscribeToken<u8> = SubscribeToken::new();
    t.add_subscriptions(vec![
        Subscription::new("a".to_string(), QualityOfService::Level0, 1),
        Subscription::new("b".to_string(), QualityOfService::Level1, 2),
    ]);
    assert_eq!(t.get_subscription(1).map(|s| s.handler), Some(2));
    assert!(t.get_subscription(2).is_none());
    assert_eq!(t.set_result(0, SubscribeReturnCode::MaximumQoSLevel0), "a");
    assert_eq!(t.set_result(1, SubscribeReturnCode::Failure), "b");
    assert_eq!(t.set_result(5, SubscribeReturnCode::MaximumQoSLevel2), "");
    assert_eq!(t.set_result(0, SubscribeReturnCode::MaximumQoSLevel1), "a");
    let r = t.result();
    assert_eq!(r.len(), 2);
    assert!(r.contains(&("a".to_string(), SubscribeReturnCode::MaximumQoSLevel1)));
    assert!(r.contains(&("b".to_string(), SubscribeReturnCode::Failure)));
}

#[test]
fn unsubscribe_token_lists_its_topics() {
    let mut t = UnsubscribeToken::new();
    t.add_topic("x/y".to_string());
    t.add_topic("z".to_string());
    assert_eq!(t.topics(), vec!["x/y".to_string(), "z".to_string()]);
}

#[test]
fn token_dispatch_completes_every_kind() {
    let mut tokens: Vec<Token<u8>> = vec![
        Token::Connect(ConnectToken::new()),
        Token::Disconnect(DisconnectToken::new()),
        Token::Publish(PublishToken::new()),
        Token::Subscribe(SubscribeToken::new()),
        Token::Unsubscribe(UnsubscribeToken::new()),
    ];
    for t in tokens.iter_mut() {
        t.set_error(MqttError::ConnectionLost);
    }
    for t in tokens.iter() {
        let polled = match t {
            Token::Connect(x) => x.poll(),
            Token::Disconnect(x) => x.poll(),
            Token::Publish(x) => x.poll(),
            Token::Subscribe(x) => x.poll(),
            Token::Unsubscribe(x) => x.poll(),
        };
        assert!(matches!(polled, Some(Some(TokenError::ConnectionLost))));
    }
}
