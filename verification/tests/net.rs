use mesquitte_client::error::{MqttError, TokenError};
use mesquitte_client::net::{
    begin_resume, handle_disconnect, handle_pingresp, handle_puback, handle_pubcomp,
    handle_publish, handle_pubrec, handle_pubrel, handle_suback, handle_unsuback,
    keep_alive_step, on_incoming, outgoing_sent, Incoming, KeepAliveStep, Response, Step,
};
use mesquitte_client::protocol::{ConnectReturnCode, QoSWithPacketIdentifier, QualityOfService, SubscribeReturnCode};
use mesquitte_client::state::State;
use mesquitte_client::token::{DisconnectToken, Entry, PublishToken, SubscribeToken, Subscription, Token, UnsubscribeToken};

fn state_with(subs: &[(&str, u8)]) -> State<u32, u8> {
    let mut st: State<u32, u8> = State::new();
    for (t, h) in subs {
        st.topic_manager.add((*t, *h));
    }
    st
}

#[test]
fn publish_by_level() {
    let st = state_with(&[("a/b", 1), ("a/+", 2)]);
    let o = handle_publish(&st, "a/b", QoSWithPacketIdentifier::Level0);
    assert_eq!(o.handlers, vec![1, 2]);
    assert_eq!(o.response, None);
    assert!(!o.store_pending);
    let o = handle_publish(&st, "a/c", QoSWithPacketIdentifier::Level1(7));
    assert_eq!(o.handlers, vec![2]);
    assert_eq!(o.response, Some(Response::Puback(7)));
    let o = handle_publish(&st, "a/b", QoSWithPacketIdentifier::Level2(8));
    assert!(o.handlers.is_empty());
    assert_eq!(o.response, Some(Response::Pubrec(8)));
    assert!(o.store_pending);
}

#[test]
fn acks_release_ids() {
    let mut st: State<Entry<u32, u8>, u8> = State::new();
    let id = st.packet_ids.get_id(Entry { waiter: 42, token: Token::Publish(PublishToken::new()) });
    let done = handle_puback(&mut st, id).unwrap();
    assert_eq!(done.waiter, 42);
    match &done.token {
        Token::Publish(p) => assert!(matches!(p.poll(), Some(None))),
        _ => unreachable!(),
    }
    assert!(handle_puback(&mut st, id).is_none());
    let id = st.packet_ids.get_id(Entry { waiter: 43, token: Token::Disconnect(DisconnectToken::new()) });
    let done = handle_pubcomp(&mut st, id).unwrap();
    match &done.token {
        Token::Disconnect(d) => assert!(matches!(d.poll(), Some(None))),
        _ => unreachable!(),
    }
    assert!(st.packet_ids.get_token(id).is_none());
    assert_eq!(handle_pubrec(5), Response::Pubrel(5));
    handle_disconnect();
    handle_pingresp();
}

#[test]
fn pubrel_delivers_the_held_message() {
    let st = state_with(&[("x", 3)]);
    assert_eq!(handle_pubrel(&st, 4, Some("x")), (vec![3], Response::Pubcomp(4)));
    assert_eq!(handle_pubrel(&st, 4, None), (vec![], Response::Pubcomp(4)));
}

#[test]
fn suback_installs_granted_subscriptions() {
    let mut st: State<Entry<u32, u8>, u8> = State::new();
    let mut token: SubscribeToken<u8> = SubscribeToken::new();
    token.add_subscriptions(vec![
        Subscription::new("a".to_string(), QualityOfService::Level1, 1),
        Subscription::new("b".to_string(), QualityOfService::Level2, 2),
    ]);
    let codes = vec![SubscribeReturnCode::MaximumQoSLevel1, SubscribeReturnCode::Failure, SubscribeReturnCode::MaximumQoSLevel0];
    let id = st.packet_ids.get_id(Entry { waiter: 9, token: Token::Subscribe(token) });
    assert_eq!(id, 2);
    let done = handle_suback(&mut st, id, &codes).unwrap();
    assert_eq!(done.waiter, 9);
    assert!(st.packet_ids.get_token(id).is_none());
    assert_eq!(st.topic_manager.match_topic("a"), vec![1]);
    assert!(st.topic_manager.match_topic("b").is_empty());
    assert_eq!(st.subscriptions.len(), 1);
    assert!(st.subscriptions.get("a").is_some());
    assert!(st.subscriptions.get("b").is_none());
    match &done.token {
        Token::Subscribe(t) => {
            assert_eq!(t.result().len(), 2);
            assert!(matches!(t.poll(), Some(None)));
        }
        _ => unreachable!(),
    }
}

#[test]
fn suback_without_a_subscription_changes_nothing() {
    let mut st: State<Entry<u32, u8>, u8> = State::new();
    let codes = vec![SubscribeReturnCode::MaximumQoSLevel0];
    assert!(handle_suback(&mut st, 2, &codes).is_none());
    let id = st.packet_ids.get_id(Entry { waiter: 5, token: Token::Publish(PublishToken::new()) });
    assert!(handle_suback(&mut st, id, &codes).is_none());
    let held = st.packet_ids.get_token(id).unwrap();
    assert_eq!(held.waiter, 5);
    match &held.token {
        Token::Publish(p) => assert!(p.poll().is_none()),
        _ => unreachable!(),
    }
    assert!(handle_unsuback(&mut st, id).is_none());
    assert!(st.packet_ids.get_token(id).is_some());
    assert_eq!(st.subscriptions.len(), 0);
}

#[test]
fn unsuback_removes_the_filters() {
    let mut st: State<Entry<u32, u8>, u8> = State::new();
    st.topic_manager.add(("a", 1));
    st.topic_manager.add(("b", 2));
    let mut token = UnsubscribeToken::new();
    token.add_topic("a".to_string());
    let id = st.packet_ids.get_id(Entry { waiter: 4, token: Token::Unsubscribe(token) });
    let done = handle_unsuback(&mut st, id).unwrap();
    assert!(st.packet_ids.get_token(id).is_none());
    assert!(st.topic_manager.match_topic("a").is_empty());
    assert_eq!(st.topic_manager.match_topic("b"), vec![2]);
    match &done.token {
        Token::Unsubscribe(t) => assert!(matches!(t.poll(), Some(None))),
        _ => unreachable!(),
    }
}

#[test]
fn sent_packets_complete_fire_and_forget_flows() {
    let mut t: Token<u8> = Token::Publish(PublishToken::new());
    outgoing_sent(&mut t);
    match &t {
        Token::Publish(p) => assert!(matches!(p.poll(), Some(None))),
        _ => unreachable!(),
    }
    let mut p = PublishToken::new();
    p.set_qos(QualityOfService::Level1);
    let mut t: Token<u8> = Token::Publish(p);
    outgoing_sent(&mut t);
    match &t {
        Token::Publish(p) => assert!(p.poll().is_none()),
        _ => unreachable!(),
    }
    let mut t: Token<u8> = Token::Disconnect(DisconnectToken::new());
    outgoing_sent(&mut t);
    match &t {
        Token::Disconnect(d) => assert!(matches!(d.poll(), Some(None))),
        _ => unreachable!(),
    }
    let mut t: Token<u8> = Token::Disconnect(DisconnectToken::new());
    t.set_error(MqttError::IOError("broken pipe".to_string()));
    match &t {
        Token::Disconnect(d) => assert!(matches!(d.poll(), Some(Some(TokenError::IOError(m))) if m == "broken pipe")),
        _ => unreachable!(),
    }
}

#[test]
fn keep_alive_pings_when_due() {
    assert_eq!(keep_alive_step(30_000, 30_000), KeepAliveStep::SendPing);
    assert_eq!(keep_alive_step(12_000, 30_000), KeepAliveStep::Wait(18_000));
}

#[test]
fn resume_fails_in_flight_and_lists_subscriptions() {
    let mut st: State<Entry<u32, u8>, u8> = State::new();
    let mut late = PublishToken::new();
    late.set_qos(QualityOfService::Level2);
    st.packet_ids.claim_id(Entry { waiter: 7, token: Token::Publish(late) }, 3);
    st.packet_ids.claim_id(Entry { waiter: 8, token: Token::Publish(PublishToken::new()) }, 1);
    st.topic_manager.add(("a/b", 1));
    st.subscriptions.insert("a/b".to_string(), Subscription::new("a/b".to_string(), QualityOfService::Level1, 1));
    let (tokens, subs) = begin_resume(&mut st);
    assert_eq!(tokens.len(), 2);
    let waiters: Vec<u32> = tokens.iter().map(|e| e.waiter).collect();
    assert_eq!(waiters, vec![8, 7]);
    let levels: Vec<QualityOfService> = tokens
        .iter()
        .map(|e| match &e.token {
            Token::Publish(p) => {
                assert!(matches!(p.poll(), Some(Some(TokenError::ConnectionLost))));
                p.qos()
            }
            _ => unreachable!(),
        })
        .collect();
    assert_eq!(levels, vec![QualityOfService::Level0, QualityOfService::Level2]);
    assert_eq!(subs, vec![("a/b".to_string(), QualityOfService::Level1, 1)]);
    assert!(st.topic_manager.match_topic("a/b").is_empty());
    assert!(st.topic_manager.remove("a/b"));
}

#[test]
fn return_code_bytes_round_trip() {
    assert_eq!(ConnectReturnCode::from_u8(4), ConnectReturnCode::BadUserNameOrPassword);
    assert_eq!(ConnectReturnCode::from_u8(9), ConnectReturnCode::Reserved(9));
    for b in [0u8, 3, 5, 6, 200] {
        assert_eq!(ConnectReturnCode::from_u8(b).to_u8(), b);
    }
}

#[test]
fn incoming_packets_are_dispatched() {
    let mut st: State<Entry<u32, u8>, u8> = State::new();
    st.topic_manager.add(("n/+", 6));
    match on_incoming(&mut st, Incoming::Publish { topic: "n/x", qos: QoSWithPacketIdentifier::Level1(4) }) {
        Step::Deliver(o) => {
            assert_eq!(o.handlers, vec![6]);
            assert_eq!(o.response, Some(Response::Puback(4)));
            assert!(!o.store_pending);
        }
        _ => unreachable!(),
    }
    assert!(matches!(on_incoming(&mut st, Incoming::Pubrec(3)), Step::Answer(Response::Pubrel(3))));
    match on_incoming(&mut st, Incoming::Pubrel { pkid: 3, pending_topic: Some("n/y") }) {
        Step::Release { handlers, response } => {
            assert_eq!(handlers, vec![6]);
            assert_eq!(response, Response::Pubcomp(3));
        }
        _ => unreachable!(),
    }
    match on_incoming(&mut st, Incoming::Pubrel { pkid: 3, pending_topic: None }) {
        Step::Release { handlers, .. } => assert!(handlers.is_empty()),
        _ => unreachable!(),
    }
    let id = st.packet_ids.get_id(Entry { waiter: 1, token: Token::Publish(PublishToken::new()) });
    match on_incoming(&mut st, Incoming::Puback(id)) {
        Step::Completed(Some(Entry { waiter: 1, token: Token::Publish(p) })) => assert!(matches!(p.poll(), Some(None))),
        _ => unreachable!(),
    }
    assert!(matches!(on_incoming(&mut st, Incoming::Pubcomp(id)), Step::Completed(None)));
    let codes = vec![SubscribeReturnCode::Failure];
    assert!(matches!(on_incoming(&mut st, Incoming::Suback { pkid: 8, codes: &codes }), Step::Completed(None)));
    assert!(matches!(on_incoming(&mut st, Incoming::Unsuback(9)), Step::Completed(None)));
    assert!(matches!(on_incoming(&mut st, Incoming::Pingresp), Step::Continue));
    assert!(matches!(on_incoming(&mut st, Incoming::Disconnect), Step::Stop));
    assert!(matches!(on_incoming(&mut st, Incoming::Unsupported), Step::Stop));
}
