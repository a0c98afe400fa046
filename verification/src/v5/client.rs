use crate::client::{
    filter_validity, filter_views, leading_true, lemma_leading_true_all, lemma_leading_true_step,
    ConnectStatus,
};
use crate::pkid::PacketIds;
use crate::protocol::{
    topic_filter_is_valid, topic_name_is_valid, valid_topic_filter, valid_topic_name,
    QoSWithPacketIdentifier, QualityOfService,
};
use crate::v5::token::{
    ConnectToken, DisconnectToken, PublishToken, SubscribeOptions, SubscribeToken, Subscription,
    TokenError, UnsubscribeToken, CONNECT_SUCCESS,
};
use mqtt_codec_kit::v5::control::{ConnackProperties, SubscribeProperties};
use vstd::prelude::*;

verus! {

/// What the broker sent back on a fresh connection, in answer to CONNECT.
pub enum ConnectReply {
    /// A CONNACK packet: its reason code (as its byte), its session flag and
    /// its properties.
    Connack { reason_code: u8, session_present: bool, properties: ConnackProperties },
    /// A packet of another kind.
    OtherPacket,
    /// Bytes the codec could not decode, with its message.
    DecodeError(String),
    /// The connection closed before any packet came.
    Closed,
}

/// Starts a connection attempt.  Returns whether the client goes on to open
/// the network: only from `Disconnected`, which becomes `Connecting`.  A
/// connected client answers at once with the reason code "success", the
/// token left open; one already connecting fails the token with
/// `Reconnecting`.
pub fn begin_connect(status: &mut ConnectStatus, token: &mut ConnectToken) -> (proceed: bool)
    ensures
        proceed == (*old(status) == ConnectStatus::Disconnected),
        *final(status) == if proceed {
            ConnectStatus::Connecting
        } else {
            *old(status)
        },
        final(token).spec_session_present() == old(token).spec_session_present(),
        final(token).spec_connack_properties() == old(token).spec_connack_properties(),
        *old(status) == ConnectStatus::Connected ==> {
            &&& final(token).spec_reason_code() == CONNECT_SUCCESS
            &&& final(token).spec_state() == old(token).spec_state()
        },
        *old(status) == ConnectStatus::Disconnected ==> *final(token) == *old(token),
        *old(status) == ConnectStatus::Connecting ==> {
            &&& final(token).spec_reason_code() == old(token).spec_reason_code()
            &&& final(token).spec_state().is_complete()
            &&& final(token).spec_state().error() == Some(TokenError::Reconnecting)
        },
{
    match *status {
        ConnectStatus::Connected => {
            token.set_reason_code(CONNECT_SUCCESS);
            false
        },
        ConnectStatus::Disconnected => {
            *status = ConnectStatus::Connecting;
            true
        },
        ConnectStatus::Connecting => {
            token.set_error(TokenError::Reconnecting);
            false
        },
    }
}

/// The transport could not open the network: the client is `Disconnected`
/// again and the token fails with the transport's error.
pub fn fail_connect(status: &mut ConnectStatus, token: &mut ConnectToken, error: TokenError)
    ensures
        *final(status) == ConnectStatus::Disconnected,
        final(token).spec_reason_code() == old(token).spec_reason_code(),
        final(token).spec_session_present() == old(token).spec_session_present(),
        final(token).spec_connack_properties() == old(token).spec_connack_properties(),
        final(token).spec_state().is_complete(),
        final(token).spec_state().error() == Some(error),
{
    *status = ConnectStatus::Disconnected;
    token.set_error(error);
}

/// Settles a connection attempt on the broker's reply.  Returns whether the
/// connection is established: a CONNACK with the reason code "success",
/// after which the client is `Connected` and the token complete, with the
/// session flag and the properties the broker sent.  Otherwise the client is
/// `Disconnected` and the token fails: with the refusing reason code and
/// `ConnectFailed` of its byte, with a packet error "Not Connack Packet" for
/// another packet, with the codec's message, or with `ConnectFailed(0)` when
/// the connection closed.
pub fn finish_connect(status: &mut ConnectStatus, token: &mut ConnectToken, reply: ConnectReply) -> (established: bool)
    ensures
        established == (reply matches ConnectReply::Connack { reason_code, .. } && reason_code
            == CONNECT_SUCCESS),
        *final(status) == if established {
            ConnectStatus::Connected
        } else {
            ConnectStatus::Disconnected
        },
        final(token).spec_state().is_complete(),
        match reply {
            ConnectReply::Connack { reason_code, session_present, properties } => if reason_code
                == CONNECT_SUCCESS {
                &&& final(token).spec_reason_code() == old(token).spec_reason_code()
                &&& final(token).spec_session_present() == (old(token).spec_session_present()
                    || session_present)
                &&& final(token).spec_connack_properties() == properties
                &&& final(token).spec_state().error() == old(token).spec_state().error()
            } else {
                &&& final(token).spec_reason_code() == reason_code
                &&& final(token).spec_session_present() == old(token).spec_session_present()
                &&& final(token).spec_connack_properties() == old(token).spec_connack_properties()
                &&& final(token).spec_state().error() == Some(TokenError::ConnectFailed(reason_code))
            },
            ConnectReply::OtherPacket => {
                &&& final(token).spec_reason_code() == old(token).spec_reason_code()
                &&& final(token).spec_session_present() == old(token).spec_session_present()
                &&& final(token).spec_connack_properties() == old(token).spec_connack_properties()
                &&& final(token).spec_state().error() matches Some(TokenError::PacketError(m))
                &&& m@ == "Not Connack Packet"@
            },
            ConnectReply::DecodeError(m) => {
                &&& final(token).spec_reason_code() == old(token).spec_reason_code()
                &&& final(token).spec_session_present() == old(token).spec_session_present()
                &&& final(token).spec_connack_properties() == old(token).spec_connack_properties()
                &&& final(token).spec_state().error() == Some(TokenError::PacketError(m))
            },
            ConnectReply::Closed => {
                &&& final(token).spec_reason_code() == old(token).spec_reason_code()
                &&& final(token).spec_session_present() == old(token).spec_session_present()
                &&& final(token).spec_connack_properties() == old(token).spec_connack_properties()
                &&& final(token).spec_state().error() == Some(TokenError::ConnectFailed(0))
            },
        },
{
    match reply {
        ConnectReply::Connack { reason_code, session_present, properties } => {
            if reason_code == CONNECT_SUCCESS {
                *status = ConnectStatus::Connected;
                if session_present {
                    token.set_session_present();
                }
                token.set_connack_properties(properties);
                token.flow_complete();
                true
            } else {
                token.set_reason_code(reason_code);
                *status = ConnectStatus::Disconnected;
                token.set_error(TokenError::ConnectFailed(reason_code));
                false
            }
        },
        ConnectReply::OtherPacket => {
            *status = ConnectStatus::Disconnected;
            token.set_error(TokenError::PacketError("Not Connack Packet".to_owned()));
            false
        },
        ConnectReply::DecodeError(m) => {
            *status = ConnectStatus::Disconnected;
            token.set_error(TokenError::PacketError(m));
            false
        },
        ConnectReply::Closed => {
            *status = ConnectStatus::Disconnected;
            token.set_error(TokenError::ConnectFailed(0));
            false
        },
    }
}

/// Starts a disconnection.  Returns whether the DISCONNECT packet is to be
/// sent: only when connected; otherwise the token fails with `ConnectionLost`.
pub fn begin_disconnect(status: ConnectStatus, token: &mut DisconnectToken) -> (proceed: bool)
    ensures
        proceed == (status == ConnectStatus::Connected),
        proceed ==> *final(token) == *old(token),
        !proceed ==> final(token).spec_state().is_complete() && final(token).spec_state().error()
            == Some(TokenError::ConnectionLost),
{
    if !status.is_connected() {
        token.set_error(TokenError::ConnectionLost);
        return false;
    }
    true
}

/// Prepares a publication.  The token records the level asked for.  When
/// connected, a level above 0 takes a packet identifier, with `entry` as its
/// token; the topic must be a valid topic name.  Returns the level with its
/// identifier for the PUBLISH packet, or `None` with the token failed:
/// `ConnectionLost` when not connected, `PacketIdError` when no identifier is
/// free, `InvalidTopic` for an invalid name (the identifier stays taken).
pub fn begin_publish<T>(
    status: ConnectStatus,
    pkids: &mut PacketIds<T>,
    entry: T,
    token: &mut PublishToken,
    qos: QualityOfService,
    topic: &str,
) -> (r: Option<QoSWithPacketIdentifier>)
    ensures
        final(token).spec_qos() == qos,
        status != ConnectStatus::Connected ==> {
            &&& r is None
            &&& *final(pkids) == *old(pkids)
            &&& final(token).spec_state().is_complete()
            &&& final(token).spec_state().error() == Some(TokenError::ConnectionLost)
        },
        status == ConnectStatus::Connected && qos == QualityOfService::Level0 ==> {
            &&& *final(pkids) == *old(pkids)
            &&& if valid_topic_name(topic) {
                r == Some(QoSWithPacketIdentifier::Level0) && final(token).spec_state()
                    == old(token).spec_state()
            } else {
                r is None && final(token).spec_state().is_complete()
                    && final(token).spec_state().error() == Some(TokenError::InvalidTopic)
            }
        },
        status == ConnectStatus::Connected && qos != QualityOfService::Level0 ==> exists|id: u16|
            {
                &&& #[trigger] old(pkids).issues(*final(pkids), entry, id)
                &&& if id == 0 {
                    r is None && final(token).spec_state().is_complete() && final(token).spec_state().error() == Some(TokenError::PacketIdError)
                } else if !valid_topic_name(topic) {
                    r is None && final(token).spec_state().is_complete() && final(token).spec_state().error() == Some(TokenError::InvalidTopic)
                } else {
                    r == Some(QoSWithPacketIdentifier::new_spec(qos, id)) && final(token).spec_state() == old(token).spec_state()
                }
            },
{
    token.set_qos(qos);
    if !status.is_connected() {
        token.set_error(TokenError::ConnectionLost);
        return None;
    }
    let with_id = match qos {
        QualityOfService::Level0 => QoSWithPacketIdentifier::Level0,
        _ => {
            let pkid = pkids.get_id(entry);
            if pkid == 0 {
                token.set_error(TokenError::PacketIdError);
                return None;
            }
            QoSWithPacketIdentifier::new(qos, pkid)
        },
    };
    if !topic_name_is_valid(topic) {
        token.set_error(TokenError::InvalidTopic);
        return None;
    }
    Some(with_id)
}

/// Takes a packet identifier for a subscription or unsubscription request,
/// failing the request when not connected or when none is free.
fn take_packet_id<T>(status: ConnectStatus, pkids: &mut PacketIds<T>, entry: T) -> (r: Result<u16, TokenError>)
    ensures
        status != ConnectStatus::Connected ==> r == Err::<u16, TokenError>(TokenError::ConnectionLost)
            && *final(pkids) == *old(pkids),
        status == ConnectStatus::Connected ==> exists|id: u16|
            {
                &&& #[trigger] old(pkids).issues(*final(pkids), entry, id)
                &&& r == if id == 0 {
                    Err::<u16, TokenError>(TokenError::PacketIdError)
                } else {
                    Ok(id)
                }
            },
{
    if !status.is_connected() {
        return Err(TokenError::ConnectionLost);
    }
    let pkid = pkids.get_id(entry);
    if pkid == 0 {
        return Err(TokenError::PacketIdError);
    }
    Ok(pkid)
}

/// Settles a subscription request whose packet identifier `pkid` is taken,
/// once the codec has judged its filter (`filter_valid`).  Returns the
/// identifier for the SUBSCRIBE packet, or `None` with the token failed with
/// `InvalidTopic`.
pub fn settle_subscribe<H>(token: &mut SubscribeToken<H>, pkid: u16, filter_valid: bool) -> (r: Option<u16>)
    ensures
        final(token).spec_subscriptions() == old(token).spec_subscriptions(),
        final(token).spec_results() == old(token).spec_results(),
        final(token).spec_suback_properties() == old(token).spec_suback_properties(),
        final(token).wf() == old(token).wf(),
        filter_valid ==> r == Some(pkid) && final(token).spec_state() == old(token).spec_state(),
        !filter_valid ==> r is None && final(token).spec_state().is_complete()
            && final(token).spec_state().error() == Some(TokenError::InvalidTopic),
{
    if !filter_valid {
        token.set_error(TokenError::InvalidTopic);
        return None;
    }
    Some(pkid)
}

/// Prepares a subscription to the filter `topic`.  When connected it takes a
/// packet identifier, with `entry` as its token, and the filter must be
/// valid.  Returns the identifier for the SUBSCRIBE packet, or `None` with
/// the token failed: `ConnectionLost`, `PacketIdError`, or `InvalidTopic`
/// (the identifier stays taken).
pub fn begin_subscribe<T, H>(
    status: ConnectStatus,
    pkids: &mut PacketIds<T>,
    entry: T,
    token: &mut SubscribeToken<H>,
    topic: &str,
) -> (r: Option<u16>)
    ensures
        final(token).spec_subscriptions() == old(token).spec_subscriptions(),
        final(token).spec_results() == old(token).spec_results(),
        final(token).spec_suback_properties() == old(token).spec_suback_properties(),
        final(token).wf() == old(token).wf(),
        status != ConnectStatus::Connected ==> {
            &&& r is None
            &&& *final(pkids) == *old(pkids)
            &&& final(token).spec_state().is_complete()
            &&& final(token).spec_state().error() == Some(TokenError::ConnectionLost)
        },
        status == ConnectStatus::Connected ==> exists|id: u16|
            {
                &&& #[trigger] old(pkids).issues(*final(pkids), entry, id)
                &&& if id == 0 {
                    r is None && final(token).spec_state().is_complete() && final(token).spec_state().error() == Some(TokenError::PacketIdError)
                } else if !valid_topic_filter(topic@) {
                    r is None && final(token).spec_state().is_complete() && final(token).spec_state().error() == Some(TokenError::InvalidTopic)
                } else {
                    r == Some(id) && final(token).spec_state() == old(token).spec_state()
                }
            },
{
    let pkid = match take_packet_id(status, pkids, entry) {
        Ok(id) => id,
        Err(e) => {
            token.set_error(e);
            return None;
        },
    };
    let filter_valid = topic_filter_is_valid(topic);
    settle_subscribe(token, pkid, filter_valid)
}

/// The filters of a list of (filter, options) pairs.
pub open spec fn filters_of(topics: Seq<(String, SubscribeOptions)>) -> Seq<Seq<char>> {
    topics.map_values(|p: (String, SubscribeOptions)| p.0@)
}

/// `s` is the subscription to `topic` with `options`, a copy of the request's
/// `properties`, and `callback`.
pub open spec fn subscription_for<H>(
    s: Subscription<H>,
    topic: (String, SubscribeOptions),
    properties: Option<SubscribeProperties>,
    callback: H,
) -> bool {
    &&& s.topic@ == topic.0@
    &&& s.options == topic.1
    &&& s.handler == callback
    &&& match properties {
        None => s.properties is None,
        Some(p) => s.properties matches Some(q) && cloned(p, q),
    }
}

/// Settles a request to subscribe to the filters `topics`, all with the
/// request's `properties` and the handler `callback`, whose packet
/// identifier `pkid` is taken, once the codec has judged each filter
/// (`valid`, one per filter in order).  Returns the identifier and the
/// subscriptions, one per filter in order, or `None` with the token failed
/// with `InvalidTopic` when a filter is invalid.
#[verifier::loop_isolation(false)]
pub fn settle_subscribe_multiple<H: Copy>(
    token: &mut SubscribeToken<H>,
    pkid: u16,
    topics: &Vec<(String, SubscribeOptions)>,
    properties: &Option<SubscribeProperties>,
    valid: &Vec<bool>,
    callback: H,
) -> (r: Option<(u16, Vec<Subscription<H>>)>)
    requires
        valid@.len() == topics@.len(),
    ensures
        final(token).spec_subscriptions() == old(token).spec_subscriptions(),
        final(token).spec_results() == old(token).spec_results(),
        final(token).spec_suback_properties() == old(token).spec_suback_properties(),
        final(token).wf() == old(token).wf(),
        if leading_true(valid@) < valid@.len() {
            r is None && final(token).spec_state().is_complete() && final(token).spec_state().error()
                == Some(TokenError::InvalidTopic)
        } else {
            &&& r matches Some((rid, subs)) && rid == pkid && subs@.len() == topics@.len()
                && forall|i: int|
                0 <= i < subs@.len() ==> subscription_for(
                    #[trigger] subs@[i],
                    topics@[i],
                    *properties,
                    callback,
                )
            &&& final(token).spec_state() == old(token).spec_state()
        },
{
    let mut subscriptions: Vec<Subscription<H>> = Vec::new();
    let mut i: usize = 0;
    while i < topics.len()
        invariant
            i <= topics@.len(),
            forall|j: int| 0 <= j < i ==> #[trigger] valid@[j],
            subscriptions@.len() == i,
            forall|j: int|
                0 <= j < i ==> subscription_for(
                    #[trigger] subscriptions@[j],
                    topics@[j],
                    *properties,
                    callback,
                ),
            *token == *old(token),
        decreases topics@.len() - i,
    {
        proof {
            lemma_leading_true_step(valid@, i as int);
        }
        if !valid[i] {
            token.set_error(TokenError::InvalidTopic);
            return None;
        }
        let props = properties.clone();
        subscriptions.push(Subscription::new(topics[i].0.clone(), topics[i].1, props, callback));
        i = i + 1;
    }
    proof {
        lemma_leading_true_all(valid@);
    }
    Some((pkid, subscriptions))
}

/// Prepares a subscription to several filters at once, all with the
/// request's `properties` and the handler `callback`.  When connected it
/// takes a packet identifier, with `entry` as its token, and every filter
/// must be valid.  Returns the identifier and the subscriptions, one per
/// filter in order, or `None` with the token failed: `ConnectionLost`,
/// `PacketIdError`, or `InvalidTopic` (the identifier stays taken).
#[verifier::loop_isolation(false)]
pub fn begin_subscribe_multiple<T, H: Copy>(
    status: ConnectStatus,
    pkids: &mut PacketIds<T>,
    entry: T,
    token: &mut SubscribeToken<H>,
    topics: &Vec<(String, SubscribeOptions)>,
    properties: &Option<SubscribeProperties>,
    callback: H,
) -> (r: Option<(u16, Vec<Subscription<H>>)>)
    ensures
        final(token).spec_subscriptions() == old(token).spec_subscriptions(),
        final(token).spec_results() == old(token).spec_results(),
        final(token).spec_suback_properties() == old(token).spec_suback_properties(),
        final(token).wf() == old(token).wf(),
        status != ConnectStatus::Connected ==> {
            &&& r is None
            &&& *final(pkids) == *old(pkids)
            &&& final(token).spec_state().is_complete()
            &&& final(token).spec_state().error() == Some(TokenError::ConnectionLost)
        },
        status == ConnectStatus::Connected ==> exists|id: u16|
            {
                &&& #[trigger] old(pkids).issues(*final(pkids), entry, id)
                &&& if id == 0 {
                    r is None && final(token).spec_state().is_complete() && final(token).spec_state().error() == Some(TokenError::PacketIdError)
                } else if leading_true(filter_validity(filters_of(topics@))) < topics@.len() {
                    r is None && final(token).spec_state().is_complete() && final(token).spec_state().error() == Some(TokenError::InvalidTopic)
                } else {
                    &&& r matches Some((rid, subs)) && rid == id && subs@.len() == topics@.len()
                        && forall|i: int|
                        0 <= i < subs@.len() ==> subscription_for(
                            #[trigger] subs@[i],
                            topics@[i],
                            *properties,
                            callback,
                        )
                    &&& final(token).spec_state() == old(token).spec_state()
                }
            },
{
    let pkid = match take_packet_id(status, pkids, entry) {
        Ok(id) => id,
        Err(e) => {
            token.set_error(e);
            return None;
        },
    };
    let ghost vs = filter_validity(filters_of(topics@));
    let mut valid: Vec<bool> = Vec::new();
    let mut i: usize = 0;
    while i < topics.len()
        invariant
            i <= topics@.len(),
            valid@ == vs.take(i as int),
        decreases topics@.len() - i,
    {
        let v = topic_filter_is_valid(topics[i].0.as_str());
        proof {
            assert(vs[i as int] == v);
        }
        valid.push(v);
        proof {
            assert(vs.take(i + 1) =~= vs.take(i as int).push(v));
        }
        i = i + 1;
    }
    proof {
        assert(valid@ =~= vs);
    }
    settle_subscribe_multiple(token, pkid, topics, properties, &valid, callback)
}

/// Settles an unsubscription from the filters `topics`, whose packet
/// identifier `pkid` is taken, once the codec has judged each filter
/// (`valid`, one per filter in order): the filters go onto the token in
/// order, up to the first invalid one.  Returns the identifier for the
/// UNSUBSCRIBE packet, or `None` with the token failed with `InvalidTopic`
/// when a filter is invalid.
#[verifier::loop_isolation(false)]
pub fn settle_unsubscribe(
    token: &mut UnsubscribeToken,
    pkid: u16,
    topics: &Vec<String>,
    valid: &Vec<bool>,
) -> (r: Option<u16>)
    requires
        valid@.len() == topics@.len(),
    ensures
        filter_views(final(token).spec_topics()) == filter_views(old(token).spec_topics())
            + filter_views(topics@).take(leading_true(valid@) as int),
        final(token).spec_unsuback_properties() == old(token).spec_unsuback_properties(),
        if leading_true(valid@) < valid@.len() {
            r is None && final(token).spec_state().is_complete() && final(token).spec_state().error()
                == Some(TokenError::InvalidTopic)
        } else {
            r == Some(pkid) && final(token).spec_state() == old(token).spec_state()
        },
{
    let ghost ts = filter_views(topics@);
    let ghost base = filter_views(token.spec_topics());
    let mut i: usize = 0;
    while i < topics.len()
        invariant
            ts == filter_views(topics@),
            i <= topics@.len(),
            forall|j: int| 0 <= j < i ==> #[trigger] valid@[j],
            filter_views(token.spec_topics()) == base + ts.take(i as int),
            token.spec_state() == old(token).spec_state(),
            token.spec_unsuback_properties() == old(token).spec_unsuback_properties(),
        decreases topics@.len() - i,
    {
        proof {
            assert(ts[i as int] == topics@[i as int]@);
            lemma_leading_true_step(valid@, i as int);
        }
        if !valid[i] {
            token.set_error(TokenError::InvalidTopic);
            return None;
        }
        let ghost before = token.spec_topics();
        token.add_topic(topics[i].clone());
        proof {
            assert(filter_views(token.spec_topics()) =~= filter_views(before).push(ts[i as int]));
            assert(ts.take(i + 1) =~= ts.take(i as int).push(ts[i as int]));
        }
        i = i + 1;
    }
    proof {
        lemma_leading_true_all(valid@);
        assert(ts.take(ts.len() as int) =~= ts);
    }
    Some(pkid)
}

/// Prepares an unsubscription from the filters `topics`.  When connected it
/// takes a packet identifier, with `entry` as its token; then the filters go
/// onto the token in order, up to the first invalid one.  Returns the
/// identifier for the UNSUBSCRIBE packet, or `None` with the token failed:
/// `ConnectionLost`, `PacketIdError`, or `InvalidTopic` (the identifier stays
/// taken, and the token keeps the valid filters before the invalid one).
#[verifier::loop_isolation(false)]
pub fn begin_unsubscribe<T>(
    status: ConnectStatus,
    pkids: &mut PacketIds<T>,
    entry: T,
    token: &mut UnsubscribeToken,
    topics: &Vec<String>,
) -> (r: Option<u16>)
    ensures
        final(token).spec_unsuback_properties() == old(token).spec_unsuback_properties(),
        status != ConnectStatus::Connected ==> {
            &&& r is None
            &&& *final(pkids) == *old(pkids)
            &&& final(token).spec_topics() == old(token).spec_topics()
            &&& final(token).spec_state().is_complete()
            &&& final(token).spec_state().error() == Some(TokenError::ConnectionLost)
        },
        status == ConnectStatus::Connected ==> exists|id: u16|
            {
                &&& #[trigger] old(pkids).issues(*final(pkids), entry, id)
                &&& if id == 0 {
                    r is None && final(token).spec_topics() == old(token).spec_topics() && final(token).spec_state().is_complete() && final(token).spec_state().error() == Some(
                        TokenError::PacketIdError,
                    )
                } else {
                    let n = leading_true(filter_validity(filter_views(topics@))) as int;
                    &&& filter_views(final(token).spec_topics()) == filter_views(
                        old(token).spec_topics(),
                    ) + filter_views(topics@).take(n)
                    &&& if n < topics@.len() {
                        r is None && final(token).spec_state().is_complete() && final(token).spec_state().error() == Some(TokenError::InvalidTopic)
                    } else {
                        r == Some(id) && final(token).spec_state() == old(token).spec_state()
                    }
                }
            },
{
    let pkid = match take_packet_id(status, pkids, entry) {
        Ok(id) => id,
        Err(e) => {
            token.set_error(e);
            return None;
        },
    };
    let ghost vs = filter_validity(filter_views(topics@));
    let mut valid: Vec<bool> = Vec::new();
    let mut i: usize = 0;
    while i < topics.len()
        invariant
            i <= topics@.len(),
            valid@ == vs.take(i as int),
        decreases topics@.len() - i,
    {
        let v = topic_filter_is_valid(topics[i].as_str());
        proof {
            assert(vs[i as int] == v);
        }
        valid.push(v);
        proof {
            assert(vs.take(i + 1) =~= vs.take(i as int).push(v));
        }
        i = i + 1;
    }
    proof {
        assert(valid@ =~= vs);
    }
    settle_unsubscribe(token, pkid, topics, &valid)
}

} // verus!
