use crate::error::MqttError;
use crate::options::ClientOptions;
use crate::pkid::PacketIds;
use crate::protocol::{
    topic_filter_is_valid, topic_name_is_valid, valid_topic_filter, valid_topic_name,
    ConnectReturnCode, QoSWithPacketIdentifier, QualityOfService,
};
use crate::net::{holds_subscription, holds_unsubscription};
use crate::token::{
    ConnectToken, DisconnectToken, Entry, PublishToken, SubscribeToken, Subscription, Token,
    UnsubscribeToken,
};
use vstd::prelude::*;

verus! {

/// Where a client stands with its broker.
#[derive(Debug, Clone, Copy, PartialEq, Eq, Structural)]
pub enum ConnectStatus {
    Connected,
    Disconnected,
    Connecting,
}

impl ConnectStatus {
    pub fn is_connected(self) -> (r: bool)
        ensures
            r == (self == ConnectStatus::Connected),
    {
        self == ConnectStatus::Connected
    }
}

/// What the broker sent back on a fresh connection, in answer to CONNECT.
pub enum ConnectReply {
    /// A CONNACK packet.
    Connack { code: ConnectReturnCode, session_present: bool },
    /// A packet of another kind.
    OtherPacket,
    /// Bytes the codec could not decode, with its message.
    DecodeError(String),
    /// The connection closed before any packet came.
    Closed,
}

/// Starts a connection attempt.  Returns whether the client goes on to open
/// the network: only from `Disconnected`, which becomes `Connecting`.  A
/// connected client answers at once with the code "connection accepted",
/// the token left open; one already connecting fails the token with
/// `Reconnecting`.
pub fn begin_connect(status: &mut ConnectStatus, token: &mut ConnectToken) -> (proceed: bool)
    ensures
        proceed == (*old(status) == ConnectStatus::Disconnected),
        *final(status) == if proceed {
            ConnectStatus::Connecting
        } else {
            *old(status)
        },
        *old(status) == ConnectStatus::Connected ==> {
            &&& final(token).spec_return_code() == ConnectReturnCode::ConnectionAccepted
            &&& final(token).spec_session_present() == old(token).spec_session_present()
            &&& final(token).spec_state() == old(token).spec_state()
        },
        *old(status) == ConnectStatus::Disconnected ==> *final(token) == *old(token),
        *old(status) == ConnectStatus::Connecting ==> {
            &&& final(token).spec_return_code() == old(token).spec_return_code()
            &&& final(token).spec_session_present() == old(token).spec_session_present()
            &&& final(token).spec_state().is_complete()
            &&& final(token).spec_state().error() == Some(MqttError::Reconnecting)
        },
{
    match *status {
        ConnectStatus::Connected => {
            token.set_return_code(ConnectReturnCode::ConnectionAccepted);
            false
        },
        ConnectStatus::Disconnected => {
            *status = ConnectStatus::Connecting;
            true
        },
        ConnectStatus::Connecting => {
            token.set_error(MqttError::Reconnecting);
            false
        },
    }
}

/// The network could not be opened: the client is `Disconnected` again and
/// the token fails with the error of the last address tried, or with
/// `NetworkUnreachable` when there was none.
pub fn fail_connect(status: &mut ConnectStatus, token: &mut ConnectToken, last_error: Option<MqttError>)
    ensures
        *final(status) == ConnectStatus::Disconnected,
        final(token).spec_return_code() == old(token).spec_return_code(),
        final(token).spec_session_present() == old(token).spec_session_present(),
        final(token).spec_state().is_complete(),
        final(token).spec_state().error() == Some(match last_error {
            Some(e) => e,
            None => MqttError::NetworkUnreachable,
        }),
{
    *status = ConnectStatus::Disconnected;
    match last_error {
        Some(e) => token.set_error(e),
        None => token.set_error(MqttError::NetworkUnreachable),
    }
}

/// Settles a connection attempt on the broker's reply.  Returns whether the
/// connection is established: a CONNACK that accepts it, after which the
/// client is `Connected` and the token complete, with the session flag that
/// the broker sent.  Otherwise the client is `Disconnected` and the token
/// fails: with the refusing code and `MqttConnectFailed` of its byte, with
/// `ProtocolError` for another packet, with the codec's message, or with
/// `MqttConnectFailed(0)` when the connection closed.
pub fn finish_connect(status: &mut ConnectStatus, token: &mut ConnectToken, reply: ConnectReply) -> (established: bool)
    ensures
        established == (reply matches ConnectReply::Connack { code, .. } && code
            == ConnectReturnCode::ConnectionAccepted),
        *final(status) == if established {
            ConnectStatus::Connected
        } else {
            ConnectStatus::Disconnected
        },
        final(token).spec_state().is_complete(),
        match reply {
            ConnectReply::Connack { code, session_present } => if code
                == ConnectReturnCode::ConnectionAccepted {
                &&& final(token).spec_return_code() == old(token).spec_return_code()
                &&& final(token).spec_session_present() == (old(token).spec_session_present()
                    || session_present)
                &&& final(token).spec_state().error() == old(token).spec_state().error()
            } else {
                &&& final(token).spec_return_code() == code
                &&& final(token).spec_session_present() == old(token).spec_session_present()
                &&& final(token).spec_state().error() == Some(
                    MqttError::MqttConnectFailed(code.spec_to_u8()),
                )
            },
            ConnectReply::OtherPacket => {
                &&& final(token).spec_return_code() == old(token).spec_return_code()
                &&& final(token).spec_session_present() == old(token).spec_session_present()
                &&& final(token).spec_state().error() == Some(MqttError::ProtocolError)
            },
            ConnectReply::DecodeError(m) => {
                &&& final(token).spec_return_code() == old(token).spec_return_code()
                &&& final(token).spec_session_present() == old(token).spec_session_present()
                &&& final(token).spec_state().error() == Some(MqttError::VariablePacketError(m))
            },
            ConnectReply::Closed => {
                &&& final(token).spec_return_code() == old(token).spec_return_code()
                &&& final(token).spec_session_present() == old(token).spec_session_present()
                &&& final(token).spec_state().error() == Some(MqttError::MqttConnectFailed(0))
            },
        },
{
    match reply {
        ConnectReply::Connack { code, session_present } => {
            if code == ConnectReturnCode::ConnectionAccepted {
                *status = ConnectStatus::Connected;
                if session_present {
                    token.set_session_present();
                }
                token.flow_complete();
                true
            } else {
                token.set_return_code(code);
                *status = ConnectStatus::Disconnected;
                let n = code.to_u8();
                token.set_error(MqttError::MqttConnectFailed(n));
                false
            }
        },
        ConnectReply::OtherPacket => {
            *status = ConnectStatus::Disconnected;
            token.set_error(MqttError::ProtocolError);
            false
        },
        ConnectReply::DecodeError(m) => {
            *status = ConnectStatus::Disconnected;
            token.set_error(MqttError::VariablePacketError(m));
            false
        },
        ConnectReply::Closed => {
            *status = ConnectStatus::Disconnected;
            token.set_error(MqttError::MqttConnectFailed(0));
            false
        },
    }
}

/// Starts a disconnection.  Returns whether the DISCONNECT packet is to be
/// sent: only when connected; otherwise the token fails with `ConnectionLost`.
pub fn begin_disconnect(status: ConnectStatus, token: &mut DisconnectToken) -> (proceed: bool)
    ensures
        proceed == (status == ConnectStatus::Connected),
        proceed ==> *final(token) == *old(token),
        !proceed ==> final(token).spec_state().is_complete() && final(token).spec_state().error()
            == Some(MqttError::ConnectionLost),
{
    if !status.is_connected() {
        token.set_error(MqttError::ConnectionLost);
        return false;
    }
    true
}

/// Prepares a publication.  The token records the level asked for.  When
/// connected, a level above 0 takes a packet identifier, with `entry` as its
/// token; the topic must be a valid topic name.  Returns the level with its
/// identifier for the PUBLISH packet, or `None` with the token failed:
/// `ConnectionLost` when not connected, `PacketIdError` when no identifier is
/// free, `InvalidTopic` for an invalid name (the identifier stays taken).
pub fn begin_publish<T>(
    status: ConnectStatus,
    pkids: &mut PacketIds<T>,
    entry: T,
    token: &mut PublishToken,
    qos: QualityOfService,
    topic: &str,
) -> (r: Option<QoSWithPacketIdentifier>)
    ensures
        final(token).spec_qos() == qos,
        status != ConnectStatus::Connected ==> {
            &&& r is None
            &&& *final(pkids) == *old(pkids)
            &&& final(token).spec_state().is_complete()
            &&& final(token).spec_state().error() == Some(MqttError::ConnectionLost)
        },
        status == ConnectStatus::Connected && qos == QualityOfService::Level0 ==> {
            &&& *final(pkids) == *old(pkids)
            &&& if valid_topic_name(topic) {
                r == Some(QoSWithPacketIdentifier::Level0) && final(token).spec_state()
                    == old(token).spec_state()
            } else {
                r is None && final(token).spec_state().is_complete()
                    && final(token).spec_state().error() == Some(MqttError::InvalidTopic)
            }
        },
        status == ConnectStatus::Connected && qos != QualityOfService::Level0 ==> exists|id: u16|
            {
                &&& #[trigger] old(pkids).issues(*final(pkids), entry, id)
                &&& if id == 0 {
                    r is None && final(token).spec_state().is_complete() && final(token).spec_state().error() == Some(MqttError::PacketIdError)
                } else if !valid_topic_name(topic) {
                    r is None && final(token).spec_state().is_complete() && final(token).spec_state().error() == Some(MqttError::InvalidTopic)
                } else {
                    r == Some(QoSWithPacketIdentifier::new_spec(qos, id)) && final(token).spec_state() == old(token).spec_state()
                }
            },
{
    token.set_qos(qos);
    if !status.is_connected() {
        token.set_error(MqttError::ConnectionLost);
        return None;
    }
    let with_id = match qos {
        QualityOfService::Level0 => QoSWithPacketIdentifier::Level0,
        _ => {
            let pkid = pkids.get_id(entry);
            if pkid == 0 {
                token.set_error(MqttError::PacketIdError);
                return None;
            }
            QoSWithPacketIdentifier::new(qos, pkid)
        },
    };
    if !topic_name_is_valid(topic) {
        token.set_error(MqttError::InvalidTopic);
        return None;
    }
    Some(with_id)
}

/// Takes a packet identifier for a subscription or unsubscription request,
/// failing the request when not connected or when none is free.
fn take_packet_id<T>(status: ConnectStatus, pkids: &mut PacketIds<T>, entry: T) -> (r: Result<u16, MqttError>)
    ensures
        status != ConnectStatus::Connected ==> r == Err::<u16, MqttError>(MqttError::ConnectionLost)
            && *final(pkids) == *old(pkids),
        status == ConnectStatus::Connected ==> exists|id: u16|
            {
                &&& #[trigger] old(pkids).issues(*final(pkids), entry, id)
                &&& r == if id == 0 {
                    Err::<u16, MqttError>(MqttError::PacketIdError)
                } else {
                    Ok(id)
                }
            },
{
    if !status.is_connected() {
        return Err(MqttError::ConnectionLost);
    }
    let pkid = pkids.get_id(entry);
    if pkid == 0 {
        return Err(MqttError::PacketIdError);
    }
    Ok(pkid)
}

/// Settles a subscription request whose packet identifier `pkid` is taken,
/// once the codec has judged its filter (`filter_valid`).  Returns the
/// identifier for the SUBSCRIBE packet, or `None` with the token failed with
/// `InvalidTopic`.
pub fn settle_subscribe<H>(token: &mut SubscribeToken<H>, pkid: u16, filter_valid: bool) -> (r: Option<u16>)
    ensures
        final(token).spec_subscriptions() == old(token).spec_subscriptions(),
        final(token).spec_results() == old(token).spec_results(),
        final(token).wf() == old(token).wf(),
        filter_valid ==> r == Some(pkid) && final(token).spec_state() == old(token).spec_state(),
        !filter_valid ==> r is None && final(token).spec_state().is_complete()
            && final(token).spec_state().error() == Some(MqttError::InvalidTopic),
{
    if !filter_valid {
        token.set_error(MqttError::InvalidTopic);
        return None;
    }
    Some(pkid)
}

/// Prepares a subscription to the filter `topic`.  When connected it takes a
/// packet identifier, with `entry` as its token, and the filter must be
/// valid.  Returns the identifier for the SUBSCRIBE packet, or `None` with
/// the token failed: `ConnectionLost`, `PacketIdError`, or `InvalidTopic`
/// (the identifier stays taken).
pub fn begin_subscribe<T, H>(
    status: ConnectStatus,
    pkids: &mut PacketIds<T>,
    entry: T,
    token: &mut SubscribeToken<H>,
    topic: &str,
) -> (r: Option<u16>)
    ensures
        final(token).spec_subscriptions() == old(token).spec_subscriptions(),
        final(token).spec_results() == old(token).spec_results(),
        final(token).wf() == old(token).wf(),
        status != ConnectStatus::Connected ==> {
            &&& r is None
            &&& *final(pkids) == *old(pkids)
            &&& final(token).spec_state().is_complete()
            &&& final(token).spec_state().error() == Some(MqttError::ConnectionLost)
        },
        status == ConnectStatus::Connected ==> exists|id: u16|
            {
                &&& #[trigger] old(pkids).issues(*final(pkids), entry, id)
                &&& if id == 0 {
                    r is None && final(token).spec_state().is_complete() && final(token).spec_state().error() == Some(MqttError::PacketIdError)
                } else if !valid_topic_filter(topic@) {
                    r is None && final(token).spec_state().is_complete() && final(token).spec_state().error() == Some(MqttError::InvalidTopic)
                } else {
                    r == Some(id) && final(token).spec_state() == old(token).spec_state()
                }
            },
{
    let pkid = match take_packet_id(status, pkids, entry) {
        Ok(id) => id,
        Err(e) => {
            token.set_error(e);
            return None;
        },
    };
    let filter_valid = topic_filter_is_valid(topic);
    settle_subscribe(token, pkid, filter_valid)
}

/// The number of `true`s at the front of `bs`.
pub open spec fn leading_true(bs: Seq<bool>) -> nat
    decreases bs.len(),
{
    if bs.len() == 0 || !bs[0] {
        0
    } else {
        1 + leading_true(bs.drop_first())
    }
}

pub(crate) proof fn lemma_leading_true_step(bs: Seq<bool>, i: int)
    requires
        0 <= i < bs.len(),
        forall|j: int| 0 <= j < i ==> #[trigger] bs[j],
    ensures
        bs[i] ==> forall|j: int| 0 <= j <= i ==> #[trigger] bs[j],
        !bs[i] ==> leading_true(bs) == i,
    decreases i,
{
    if i > 0 {
        let b2 = bs.drop_first();
        assert forall|j: int| 0 <= j < i - 1 implies #[trigger] b2[j] by {
            assert(b2[j] == bs[j + 1]);
        }
        assert(b2[i - 1] == bs[i]);
        lemma_leading_true_step(b2, i - 1);
        assert(bs[0]);
    }
}

pub(crate) proof fn lemma_leading_true_all(bs: Seq<bool>)
    requires
        forall|j: int| 0 <= j < bs.len() ==> #[trigger] bs[j],
    ensures
        leading_true(bs) == bs.len(),
    decreases bs.len(),
{
    if bs.len() > 0 {
        let b2 = bs.drop_first();
        assert forall|j: int| 0 <= j < b2.len() implies #[trigger] b2[j] by {
            assert(b2[j] == bs[j + 1]);
        }
        lemma_leading_true_all(b2);
        assert(bs[0]);
    }
}

/// What the codec says of each filter of `ts`, in order.
pub open spec fn filter_validity(ts: Seq<Seq<char>>) -> Seq<bool> {
    ts.map_values(|t: Seq<char>| valid_topic_filter(t))
}

/// Each filter of a list is judged by the codec's rule alone: the verdict
/// on the `i`-th filter is whether it is a valid topic filter, as for a
/// single subscription.
pub proof fn law_each_filter_judged_alone(ts: Seq<Seq<char>>)
    ensures
        filter_validity(ts).len() == ts.len(),
        forall|i: int| 0 <= i < ts.len() ==> #[trigger] filter_validity(ts)[i] == valid_topic_filter(ts[i]),
{
}

/// The filters of a list of (filter, level) pairs.
pub open spec fn filters_of(topics: Seq<(String, QualityOfService)>) -> Seq<Seq<char>> {
    topics.map_values(|p: (String, QualityOfService)| p.0@)
}

/// The filters of a list of filters.
pub open spec fn filter_views(topics: Seq<String>) -> Seq<Seq<char>> {
    topics.map_values(|s: String| s@)
}

/// Settles a request to subscribe to the filters `topics`, all with the
/// handler `callback`, whose packet identifier `pkid` is taken, once the
/// codec has judged each filter (`valid`, one per filter in order).  Returns
/// the identifier and the subscriptions, one per filter in order, or `None`
/// with the token failed with `InvalidTopic` when a filter is invalid.
#[verifier::loop_isolation(false)]
pub fn settle_subscribe_multiple<H: Copy>(
    token: &mut SubscribeToken<H>,
    pkid: u16,
    topics: &Vec<(String, QualityOfService)>,
    valid: &Vec<bool>,
    callback: H,
) -> (r: Option<(u16, Vec<Subscription<H>>)>)
    requires
        valid@.len() == topics@.len(),
    ensures
        final(token).spec_subscriptions() == old(token).spec_subscriptions(),
        final(token).spec_results() == old(token).spec_results(),
        final(token).wf() == old(token).wf(),
        if leading_true(valid@) < valid@.len() {
            r is None && final(token).spec_state().is_complete() && final(token).spec_state().error()
                == Some(MqttError::InvalidTopic)
        } else {
            &&& r matches Some((rid, subs)) && rid == pkid && subs@.len() == topics@.len()
                && forall|i: int|
                0 <= i < subs@.len() ==> (#[trigger] subs@[i]).topic@ == topics@[i].0@
                    && subs@[i].qos == topics@[i].1 && subs@[i].handler == callback
            &&& final(token).spec_state() == old(token).spec_state()
        },
{
    let mut subscriptions: Vec<Subscription<H>> = Vec::new();
    let mut i: usize = 0;
    while i < topics.len()
        invariant
            i <= topics@.len(),
            forall|j: int| 0 <= j < i ==> #[trigger] valid@[j],
            subscriptions@.len() == i,
            forall|j: int|
                0 <= j < i ==> (#[trigger] subscriptions@[j]).topic@ == topics@[j].0@
                    && subscriptions@[j].qos == topics@[j].1 && subscriptions@[j].handler == callback,
            *token == *old(token),
        decreases topics@.len() - i,
    {
        proof {
            lemma_leading_true_step(valid@, i as int);
        }
        if !valid[i] {
            token.set_error(MqttError::InvalidTopic);
            return None;
        }
        subscriptions.push(Subscription::new(topics[i].0.clone(), topics[i].1, callback));
        i = i + 1;
    }
    proof {
        lemma_leading_true_all(valid@);
    }
    Some((pkid, subscriptions))
}

/// Prepares a subscription to several filters at once, all with the handler
/// `callback`.  When connected it takes a packet identifier, with `entry` as
/// its token, and every filter must be valid.  Returns the identifier and
/// the subscriptions, one per filter in order, or `None` with the token
/// failed: `ConnectionLost`, `PacketIdError`, or `InvalidTopic` (the
/// identifier stays taken).
#[verifier::loop_isolation(false)]
pub fn begin_subscribe_multiple<T, H: Copy>(
    status: ConnectStatus,
    pkids: &mut PacketIds<T>,
    entry: T,
    token: &mut SubscribeToken<H>,
    topics: &Vec<(String, QualityOfService)>,
    callback: H,
) -> (r: Option<(u16, Vec<Subscription<H>>)>)
    ensures
        final(token).spec_subscriptions() == old(token).spec_subscriptions(),
        final(token).spec_results() == old(token).spec_results(),
        final(token).wf() == old(token).wf(),
        status != ConnectStatus::Connected ==> {
            &&& r is None
            &&& *final(pkids) == *old(pkids)
            &&& final(token).spec_state().is_complete()
            &&& final(token).spec_state().error() == Some(MqttError::ConnectionLost)
        },
        status == ConnectStatus::Connected ==> exists|id: u16|
            {
                &&& #[trigger] old(pkids).issues(*final(pkids), entry, id)
                &&& if id == 0 {
                    r is None && final(token).spec_state().is_complete() && final(token).spec_state().error() == Some(MqttError::PacketIdError)
                } else if leading_true(filter_validity(filters_of(topics@))) < topics@.len() {
                    r is None && final(token).spec_state().is_complete() && final(token).spec_state().error() == Some(MqttError::InvalidTopic)
                } else {
                    &&& r matches Some((rid, subs)) && rid == id && subs@.len() == topics@.len()
                        && forall|i: int|
                        0 <= i < subs@.len() ==> (#[trigger] subs@[i]).topic@ == topics@[i].0@
                            && subs@[i].qos == topics@[i].1 && subs@[i].handler == callback
                    &&& final(token).spec_state() == old(token).spec_state()
                }
            },
{
    let pkid = match take_packet_id(status, pkids, entry) {
        Ok(id) => id,
        Err(e) => {
            token.set_error(e);
            return None;
        },
    };
    let ghost vs = filter_validity(filters_of(topics@));
    let mut valid: Vec<bool> = Vec::new();
    let mut i: usize = 0;
    while i < topics.len()
        invariant
            i <= topics@.len(),
            valid@ == vs.take(i as int),
        decreases topics@.len() - i,
    {
        let v = topic_filter_is_valid(topics[i].0.as_str());
        proof {
            assert(vs[i as int] == v);
        }
        valid.push(v);
        proof {
            assert(vs.take(i + 1) =~= vs.take(i as int).push(v));
        }
        i = i + 1;
    }
    proof {
        assert(valid@ =~= vs);
    }
    settle_subscribe_multiple(token, pkid, topics, &valid, callback)
}

/// Settles an unsubscription from the filters `topics`, whose packet
/// identifier `pkid` is taken, once the codec has judged each filter
/// (`valid`, one per filter in order): the filters go onto the token in
/// order, up to the first invalid one.  Returns the identifier for the
/// UNSUBSCRIBE packet, or `None` with the token failed with `InvalidTopic`
/// when a filter is invalid.
#[verifier::loop_isolation(false)]
pub fn settle_unsubscribe(
    token: &mut UnsubscribeToken,
    pkid: u16,
    topics: &Vec<String>,
    valid: &Vec<bool>,
) -> (r: Option<u16>)
    requires
        valid@.len() == topics@.len(),
    ensures
        filter_views(final(token).spec_topics()) == filter_views(old(token).spec_topics())
            + filter_views(topics@).take(leading_true(valid@) as int),
        if leading_true(valid@) < valid@.len() {
            r is None && final(token).spec_state().is_complete() && final(token).spec_state().error()
                == Some(MqttError::InvalidTopic)
        } else {
            r == Some(pkid) && final(token).spec_state() == old(token).spec_state()
        },
{
    let ghost ts = filter_views(topics@);
    let ghost base = filter_views(token.spec_topics());
    let mut i: usize = 0;
    while i < topics.len()
        invariant
            ts == filter_views(topics@),
            i <= topics@.len(),
            forall|j: int| 0 <= j < i ==> #[trigger] valid@[j],
            filter_views(token.spec_topics()) == base + ts.take(i as int),
            token.spec_state() == old(token).spec_state(),
        decreases topics@.len() - i,
    {
        proof {
            assert(ts[i as int] == topics@[i as int]@);
            lemma_leading_true_step(valid@, i as int);
        }
        if !valid[i] {
            token.set_error(MqttError::InvalidTopic);
            return None;
        }
        let ghost before = token.spec_topics();
        token.add_topic(topics[i].clone());
        proof {
            assert(filter_views(token.spec_topics()) =~= filter_views(before).push(ts[i as int]));
            assert(ts.take(i + 1) =~= ts.take(i as int).push(ts[i as int]));
        }
        i = i + 1;
    }
    proof {
        lemma_leading_true_all(valid@);
        assert(ts.take(ts.len() as int) =~= ts);
    }
    Some(pkid)
}

/// Prepares an unsubscription from the filters `topics`.  When connected it
/// takes a packet identifier, with `entry` as its token; then the filters go
/// onto the token in order, up to the first invalid one.  Returns the
/// identifier for the UNSUBSCRIBE packet, or `None` with the token failed:
/// `ConnectionLost`, `PacketIdError`, or `InvalidTopic` (the identifier stays
/// taken, and the token keeps the valid filters before the invalid one).
#[verifier::loop_isolation(false)]
pub fn begin_unsubscribe<T>(
    status: ConnectStatus,
    pkids: &mut PacketIds<T>,
    entry: T,
    token: &mut UnsubscribeToken,
    topics: &Vec<String>,
) -> (r: Option<u16>)
    ensures
        status != ConnectStatus::Connected ==> {
            &&& r is None
            &&& *final(pkids) == *old(pkids)
            &&& final(token).spec_topics() == old(token).spec_topics()
            &&& final(token).spec_state().is_complete()
            &&& final(token).spec_state().error() == Some(MqttError::ConnectionLost)
        },
        status == ConnectStatus::Connected ==> exists|id: u16|
            {
                &&& #[trigger] old(pkids).issues(*final(pkids), entry, id)
                &&& if id == 0 {
                    r is None && final(token).spec_topics() == old(token).spec_topics() && final(token).spec_state().is_complete() && final(token).spec_state().error() == Some(
                        MqttError::PacketIdError,
                    )
                } else {
                    let n = leading_true(filter_validity(filter_views(topics@))) as int;
                    &&& filter_views(final(token).spec_topics()) == filter_views(
                        old(token).spec_topics(),
                    ) + filter_views(topics@).take(n)
                    &&& if n < topics@.len() {
                        r is None && final(token).spec_state().is_complete() && final(token).spec_state().error() == Some(MqttError::InvalidTopic)
                    } else {
                        r == Some(id) && final(token).spec_state() == old(token).spec_state()
                    }
                }
            },
{
    let pkid = match take_packet_id(status, pkids, entry) {
        Ok(id) => id,
        Err(e) => {
            token.set_error(e);
            return None;
        },
    };
    let ghost vs = filter_validity(filter_views(topics@));
    let mut valid: Vec<bool> = Vec::new();
    let mut i: usize = 0;
    while i < topics.len()
        invariant
            i <= topics@.len(),
            valid@ == vs.take(i as int),
        decreases topics@.len() - i,
    {
        let v = topic_filter_is_valid(topics[i].as_str());
        proof {
            assert(vs[i as int] == v);
        }
        valid.push(v);
        proof {
            assert(vs.take(i + 1) =~= vs.take(i as int).push(v));
        }
        i = i + 1;
    }
    proof {
        assert(valid@ =~= vs);
    }
    settle_unsubscribe(token, pkid, topics, &valid)
}

/// Once a subscription request is sent, its subscriptions go onto the
/// request waiting under `pkid`, after those it had, if `pkid` holds a
/// subscription request; otherwise nothing changes.
pub fn attach_subscriptions<W, H>(pkids: &mut PacketIds<Entry<W, H>>, pkid: u16, subs: Vec<Subscription<H>>)
    ensures
        !holds_subscription(old(pkids)@, pkid) ==> *final(pkids) == *old(pkids),
        holds_subscription(old(pkids)@, pkid) ==> {
            let held = old(pkids)@[pkid];
            &&& final(pkids).last_issued() == old(pkids).last_issued()
            &&& final(pkids)@.dom() == old(pkids)@.dom()
            &&& forall|k: u16| k != pkid && #[trigger] old(pkids)@.contains_key(k) ==> final(pkids)@[k] == old(pkids)@[k]
            &&& final(pkids)@[pkid].waiter == held.waiter
            &&& final(pkids)@[pkid].token matches Token::Subscribe(t)
            &&& held.token matches Token::Subscribe(t0)
            &&& t.spec_subscriptions() == t0.spec_subscriptions() + subs@
            &&& t.spec_results() == t0.spec_results()
            &&& t.spec_state() == t0.spec_state()
        },
{
    let present = match pkids.get_token(pkid) {
        Some(e) => match &e.token {
            Token::Subscribe(_) => true,
            _ => false,
        },
        None => false,
    };
    if !present {
        return;
    }
    match pkids.free_id(&pkid) {
        Some(Entry { waiter, token: Token::Subscribe(t) }) => {
            let mut t = t;
            t.add_subscriptions(subs);
            let _ = pkids.put(pkid, Entry { waiter, token: Token::Subscribe(t) });
            proof {
                assert(pkids@.dom() =~= old(pkids)@.dom());
            }
        },
        _ => {},
    }
}

/// Once an unsubscription request is sent, its filters go onto the request
/// waiting under `pkid`, after those it had, if `pkid` holds an
/// unsubscription request; otherwise nothing changes.
pub fn attach_topics<W, H>(pkids: &mut PacketIds<Entry<W, H>>, pkid: u16, topics: Vec<String>)
    ensures
        !holds_unsubscription(old(pkids)@, pkid) ==> *final(pkids) == *old(pkids),
        holds_unsubscription(old(pkids)@, pkid) ==> {
            let held = old(pkids)@[pkid];
            &&& final(pkids).last_issued() == old(pkids).last_issued()
            &&& final(pkids)@.dom() == old(pkids)@.dom()
            &&& forall|k: u16| k != pkid && #[trigger] old(pkids)@.contains_key(k) ==> final(pkids)@[k] == old(pkids)@[k]
            &&& final(pkids)@[pkid].waiter == held.waiter
            &&& final(pkids)@[pkid].token matches Token::Unsubscribe(t)
            &&& held.token matches Token::Unsubscribe(t0)
            &&& filter_views(t.spec_topics()) == filter_views(t0.spec_topics()) + filter_views(topics@)
            &&& t.spec_state() == t0.spec_state()
        },
{
    let present = match pkids.get_token(pkid) {
        Some(e) => match &e.token {
            Token::Unsubscribe(_) => true,
            _ => false,
        },
        None => false,
    };
    if !present {
        return;
    }
    match pkids.free_id(&pkid) {
        Some(Entry { waiter, token: Token::Unsubscribe(t) }) => {
            let mut t = t;
            let ghost t0 = t;
            let mut i: usize = 0;
            while i < topics.len()
                invariant
                    i <= topics@.len(),
                    filter_views(t.spec_topics()) == filter_views(t0.spec_topics()) + filter_views(topics@).take(i as int),
                    t.spec_state() == t0.spec_state(),
                decreases topics@.len() - i,
            {
                let ghost before = t.spec_topics();
                t.add_topic(topics[i].clone());
                proof {
                    let fv = filter_views(topics@);
                    assert(filter_views(t.spec_topics()) =~= filter_views(before).push(fv[i as int]));
                    assert(fv.take(i + 1) =~= fv.take(i as int).push(fv[i as int]));
                }
                i = i + 1;
            }
            proof {
                assert(filter_views(topics@).take(topics@.len() as int) =~= filter_views(topics@));
            }
            let _ = pkids.put(pkid, Entry { waiter, token: Token::Unsubscribe(t) });
            proof {
                assert(pkids@.dom() =~= old(pkids)@.dom());
            }
        },
        _ => {},
    }
}

/// The will of a connection request.
pub struct LastWillParams {
    pub topic: String,
    pub payload: Vec<u8>,
    pub qos: u8,
    pub retain: bool,
}

/// What the CONNECT packet of a client carries.
pub struct ConnectParams {
    pub client_id: String,
    pub clean_session: bool,
    /// The keep-alive in whole seconds, cut to 16 bits.
    pub keep_alive: u16,
    pub will: Option<LastWillParams>,
    pub username: Option<String>,
    pub password: Option<String>,
}

/// The CONNECT request that `options` call for: the will only when it is
/// enabled, and the user name and password only when they are not empty.
pub fn build_connect_packet(options: &ClientOptions) -> (r: ConnectParams)
    ensures
        r.client_id@ == options@.client_id,
        r.clean_session == options@.clean_session,
        r.keep_alive == (options@.keep_alive_ms / 1000) as u16,
        options@.will_enabled ==> (r.will matches Some(w) && w.topic@ == options@.will_topic
            && w.payload@ == options@.will_payload && w.qos == options@.will_qos.spec_level()
            && w.retain == options@.will_retained),
        !options@.will_enabled ==> r.will is None,
        options@.username.len() == 0 ==> r.username is None,
        options@.username.len() > 0 ==> (r.username matches Some(u) && u@ == options@.username),
        options@.password.len() == 0 ==> r.password is None,
        options@.password.len() > 0 ==> (r.password matches Some(p) && p@ == options@.password),
{
    let secs = options.keep_alive() / 1000;
    let will = if options.will_enabled() {
        let payload = options.will_payload().clone();
        proof {
            assert(payload@ =~= options@.will_payload);
        }
        Some(
            LastWillParams {
                topic: options.will_topic().clone(),
                payload,
                qos: options.will_qos().level(),
                retain: options.will_retained(),
            },
        )
    } else {
        None
    };
    let username = if options.username().as_str().is_empty() {
        None
    } else {
        Some(options.username().clone())
    };
    let password = if options.password().as_str().is_empty() {
        None
    } else {
        Some(options.password().clone())
    };
    ConnectParams {
        client_id: options.client_id().clone(),
        clean_session: options.clean_session(),
        keep_alive: secs as u16,
        will,
        username,
        password,
    }
}

/// What to do when the reconnection timer fires.
#[derive(Debug, Clone, Copy, PartialEq, Eq, Structural)]
pub enum TimerAction {
    /// Nothing this time.
    Continue,
    /// Start a reconnection.
    Reconnect,
    /// Stop waiting: the client was disconnected and does not reconnect.
    Exit,
}

/// What to do once a reconnection attempt has settled.
#[derive(Debug, Clone, Copy, PartialEq, Eq, Structural)]
pub enum ReconnectAction {
    /// It failed: wait for the next one.
    Retry,
    /// It succeeded and the broker kept the session.
    Done,
    /// It succeeded on a fresh session: fail what was in flight, drop the
    /// handlers and subscribe again to every subscription.
    Resubscribe,
}

/// The bookkeeping of the loop that keeps a client connected: the attempts
/// made since the last success, and how many are allowed.
pub struct Reconnector {
    attempts: u16,
    max_attempts: Option<u16>,
}

impl Reconnector {
    pub closed spec fn spec_attempts(&self) -> u16 {
        self.attempts
    }

    pub closed spec fn spec_max_attempts(&self) -> Option<u16> {
        self.max_attempts
    }

    /// No attempt made yet, at most `max_attempts` allowed in a row (no limit
    /// when `None`).
    pub fn new(max_attempts: Option<u16>) -> (r: Self)
        ensures
            r.spec_attempts() == 0,
            r.spec_max_attempts() == max_attempts,
    {
        Reconnector { attempts: 0, max_attempts }
    }

    /// The attempts made since the last success.
    pub fn attempts(&self) -> (r: u16)
        ensures
            r == self.spec_attempts(),
    {
        self.attempts
    }

    /// The loop stops once the attempts in a row reach the limit.
    pub fn exhausted(&self) -> (r: bool)
        ensures
            r == (self.spec_max_attempts() matches Some(m) && self.spec_attempts() >= m),
    {
        match self.max_attempts {
            Some(m) => self.attempts >= m,
            None => false,
        }
    }

    /// When the timer fires: a connected or connecting client, or one that
    /// was disconnected on purpose, waits on; one that lost its connection
    /// reconnects when `auto_reconnect` is set, and the loop ends otherwise.
    pub fn on_timer(status: ConnectStatus, manual_disconnect: bool, auto_reconnect: bool) -> (r: TimerAction)
        ensures
            r == (if status == ConnectStatus::Disconnected && !manual_disconnect {
                if auto_reconnect {
                    TimerAction::Reconnect
                } else {
                    TimerAction::Exit
                }
            } else {
                TimerAction::Continue
            }),
    {
        match status {
            ConnectStatus::Connected => TimerAction::Continue,
            ConnectStatus::Disconnected => {
                if !manual_disconnect {
                    if auto_reconnect {
                        TimerAction::Reconnect
                    } else {
                        TimerAction::Exit
                    }
                } else {
                    TimerAction::Continue
                }
            },
            ConnectStatus::Connecting => TimerAction::Continue,
        }
    }

    /// A reconnection attempt starts.
    pub fn start_attempt(&mut self)
        requires
            old(self).spec_attempts() < u16::MAX,
        ensures
            final(self).spec_attempts() == old(self).spec_attempts() + 1,
            final(self).spec_max_attempts() == old(self).spec_max_attempts(),
    {
        self.attempts = self.attempts + 1;
    }

    /// A reconnection attempt has settled, with or without an error, on a
    /// session the broker kept or not.  A success clears the count.
    pub fn settle_attempt(&mut self, failed: bool, session_present: bool) -> (r: ReconnectAction)
        ensures
            r == (if failed {
                ReconnectAction::Retry
            } else if session_present {
                ReconnectAction::Done
            } else {
                ReconnectAction::Resubscribe
            }),
            final(self).spec_attempts() == if failed {
                old(self).spec_attempts()
            } else {
                0
            },
            final(self).spec_max_attempts() == old(self).spec_max_attempts(),
    {
        if failed {
            return ReconnectAction::Retry;
        }
        self.attempts = 0;
        if !session_present {
            ReconnectAction::Resubscribe
        } else {
            ReconnectAction::Done
        }
    }
}

} // verus!
