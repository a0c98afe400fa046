use crate::error::MqttError;
use crate::pkid::{tokens_below, PacketIds};
use crate::protocol::{QoSWithPacketIdentifier, QualityOfService, SubscribeReturnCode};
use crate::state::State;
use crate::token::{Entry, SubscribeToken, Subscription, Token, UnsubscribeToken};
use crate::topic_table::TopicTable;
use crate::topic_trie::{matching_handlers, split_levels, TopicManager};
use vstd::prelude::*;

verus! {

/// A packet to send back to the broker in answer to one it sent.
#[derive(Debug, Clone, Copy, PartialEq, Eq, Structural)]
pub enum Response {
    Puback(u16),
    Pubrec(u16),
    Pubrel(u16),
    Pubcomp(u16),
}

/// What to do with an incoming PUBLISH: the handlers to run on its message,
/// the answer to send, and whether to hold the packet until its PUBREL.
pub struct PublishOutcome<H> {
    pub handlers: Vec<H>,
    pub response: Option<Response>,
    pub store_pending: bool,
}

/// An incoming PUBLISH on `topic`.  At level 0 its message goes to every
/// matching handler and nothing is answered; at level 1 likewise, answered
/// with PUBACK; at level 2 it is held until its PUBREL and answered with
/// PUBREC, no handler running yet.
pub fn handle_publish<T, H: Copy>(state: &State<T, H>, topic: &str, qos: QoSWithPacketIdentifier) -> (r: PublishOutcome<H>)
    requires
        state.wf(),
    ensures
        match qos {
            QoSWithPacketIdentifier::Level0 => {
                &&& r.handlers@ == matching_handlers(state.topic_manager@, Seq::empty(), split_levels(topic@))
                &&& r.response is None
                &&& !r.store_pending
            },
            QoSWithPacketIdentifier::Level1(id) => {
                &&& r.handlers@ == matching_handlers(state.topic_manager@, Seq::empty(), split_levels(topic@))
                &&& r.response == Some(Response::Puback(id))
                &&& !r.store_pending
            },
            QoSWithPacketIdentifier::Level2(id) => {
                &&& r.handlers@.len() == 0
                &&& r.response == Some(Response::Pubrec(id))
                &&& r.store_pending
            },
        },
{
    match qos {
        QoSWithPacketIdentifier::Level0 => {
            let handlers = state.topic_manager.match_topic(topic);
            PublishOutcome { handlers, response: None, store_pending: false }
        },
        QoSWithPacketIdentifier::Level1(id) => {
            let handlers = state.topic_manager.match_topic(topic);
            PublishOutcome { handlers, response: Some(Response::Puback(id)), store_pending: false }
        },
        QoSWithPacketIdentifier::Level2(id) => {
            PublishOutcome { handlers: Vec::new(), response: Some(Response::Pubrec(id)), store_pending: true }
        },
    }
}

/// `r` hands back the request `before` with its flow ended, its error kept.
pub open spec fn completes<W, H>(r: Option<Entry<W, H>>, before: Entry<W, H>) -> bool {
    r matches Some(e) && e.waiter == before.waiter && e.token.same_request(&before.token)
        && e.token.state().is_complete() && e.token.state().error() == before.token.state().error()
}

/// An incoming PUBACK for `pkid`: the token that waited for it, if any, has
/// its flow ended and is handed back, and the identifier is released.
pub fn handle_puback<W, H: Copy>(state: &mut State<Entry<W, H>, H>, pkid: u16) -> (r: Option<Entry<W, H>>)
    ensures
        release_outcome(*old(state), *final(state), pkid, r),
{
    match state.packet_ids.free_id(&pkid) {
        Some(mut e) => {
            e.token.flow_complete();
            Some(e)
        },
        None => None,
    }
}

/// An incoming PUBREC for `pkid` is answered with PUBREL.
pub fn handle_pubrec(pkid: u16) -> (r: Response)
    ensures
        r == Response::Pubrel(pkid),
{
    Response::Pubrel(pkid)
}

/// An incoming PUBREL for `pkid`, given the topic of the packet held for it
/// (if it was still held): that message goes to every matching handler, and
/// the answer is PUBCOMP.
pub fn handle_pubrel<T, H: Copy>(state: &State<T, H>, pkid: u16, pending_topic: Option<&str>) -> (r: (Vec<H>, Response))
    requires
        state.wf(),
    ensures
        r.1 == Response::Pubcomp(pkid),
        match pending_topic {
            Some(t) => r.0@ == matching_handlers(state.topic_manager@, Seq::empty(), split_levels(t@)),
            None => r.0@.len() == 0,
        },
{
    let handlers = match pending_topic {
        Some(topic) => state.topic_manager.match_topic(topic),
        None => Vec::new(),
    };
    (handlers, Response::Pubcomp(pkid))
}

/// An incoming PUBCOMP for `pkid`: as for PUBACK, the token that waited for
/// it, if any, has its flow ended and is handed back, and the identifier is
/// released.
pub fn handle_pubcomp<W, H: Copy>(state: &mut State<Entry<W, H>, H>, pkid: u16) -> (r: Option<Entry<W, H>>)
    ensures
        release_outcome(*old(state), *final(state), pkid, r),
{
    match state.packet_ids.free_id(&pkid) {
        Some(mut e) => {
            e.token.flow_complete();
            Some(e)
        },
        None => None,
    }
}

/// The first `n` answers of a SUBACK settle the subscriptions `subs` of its
/// request one by one: the token records each answer, and each granted one
/// (its position within `subs`, the answer other than `Failure`) adds its
/// handler to the manager and its subscription to the table.  `ms`, `ts`,
/// `rs` are the manager, table and answers before each step, and after the
/// last.
pub open spec fn suback_steps<H: Copy>(
    subs: Seq<Subscription<H>>,
    codes: Seq<SubscribeReturnCode>,
    ms: Seq<TopicManager<H>>,
    ts: Seq<Map<Seq<char>, Subscription<H>>>,
    rs: Seq<Map<Seq<char>, SubscribeReturnCode>>,
) -> bool {
    &&& ms.len() == codes.len() + 1
    &&& ts.len() == codes.len() + 1
    &&& rs.len() == codes.len() + 1
    &&& forall|i: int|
        0 <= i < codes.len() ==> {
            let granted = i < subs.len() && codes[i] != SubscribeReturnCode::Failure;
            &&& (#[trigger] rs[i + 1]) == if i < subs.len() {
                rs[i].insert(subs[i].topic@, codes[i])
            } else {
                rs[i]
            }
            &&& if granted {
                &&& ms[i].adds(ms[i + 1], split_levels(subs[i].topic@), subs[i].handler)
                &&& ts[i + 1] == ts[i].insert(subs[i].topic@, subs[i])
            } else {
                &&& ms[i + 1] == ms[i]
                &&& ts[i + 1] == ts[i]
            }
        }
}

/// The answers `codes` of a SUBACK settle the subscription token `token`:
/// the answers are recorded and the granted subscriptions installed, in
/// order (see `suback_steps`), and the token completes.
#[verifier::spinoff_prover]
#[verifier::rlimit(40)]
pub fn settle_suback<T, H: Copy>(
    state: &mut State<T, H>,
    token: &mut SubscribeToken<H>,
    codes: &Vec<SubscribeReturnCode>,
)
    requires
        old(state).wf(),
        old(token).wf(),
    ensures
        final(state).wf(),
        final(token).wf(),
        final(state).packet_ids == old(state).packet_ids,
        final(token).spec_subscriptions() == old(token).spec_subscriptions(),
        final(token).spec_state().is_complete(),
        final(token).spec_state().error() == old(token).spec_state().error(),
        exists|ms: Seq<TopicManager<H>>,
            ts: Seq<Map<Seq<char>, Subscription<H>>>,
            rs: Seq<Map<Seq<char>, SubscribeReturnCode>>|
            {
                &&& #[trigger] suback_steps(old(token).spec_subscriptions(), codes@, ms, ts, rs)
                &&& ms[0] == old(state).topic_manager
                &&& ms.last() == final(state).topic_manager
                &&& ts[0] == old(state).subscriptions@
                &&& ts.last() == final(state).subscriptions@
                &&& rs[0] == old(token).spec_results()
                &&& rs.last() == final(token).spec_results()
            },
{
    let ghost subs = token.spec_subscriptions();
    let ghost mut ms: Seq<TopicManager<H>> = seq![state.topic_manager];
    let ghost mut ts: Seq<Map<Seq<char>, Subscription<H>>> = seq![state.subscriptions@];
    let ghost mut rs: Seq<Map<Seq<char>, SubscribeReturnCode>> = seq![token.spec_results()];
    let mut i: usize = 0;
    while i < codes.len()
        invariant
            i <= codes@.len(),
            state.wf(),
            token.wf(),
            state.packet_ids == old(state).packet_ids,
            token.spec_subscriptions() == subs,
            subs == old(token).spec_subscriptions(),
            token.spec_state() == old(token).spec_state(),
            suback_steps(subs, codes@.take(i as int), ms, ts, rs),
            ms[0] == old(state).topic_manager,
            ms.last() == state.topic_manager,
            ts[0] == old(state).subscriptions@,
            ts.last() == state.subscriptions@,
            rs[0] == old(token).spec_results(),
            rs.last() == token.spec_results(),
        decreases codes@.len() - i,
    {
        let code = codes[i];
        token.set_result(i, code);
        let ghost m0 = state.topic_manager;
        let ghost t0 = state.subscriptions@;
        match token.get_subscription(i) {
            Some(sub) => {
                if code != SubscribeReturnCode::Failure {
                    state.topic_manager.add((sub.topic.as_str(), sub.handler));
                    state.subscriptions.insert(
                        sub.topic.clone(),
                        Subscription::new(sub.topic.clone(), sub.qos, sub.handler),
                    );
                }
            },
            None => {},
        }
        proof {
            let ms2 = ms.push(state.topic_manager);
            let ts2 = ts.push(state.subscriptions@);
            let rs2 = rs.push(token.spec_results());
            let c2 = codes@.take(i + 1);
            assert forall|j: int| 0 <= j < c2.len() implies {
                let granted = j < subs.len() && c2[j] != SubscribeReturnCode::Failure;
                &&& (#[trigger] rs2[j + 1]) == if j < subs.len() {
                    rs2[j].insert(subs[j].topic@, c2[j])
                } else {
                    rs2[j]
                }
                &&& if granted {
                    &&& ms2[j].adds(ms2[j + 1], split_levels(subs[j].topic@), subs[j].handler)
                    &&& ts2[j + 1] == ts2[j].insert(subs[j].topic@, subs[j])
                } else {
                    &&& ms2[j + 1] == ms2[j]
                    &&& ts2[j + 1] == ts2[j]
                }
            } by {
                if j < i {
                    assert(codes@.take(i as int)[j] == c2[j]);
                    assert(rs[j + 1] == rs2[j + 1]);
                    assert(ms[j + 1] == ms2[j + 1]);
                    assert(ts[j + 1] == ts2[j + 1]);
                } else {
                    assert(j == i);
                    assert(c2[j] == code);
                    assert(rs2[j] == rs.last());
                    assert(ms2[j] == m0);
                    assert(ts2[j] == t0);
                }
            }
            assert(ms2.len() == c2.len() + 1);
            assert(ts2.len() == c2.len() + 1);
            assert(rs2.len() == c2.len() + 1);
            assert(suback_steps(subs, c2, ms2, ts2, rs2));
            ms = ms2;
            ts = ts2;
            rs = rs2;
        }
        i = i + 1;
    }
    token.flow_complete();
    proof {
        assert(codes@.take(codes@.len() as int) =~= codes@);
    }
}

/// The removals of the filters `topics`, one after the other: `ms` holds the
/// manager before each and after the last.
pub open spec fn unsuback_steps<H: Copy>(topics: Seq<String>, ms: Seq<TopicManager<H>>) -> bool {
    &&& ms.len() == topics.len() + 1
    &&& forall|i: int|
        0 <= i < topics.len() ==> #[trigger] ms[i].removes(
            ms[i + 1],
            split_levels(topics[i]@),
            ms[i].has_filter_node(split_levels(topics[i]@)),
        )
}

/// An UNSUBACK settles the unsubscription token `token`: each of its filters
/// is removed from the manager in order, and the token completes.
pub fn settle_unsuback<T, H: Copy>(state: &mut State<T, H>, token: &mut UnsubscribeToken)
    requires
        old(state).wf(),
    ensures
        final(state).wf(),
        final(state).packet_ids == old(state).packet_ids,
        final(state).subscriptions == old(state).subscriptions,
        final(token).spec_topics() == old(token).spec_topics(),
        final(token).spec_state().is_complete(),
        final(token).spec_state().error() == old(token).spec_state().error(),
        exists|ms: Seq<TopicManager<H>>|
            {
                &&& #[trigger] unsuback_steps(old(token).spec_topics(), ms)
                &&& ms[0] == old(state).topic_manager
                &&& ms.last() == final(state).topic_manager
            },
{
    let topics = token.topics();
    let ghost tv = old(token).spec_topics();
    let ghost mut ms: Seq<TopicManager<H>> = seq![state.topic_manager];
    let mut i: usize = 0;
    while i < topics.len()
        invariant
            i <= topics@.len(),
            topics@.len() == tv.len(),
            forall|j: int| 0 <= j < topics@.len() ==> (#[trigger] topics@[j])@ == tv[j]@,
            state.wf(),
            state.packet_ids == old(state).packet_ids,
            state.subscriptions == old(state).subscriptions,
            ms.len() == i + 1,
            forall|j: int|
                0 <= j < i ==> #[trigger] ms[j].removes(
                    ms[j + 1],
                    split_levels(tv[j]@),
                    ms[j].has_filter_node(split_levels(tv[j]@)),
                ),
            ms[0] == old(state).topic_manager,
            ms.last() == state.topic_manager,
        decreases topics@.len() - i,
    {
        let ghost before = state.topic_manager;
        let found = state.topic_manager.remove(topics[i].as_str());
        proof {
            assert(topics@[i as int]@ == tv[i as int]@);
            let ms2 = ms.push(state.topic_manager);
            assert forall|j: int| 0 <= j < i + 1 implies #[trigger] ms2[j].removes(
                ms2[j + 1],
                split_levels(tv[j]@),
                ms2[j].has_filter_node(split_levels(tv[j]@)),
            ) by {
                if j < i {
                    assert(ms2[j] == ms[j]);
                    assert(ms2[j + 1] == ms[j + 1]);
                    assert(ms[j].removes(ms[j + 1], split_levels(tv[j]@), ms[j].has_filter_node(split_levels(tv[j]@))));
                }
            }
            ms = ms2;
        }
        i = i + 1;
    }
    proof {
        assert(unsuback_steps(tv, ms));
    }
    token.flow_complete();
}

/// Whether `pkid` holds a subscription request.
pub open spec fn holds_subscription<W, H>(m: Map<u16, Entry<W, H>>, pkid: u16) -> bool {
    m.contains_key(pkid) && m[pkid].token is Subscribe
}

/// Whether `pkid` holds an unsubscription request.
pub open spec fn holds_unsubscription<W, H>(m: Map<u16, Entry<W, H>>, pkid: u16) -> bool {
    m.contains_key(pkid) && m[pkid].token is Unsubscribe
}

/// What a SUBACK for `pkid` with the answers `codes` does, from `before` to
/// `after`, handing back `r`: when `pkid` holds a subscription request, the
/// answers are recorded and the granted subscriptions installed in order
/// (see `suback_steps`), the request completes and is handed back, and
/// `pkid` is released; otherwise nothing changes.
pub open spec fn suback_outcome<W, H: Copy>(
    before: State<Entry<W, H>, H>,
    after: State<Entry<W, H>, H>,
    pkid: u16,
    codes: Seq<SubscribeReturnCode>,
    r: Option<Entry<W, H>>,
) -> bool {
    if !holds_subscription(before.packet_ids@, pkid) {
        r is None && after == before
    } else {
        let held = before.packet_ids@[pkid];
        &&& after.packet_ids@ == before.packet_ids@.remove(pkid)
        &&& after.packet_ids.last_issued() == before.packet_ids.last_issued()
        &&& r matches Some(e)
        &&& e.waiter == held.waiter
        &&& e.token matches Token::Subscribe(t)
        &&& held.token matches Token::Subscribe(t0)
        &&& t.wf()
        &&& t.spec_subscriptions() == t0.spec_subscriptions()
        &&& t.spec_state().is_complete()
        &&& t.spec_state().error() == t0.spec_state().error()
        &&& exists|ms: Seq<TopicManager<H>>,
            ts: Seq<Map<Seq<char>, Subscription<H>>>,
            rs: Seq<Map<Seq<char>, SubscribeReturnCode>>|
            {
                &&& #[trigger] suback_steps(t0.spec_subscriptions(), codes, ms, ts, rs)
                &&& ms[0] == before.topic_manager
                &&& ms.last() == after.topic_manager
                &&& ts[0] == before.subscriptions@
                &&& ts.last() == after.subscriptions@
                &&& rs[0] == t0.spec_results()
                &&& rs.last() == t.spec_results()
            }
    }
}

/// What an UNSUBACK for `pkid` does, from `before` to `after`, handing back
/// `r`: when `pkid` holds an unsubscription request, its filters are removed
/// from the manager in order, the request completes and is handed back, and
/// `pkid` is released; otherwise nothing changes.
pub open spec fn unsuback_outcome<W, H: Copy>(
    before: State<Entry<W, H>, H>,
    after: State<Entry<W, H>, H>,
    pkid: u16,
    r: Option<Entry<W, H>>,
) -> bool {
    if !holds_unsubscription(before.packet_ids@, pkid) {
        r is None && after == before
    } else {
        let held = before.packet_ids@[pkid];
        &&& after.packet_ids@ == before.packet_ids@.remove(pkid)
        &&& after.packet_ids.last_issued() == before.packet_ids.last_issued()
        &&& after.subscriptions == before.subscriptions
        &&& r matches Some(e)
        &&& e.waiter == held.waiter
        &&& e.token matches Token::Unsubscribe(t)
        &&& held.token matches Token::Unsubscribe(t0)
        &&& t.spec_topics() == t0.spec_topics()
        &&& t.spec_state().is_complete()
        &&& t.spec_state().error() == t0.spec_state().error()
        &&& exists|ms: Seq<TopicManager<H>>|
            {
                &&& #[trigger] unsuback_steps(t0.spec_topics(), ms)
                &&& ms[0] == before.topic_manager
                &&& ms.last() == after.topic_manager
            }
    }
}

/// An incoming SUBACK for `pkid` with one answer per filter: see
/// `suback_outcome`.
pub fn handle_suback<W, H: Copy>(
    state: &mut State<Entry<W, H>, H>,
    pkid: u16,
    codes: &Vec<SubscribeReturnCode>,
) -> (r: Option<Entry<W, H>>)
    requires
        old(state).wf(),
    ensures
        final(state).wf(),
        suback_outcome(*old(state), *final(state), pkid, codes@, r),
{
    let present = match state.packet_ids.get_token(pkid) {
        Some(e) => match &e.token {
            Token::Subscribe(_) => true,
            _ => false,
        },
        None => false,
    };
    if !present {
        return None;
    }
    match state.packet_ids.free_id(&pkid) {
        Some(Entry { waiter, token: Token::Subscribe(t) }) => {
            let mut t = t;
            t.well_formed();
            settle_suback(state, &mut t, codes);
            Some(Entry { waiter, token: Token::Subscribe(t) })
        },
        _ => None,
    }
}

/// An incoming UNSUBACK for `pkid`: see `unsuback_outcome`.
pub fn handle_unsuback<W, H: Copy>(state: &mut State<Entry<W, H>, H>, pkid: u16) -> (r: Option<Entry<W, H>>)
    requires
        old(state).wf(),
    ensures
        final(state).wf(),
        unsuback_outcome(*old(state), *final(state), pkid, r),
{
    let present = match state.packet_ids.get_token(pkid) {
        Some(e) => match &e.token {
            Token::Unsubscribe(_) => true,
            _ => false,
        },
        None => false,
    };
    if !present {
        return None;
    }
    match state.packet_ids.free_id(&pkid) {
        Some(Entry { waiter, token: Token::Unsubscribe(t) }) => {
            let mut t = t;
            settle_unsuback(state, &mut t);
            Some(Entry { waiter, token: Token::Unsubscribe(t) })
        },
        _ => None,
    }
}

/// Nothing to do for a DISCONNECT from the broker: the loop that reads
/// packets stops there.
pub fn handle_disconnect() {
}

/// Nothing to do for a PINGRESP.
pub fn handle_pingresp() {
}

/// Once an outgoing packet is written, the flow of its token ends when
/// nothing more will come for it: a publication at level 0, a
/// disconnection.
pub fn outgoing_sent<H>(token: &mut Token<H>)
    ensures
        final(token).same_request(old(token)),
        final(token).state().error() == old(token).state().error(),
        final(token).state().is_complete() == (old(token).state().is_complete() || match *old(
            token,
        ) {
            Token::Publish(t) => t.spec_qos() == QualityOfService::Level0,
            Token::Disconnect(_) => true,
            _ => false,
        }),
{
    match token {
        Token::Publish(t) => {
            if t.qos() == QualityOfService::Level0 {
                t.flow_complete();
            }
        },
        Token::Disconnect(t) => {
            t.flow_complete();
        },
        _ => {},
    }
}

/// What the keep-alive loop does next.
#[derive(Debug, Clone, Copy, PartialEq, Eq, Structural)]
pub enum KeepAliveStep {
    /// Send a PINGREQ, then wait a whole period.
    SendPing,
    /// Wait this many milliseconds, then look again.
    Wait(u64),
}

/// With `elapsed_ms` since the last packet sent and a keep-alive period of
/// `period_ms`: a ping is due once a whole period has passed, else wait out
/// the rest of it.
pub fn keep_alive_step(elapsed_ms: u64, period_ms: u64) -> (r: KeepAliveStep)
    ensures
        r == (if elapsed_ms >= period_ms {
            KeepAliveStep::SendPing
        } else {
            KeepAliveStep::Wait((period_ms - elapsed_ms) as u64)
        }),
{
    if elapsed_ms >= period_ms {
        KeepAliveStep::SendPing
    } else {
        KeepAliveStep::Wait(period_ms - elapsed_ms)
    }
}

/// After a reconnection on a fresh session: every identifier is released and
/// its token fails with `ConnectionLost` and is handed back (in increasing
/// order of identifier),
/// the handlers are dropped (the nodes of the trie stay), and the
/// subscriptions are listed, in the table's order, to be made again.
pub fn begin_resume<W, H: Copy>(state: &mut State<Entry<W, H>, H>) -> (r: (Vec<Entry<W, H>>, Vec<(String, QualityOfService, H)>))
    requires
        old(state).wf(),
    ensures
        final(state).wf(),
        final(state).packet_ids@ == Map::<u16, Entry<W, H>>::empty(),
        final(state).packet_ids.last_issued() == old(state).packet_ids.last_issued(),
        r.0@.len() == tokens_below(old(state).packet_ids@, 65536).len(),
        forall|i: int|
            0 <= i < r.0@.len() ==> {
                let before = tokens_below(old(state).packet_ids@, 65536)[i];
                &&& (#[trigger] r.0@[i]).waiter == before.waiter
                &&& r.0@[i].token.same_request(&before.token)
                &&& r.0@[i].token.state().is_complete()
                &&& r.0@[i].token.state().error() == Some(MqttError::ConnectionLost)
            },
        final(state).topic_manager@ == Map::<Seq<Seq<char>>, Seq<H>>::empty(),
        forall|f: Seq<Seq<char>>|
            #[trigger] final(state).topic_manager.has_filter_node(f)
                == old(state).topic_manager.has_filter_node(f),
        final(state).subscriptions == old(state).subscriptions,
        r.1@.len() == old(state).subscriptions.spec_entries().len(),
        forall|i: int|
            0 <= i < r.1@.len() ==> {
                let s = old(state).subscriptions.spec_entries()[i].1;
                &&& (#[trigger] r.1@[i]).0@ == s.topic@
                &&& r.1@[i].1 == s.qos
                &&& r.1@[i].2 == s.handler
            },
{
    let tokens = state.packet_ids.clean_up();
    let entries = state.subscriptions.entries();
    let mut subs: Vec<(String, QualityOfService, H)> = Vec::new();
    let mut i: usize = 0;
    while i < entries.len()
        invariant
            i <= entries@.len(),
            entries@ == state.subscriptions.spec_entries(),
            subs@.len() == i,
            forall|j: int|
                0 <= j < i ==> {
                    let s = entries@[j].1;
                    &&& (#[trigger] subs@[j]).0@ == s.topic@
                    &&& subs@[j].1 == s.qos
                    &&& subs@[j].2 == s.handler
                },
        decreases entries@.len() - i,
    {
        let s = &entries[i].1;
        subs.push((s.topic.clone(), s.qos, s.handler));
        i = i + 1;
    }
    state.topic_manager.clear();
    (tokens, subs)
}

/// A packet from the broker, as the loop that answers them sees it: a
/// PUBLISH with its topic and level, a PUBREL with the topic of the packet
/// held for it (if it was still held), a SUBACK with its answers, or a packet
/// of another kind with its identifier where it has one.
pub enum Incoming<'a> {
    Publish { topic: &'a str, qos: QoSWithPacketIdentifier },
    Puback(u16),
    Pubrec(u16),
    Pubrel { pkid: u16, pending_topic: Option<&'a str> },
    Pubcomp(u16),
    Suback { pkid: u16, codes: &'a Vec<SubscribeReturnCode> },
    Unsuback(u16),
    Disconnect,
    Pingresp,
    /// A packet the client does not take from the broker.
    Unsupported,
}

/// What the loop does with one packet from the broker.
pub enum Step<W, H> {
    /// A PUBLISH: run the handlers, hold the packet if asked, send the
    /// answer if there is one, and go on.
    Deliver(PublishOutcome<H>),
    /// Send the answer and go on.
    Answer(Response),
    /// A PUBREL: run the handlers on the held message, send the answer and go on.
    Release { handlers: Vec<H>, response: Response },
    /// The flow of a request ended: the request, if one was waiting, is
    /// handed back completed; go on.
    Completed(Option<Entry<W, H>>),
    /// Nothing to do; go on.
    Continue,
    /// Stop reading: the broker disconnected, or sent what the client does
    /// not take.
    Stop,
}

/// What a PUBACK or PUBCOMP for `id` does, from `before` to `after`, handing
/// back `r`: the request under `id`, if any, completes and is handed back,
/// and `id` is released.
pub open spec fn release_outcome<W, H>(
    before: State<Entry<W, H>, H>,
    after: State<Entry<W, H>, H>,
    id: u16,
    r: Option<Entry<W, H>>,
) -> bool {
    &&& after.packet_ids@ == before.packet_ids@.remove(id)
    &&& after.packet_ids.last_issued() == before.packet_ids.last_issued()
    &&& after.topic_manager == before.topic_manager
    &&& after.subscriptions == before.subscriptions
    &&& !before.packet_ids@.contains_key(id) ==> r is None
    &&& before.packet_ids@.contains_key(id) ==> completes(r, before.packet_ids@[id])
}

/// The loop's decision on one packet from the broker, each kind as its own
/// function decides: the answers to PUBLISH, PUBREC and PUBREL, the
/// completions on PUBACK, PUBCOMP, SUBACK and UNSUBACK; nothing for
/// PINGRESP; and a stop on DISCONNECT or an unsupported packet.
pub fn on_incoming<W, H: Copy>(state: &mut State<Entry<W, H>, H>, packet: Incoming) -> (r: Step<W, H>)
    requires
        old(state).wf(),
    ensures
        final(state).wf(),
        match packet {
            Incoming::Publish { topic, qos } => *final(state) == *old(state) && (r matches Step::Deliver(o) && match qos {
                QoSWithPacketIdentifier::Level0 => {
                    &&& o.handlers@ == matching_handlers(old(state).topic_manager@, Seq::empty(), split_levels(topic@))
                    &&& o.response is None
                    &&& !o.store_pending
                },
                QoSWithPacketIdentifier::Level1(id) => {
                    &&& o.handlers@ == matching_handlers(old(state).topic_manager@, Seq::empty(), split_levels(topic@))
                    &&& o.response == Some(Response::Puback(id))
                    &&& !o.store_pending
                },
                QoSWithPacketIdentifier::Level2(id) => {
                    &&& o.handlers@.len() == 0
                    &&& o.response == Some(Response::Pubrec(id))
                    &&& o.store_pending
                },
            }),
            Incoming::Pubrec(id) => *final(state) == *old(state) && r == Step::<W, H>::Answer(Response::Pubrel(id)),
            Incoming::Pubrel { pkid, pending_topic } => *final(state) == *old(state) && (r matches Step::Release { handlers, response }
                && response == Response::Pubcomp(pkid) && match pending_topic {
                Some(t) => handlers@ == matching_handlers(old(state).topic_manager@, Seq::empty(), split_levels(t@)),
                None => handlers@.len() == 0,
            }),
            Incoming::Puback(id) | Incoming::Pubcomp(id) => r matches Step::Completed(e) && release_outcome(*old(state), *final(state), id, e),
            Incoming::Suback { pkid, codes } => r matches Step::Completed(e) && suback_outcome(*old(state), *final(state), pkid, codes@, e),
            Incoming::Unsuback(pkid) => r matches Step::Completed(e) && unsuback_outcome(*old(state), *final(state), pkid, e),
            Incoming::Pingresp => *final(state) == *old(state) && r is Continue,
            Incoming::Disconnect | Incoming::Unsupported => *final(state) == *old(state) && r is Stop,
        },
{
    match packet {
        Incoming::Publish { topic, qos } => Step::Deliver(handle_publish(state, topic, qos)),
        Incoming::Puback(id) => Step::Completed(handle_puback(state, id)),
        Incoming::Pubrec(id) => Step::Answer(handle_pubrec(id)),
        Incoming::Pubrel { pkid, pending_topic } => {
            let (handlers, response) = handle_pubrel(state, pkid, pending_topic);
            Step::Release { handlers, response }
        },
        Incoming::Pubcomp(id) => Step::Completed(handle_pubcomp(state, id)),
        Incoming::Suback { pkid, codes } => Step::Completed(handle_suback(state, pkid, codes)),
        Incoming::Unsuback(pkid) => Step::Completed(handle_unsuback(state, pkid)),
        Incoming::Disconnect => {
            handle_disconnect();
            Step::Stop
        },
        Incoming::Pingresp => {
            handle_pingresp();
            Step::Continue
        },
        Incoming::Unsupported => Step::Stop,
    }
}

} // verus!
