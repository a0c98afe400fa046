use crate::error::{MqttError, TokenError};
use crate::protocol::{ConnectReturnCode, QualityOfService, SubscribeReturnCode};
use crate::topic_table::TopicTable;
use vstd::prelude::*;

verus! {

/// Whether the flow of a request has ended, and the error it ended with.
pub struct TokenState {
    complete: bool,
    error: Option<MqttError>,
}

impl TokenState {
    /// The flow has ended.
    pub closed spec fn is_complete(&self) -> bool {
        self.complete
    }

    /// The error the flow ended with, if any.
    pub closed spec fn error(&self) -> Option<MqttError> {
        self.error
    }

    /// A flow still under way.
    pub fn new() -> (r: Self)
        ensures
            !r.is_complete(),
            r.error() is None,
    {
        TokenState { complete: false, error: None }
    }

    /// Ends the flow with `error`.
    pub fn set_error(&mut self, error: MqttError)
        ensures
            final(self).is_complete(),
            final(self).error() == Some(error),
        no_unwind
    {
        self.error = Some(error);
        self.complete = true;
    }

    /// Ends the flow, keeping whatever error it had.
    pub fn flow_complete(&mut self)
        ensures
            final(self).is_complete(),
            final(self).error() == old(self).error(),
        no_unwind
    {
        self.complete = true;
    }

    /// What waiting on the token gives: nothing yet while the flow is under
    /// way; once it has ended, the error it ended with, as a token error.
    pub fn poll(&self) -> (r: Option<Option<TokenError>>)
        ensures
            !self.is_complete() ==> r is None,
            self.is_complete() ==> match self.error() {
                None => r == Some(None::<TokenError>),
                Some(e) => r matches Some(Some(t)) && t.reports(e),
            },
    {
        if self.complete {
            match &self.error {
                None => Some(None),
                Some(e) => Some(Some(TokenError::from(e))),
            }
        } else {
            None
        }
    }
}

/// The token of a connection request.
pub struct ConnectToken {
    return_code: ConnectReturnCode,
    session_present: bool,
    state: TokenState,
}

impl ConnectToken {
    pub closed spec fn spec_return_code(&self) -> ConnectReturnCode {
        self.return_code
    }

    pub closed spec fn spec_session_present(&self) -> bool {
        self.session_present
    }

    pub closed spec fn spec_state(&self) -> TokenState {
        self.state
    }

    /// A token under way, with the code "connection accepted" and no session.
    pub fn new() -> (r: Self)
        ensures
            r.spec_return_code() == ConnectReturnCode::ConnectionAccepted,
            !r.spec_session_present(),
            !r.spec_state().is_complete(),
            r.spec_state().error() is None,
    {
        ConnectToken {
            return_code: ConnectReturnCode::ConnectionAccepted,
            session_present: false,
            state: TokenState::new(),
        }
    }

    pub fn set_return_code(&mut self, code: ConnectReturnCode)
        ensures
            final(self).spec_return_code() == code,
            final(self).spec_session_present() == old(self).spec_session_present(),
            final(self).spec_state() == old(self).spec_state(),
    {
        self.return_code = code;
    }

    pub fn set_session_present(&mut self)
        ensures
            final(self).spec_return_code() == old(self).spec_return_code(),
            final(self).spec_session_present(),
            final(self).spec_state() == old(self).spec_state(),
    {
        self.session_present = true;
    }

    /// The code the broker answered with.
    pub fn return_code(&self) -> (r: ConnectReturnCode)
        ensures
            r == self.spec_return_code(),
    {
        self.return_code
    }

    /// Whether the broker kept a session for the client.
    pub fn session_present(&self) -> (r: bool)
        ensures
            r == self.spec_session_present(),
    {
        self.session_present
    }

    pub fn set_error(&mut self, error: MqttError)
        ensures
            final(self).spec_return_code() == old(self).spec_return_code(),
            final(self).spec_session_present() == old(self).spec_session_present(),
            final(self).spec_state().is_complete(),
            final(self).spec_state().error() == Some(error),
    {
        self.state.set_error(error);
    }

    pub fn flow_complete(&mut self)
        ensures
            final(self).spec_return_code() == old(self).spec_return_code(),
            final(self).spec_session_present() == old(self).spec_session_present(),
            final(self).spec_state().is_complete(),
            final(self).spec_state().error() == old(self).spec_state().error(),
    {
        self.state.flow_complete();
    }

    /// See `TokenState::poll`.
    pub fn poll(&self) -> (r: Option<Option<TokenError>>)
        ensures
            !self.spec_state().is_complete() ==> r is None,
            self.spec_state().is_complete() ==> match self.spec_state().error() {
                None => r == Some(None::<TokenError>),
                Some(e) => r matches Some(Some(t)) && t.reports(e),
            },
    {
        self.state.poll()
    }
}

/// The token of a disconnection request.
pub struct DisconnectToken {
    state: TokenState,
}

impl DisconnectToken {
    pub closed spec fn spec_state(&self) -> TokenState {
        self.state
    }

    pub fn new() -> (r: Self)
        ensures
            !r.spec_state().is_complete(),
            r.spec_state().error() is None,
    {
        DisconnectToken { state: TokenState::new() }
    }

    pub fn set_error(&mut self, error: MqttError)
        ensures
            final(self).spec_state().is_complete(),
            final(self).spec_state().error() == Some(error),
    {
        self.state.set_error(error);
    }

    pub fn flow_complete(&mut self)
        ensures
            final(self).spec_state().is_complete(),
            final(self).spec_state().error() == old(self).spec_state().error(),
    {
        self.state.flow_complete();
    }

    /// See `TokenState::poll`.
    pub fn poll(&self) -> (r: Option<Option<TokenError>>)
        ensures
            !self.spec_state().is_complete() ==> r is None,
            self.spec_state().is_complete() ==> match self.spec_state().error() {
                None => r == Some(None::<TokenError>),
                Some(e) => r matches Some(Some(t)) && t.reports(e),
            },
    {
        self.state.poll()
    }
}

/// The token of a publication.
pub struct PublishToken {
    qos: QualityOfService,
    state: TokenState,
}

impl PublishToken {
    pub closed spec fn spec_qos(&self) -> QualityOfService {
        self.qos
    }

    pub closed spec fn spec_state(&self) -> TokenState {
        self.state
    }

    /// A token under way for a publication at level 0.
    pub fn new() -> (r: Self)
        ensures
            r.spec_qos() == QualityOfService::Level0,
            !r.spec_state().is_complete(),
            r.spec_state().error() is None,
    {
        PublishToken { qos: QualityOfService::Level0, state: TokenState::new() }
    }

    pub fn set_qos(&mut self, qos: QualityOfService)
        ensures
            final(self).spec_qos() == qos,
            final(self).spec_state() == old(self).spec_state(),
    {
        self.qos = qos;
    }

    pub fn qos(&self) -> (r: QualityOfService)
        ensures
            r == self.spec_qos(),
    {
        self.qos
    }

    pub fn set_error(&mut self, error: MqttError)
        ensures
            final(self).spec_qos() == old(self).spec_qos(),
            final(self).spec_state().is_complete(),
            final(self).spec_state().error() == Some(error),
    {
        self.state.set_error(error);
    }

    pub fn flow_complete(&mut self)
        ensures
            final(self).spec_qos() == old(self).spec_qos(),
            final(self).spec_state().is_complete(),
            final(self).spec_state().error() == old(self).spec_state().error(),
    {
        self.state.flow_complete();
    }

    /// See `TokenState::poll`.
    pub fn poll(&self) -> (r: Option<Option<TokenError>>)
        ensures
            !self.spec_state().is_complete() ==> r is None,
            self.spec_state().is_complete() ==> match self.spec_state().error() {
                None => r == Some(None::<TokenError>),
                Some(e) => r matches Some(Some(t)) && t.reports(e),
            },
    {
        self.state.poll()
    }
}

/// A subscription: a topic filter, the level asked for, and the handler of
/// the messages that match.
pub struct Subscription<H> {
    pub topic: String,
    pub qos: QualityOfService,
    pub handler: H,
}

impl<H> Subscription<H> {
    pub fn new(topic: String, qos: QualityOfService, handler: H) -> (r: Self)
        ensures
            r.topic == topic,
            r.qos == qos,
            r.handler == handler,
    {
        Subscription { topic, qos, handler }
    }
}

/// The token of a subscription request: the filters asked for, in order, and
/// the broker's answer for each.
pub struct SubscribeToken<H> {
    subscriptions: Vec<Subscription<H>>,
    results: TopicTable<SubscribeReturnCode>,
    state: TokenState,
}

impl<H> SubscribeToken<H> {
    pub closed spec fn spec_subscriptions(&self) -> Seq<Subscription<H>> {
        self.subscriptions@
    }

    /// The answers recorded so far, by filter.
    pub closed spec fn spec_results(&self) -> Map<Seq<char>, SubscribeReturnCode> {
        self.results@
    }

    pub closed spec fn spec_state(&self) -> TokenState {
        self.state
    }

    pub closed spec fn wf(&self) -> bool {
        self.results.wf()
    }

    #[verifier::type_invariant]
    spec fn results_distinct(self) -> bool {
        self.results.wf()
    }

    /// Every subscription token is well formed; this makes it known here.
    pub fn well_formed(&self)
        ensures
            self.wf(),
    {
        proof {
            use_type_invariant(self);
        }
    }

    pub fn new() -> (r: Self)
        ensures
            r.wf(),
            r.spec_subscriptions().len() == 0,
            r.spec_results() == Map::<Seq<char>, SubscribeReturnCode>::empty(),
            !r.spec_state().is_complete(),
            r.spec_state().error() is None,
    {
        SubscribeToken {
            subscriptions: Vec::new(),
            results: TopicTable::new(),
            state: TokenState::new(),
        }
    }

    /// Appends the subscriptions asked for, in order.
    pub fn add_subscriptions(&mut self, subscriptions: Vec<Subscription<H>>)
        ensures
            final(self).wf(),
            final(self).spec_subscriptions() == old(self).spec_subscriptions()
                + subscriptions@,
            final(self).spec_results() == old(self).spec_results(),
            final(self).spec_state() == old(self).spec_state(),
    {
        proof {
            use_type_invariant(&*self);
        }
        let mut subscriptions = subscriptions;
        let mut all: Vec<Subscription<H>> = Vec::new();
        std::mem::swap(&mut all, &mut self.subscriptions);
        all.append(&mut subscriptions);
        std::mem::swap(&mut all, &mut self.subscriptions);
    }

    /// The subscription asked for at position `index`, if there is one.
    pub fn get_subscription(&self, index: usize) -> (r: Option<&Subscription<H>>)
        ensures
            r == (if index < self.spec_subscriptions().len() {
                Some(&self.spec_subscriptions()[index as int])
            } else {
                None
            }),
    {
        if index < self.subscriptions.len() {
            Some(&self.subscriptions[index])
        } else {
            None
        }
    }

    /// Records the broker's answer for the subscription at position `index`,
    /// if there is one.  Returns the filter it was recorded for, or an empty
    /// string when there is none.
    pub fn set_result(&mut self, index: usize, result: SubscribeReturnCode) -> (topic: String)
        ensures
            topic@ == if index < old(self).spec_subscriptions().len() {
                old(self).spec_subscriptions()[index as int].topic@
            } else {
                Seq::<char>::empty()
            },
            final(self).wf(),
            final(self).spec_subscriptions() == old(self).spec_subscriptions(),
            final(self).spec_results() == if index < old(self).spec_subscriptions().len() {
                old(self).spec_results().insert(
                    old(self).spec_subscriptions()[index as int].topic@,
                    result,
                )
            } else {
                old(self).spec_results()
            },
            final(self).spec_state() == old(self).spec_state(),
    {
        proof {
            use_type_invariant(&*self);
        }
        if index < self.subscriptions.len() {
            let topic = self.subscriptions[index].topic.clone();
            let mut results: TopicTable<SubscribeReturnCode> = TopicTable::new();
            std::mem::swap(&mut results, &mut self.results);
            results.insert(topic.clone(), result);
            std::mem::swap(&mut results, &mut self.results);
            topic
        } else {
            String::new()
        }
    }

    /// The answers recorded so far, one entry per filter.
    pub fn result(&self) -> (r: Vec<(String, SubscribeReturnCode)>)
        ensures
            crate::topic_table::keys_distinct(r@),
            crate::topic_table::entries_map(r@) == self.spec_results(),
    {
        proof {
            use_type_invariant(self);
        }
        self.results.to_vec()
    }

    pub fn set_error(&mut self, error: MqttError)
        ensures
            final(self).spec_subscriptions() == old(self).spec_subscriptions(),
            final(self).spec_results() == old(self).spec_results(),
            final(self).wf() == old(self).wf(),
            final(self).spec_state().is_complete(),
            final(self).spec_state().error() == Some(error),
    {
        proof {
            use_type_invariant(&*self);
        }
        self.state.set_error(error);
    }

    pub fn flow_complete(&mut self)
        ensures
            final(self).spec_subscriptions() == old(self).spec_subscriptions(),
            final(self).spec_results() == old(self).spec_results(),
            final(self).wf() == old(self).wf(),
            final(self).spec_state().is_complete(),
            final(self).spec_state().error() == old(self).spec_state().error(),
    {
        proof {
            use_type_invariant(&*self);
        }
        self.state.flow_complete();
    }

    /// See `TokenState::poll`.
    pub fn poll(&self) -> (r: Option<Option<TokenError>>)
        ensures
            !self.spec_state().is_complete() ==> r is None,
            self.spec_state().is_complete() ==> match self.spec_state().error() {
                None => r == Some(None::<TokenError>),
                Some(e) => r matches Some(Some(t)) && t.reports(e),
            },
    {
        self.state.poll()
    }
}

/// The token of an unsubscription request: the filters to drop, in order.
pub struct UnsubscribeToken {
    topics: Vec<String>,
    state: TokenState,
}

impl UnsubscribeToken {
    pub closed spec fn spec_topics(&self) -> Seq<String> {
        self.topics@
    }

    pub closed spec fn spec_state(&self) -> TokenState {
        self.state
    }

    pub fn new() -> (r: Self)
        ensures
            r.spec_topics().len() == 0,
            !r.spec_state().is_complete(),
            r.spec_state().error() is None,
    {
        UnsubscribeToken { topics: Vec::new(), state: TokenState::new() }
    }

    pub fn add_topic(&mut self, topic: String)
        ensures
            final(self).spec_topics() == old(self).spec_topics().push(topic),
            final(self).spec_state() == old(self).spec_state(),
    {
        self.topics.push(topic);
    }

    /// The filters to drop, in order.
    pub fn topics(&self) -> (r: Vec<String>)
        ensures
            r@.len() == self.spec_topics().len(),
            forall|i: int| 0 <= i < r@.len() ==> (#[trigger] r@[i])@ == self.spec_topics()[i]@,
    {
        let mut r: Vec<String> = Vec::new();
        let mut i: usize = 0;
        while i < self.topics.len()
            invariant
                i <= self.topics@.len(),
                r@.len() == i,
                forall|j: int| 0 <= j < i ==> (#[trigger] r@[j])@ == self.topics@[j]@,
            decreases self.topics@.len() - i,
        {
            r.push(self.topics[i].clone());
            i = i + 1;
        }
        r
    }

    pub fn set_error(&mut self, error: MqttError)
        ensures
            final(self).spec_topics() == old(self).spec_topics(),
            final(self).spec_state().is_complete(),
            final(self).spec_state().error() == Some(error),
    {
        self.state.set_error(error);
    }

    pub fn flow_complete(&mut self)
        ensures
            final(self).spec_topics() == old(self).spec_topics(),
            final(self).spec_state().is_complete(),
            final(self).spec_state().error() == old(self).spec_state().error(),
    {
        self.state.flow_complete();
    }

    /// See `TokenState::poll`.
    pub fn poll(&self) -> (r: Option<Option<TokenError>>)
        ensures
            !self.spec_state().is_complete() ==> r is None,
            self.spec_state().is_complete() ==> match self.spec_state().error() {
                None => r == Some(None::<TokenError>),
                Some(e) => r matches Some(Some(t)) && t.reports(e),
            },
    {
        self.state.poll()
    }
}

/// The token of any request, as it waits in the table of packet identifiers
/// or beside an outgoing packet.
pub enum Token<H> {
    Connect(ConnectToken),
    Disconnect(DisconnectToken),
    Publish(PublishToken),
    Subscribe(SubscribeToken<H>),
    Unsubscribe(UnsubscribeToken),
}

impl<H> Token<H> {
    /// The state of the request's flow.
    pub open spec fn state(&self) -> TokenState {
        match self {
            Token::Connect(t) => t.spec_state(),
            Token::Disconnect(t) => t.spec_state(),
            Token::Publish(t) => t.spec_state(),
            Token::Subscribe(t) => t.spec_state(),
            Token::Unsubscribe(t) => t.spec_state(),
        }
    }

    /// The same kind of token, with the same data but for the state of its flow.
    pub open spec fn same_request(&self, other: &Self) -> bool {
        match (self, other) {
            (Token::Connect(a), Token::Connect(b)) => a.spec_return_code() == b.spec_return_code()
                && a.spec_session_present() == b.spec_session_present(),
            (Token::Disconnect(_), Token::Disconnect(_)) => true,
            (Token::Publish(a), Token::Publish(b)) => a.spec_qos() == b.spec_qos(),
            (Token::Subscribe(a), Token::Subscribe(b)) => a.spec_subscriptions()
                == b.spec_subscriptions() && a.spec_results() == b.spec_results() && a.wf()
                == b.wf(),
            (Token::Unsubscribe(a), Token::Unsubscribe(b)) => a.spec_topics() == b.spec_topics(),
            _ => false,
        }
    }

    /// Ends the flow of the request, keeping whatever error it had.
    pub fn flow_complete(&mut self)
        ensures
            final(self).same_request(old(self)),
            final(self).state().is_complete(),
            final(self).state().error() == old(self).state().error(),
    {
        match self {
            Token::Connect(t) => t.flow_complete(),
            Token::Disconnect(t) => t.flow_complete(),
            Token::Publish(t) => t.flow_complete(),
            Token::Subscribe(t) => t.flow_complete(),
            Token::Unsubscribe(t) => t.flow_complete(),
        }
    }

    /// Ends the flow of the request with `err`.
    pub fn set_error(&mut self, err: MqttError)
        ensures
            final(self).same_request(old(self)),
            final(self).state().is_complete(),
            final(self).state().error() == Some(err),
    {
        match self {
            Token::Connect(t) => t.set_error(err),
            Token::Disconnect(t) => t.set_error(err),
            Token::Publish(t) => t.set_error(err),
            Token::Subscribe(t) => t.set_error(err),
            Token::Unsubscribe(t) => t.set_error(err),
        }
    }
}

/// A request waiting in the table of packet identifiers: its token, and
/// whoever waits on it (a value the library only carries).
pub struct Entry<W, H> {
    pub waiter: W,
    pub token: Token<H>,
}

} // verus!
