use crate::protocol::QualityOfService;
use crate::topic_table::{entries_map, keys_distinct, TopicTable};
use mqtt_codec_kit::v5::control::{
    ConnackProperties, SubackProperties, SubscribeProperties, UnsubackProperties,
};
use vstd::prelude::*;

verus! {

/// The properties of a CONNACK packet, as the codec holds them.
#[verifier::external_type_specification]
#[verifier::external_body]
pub struct ExConnackProperties(ConnackProperties);

/// The properties of a SUBACK packet, as the codec holds them.
#[verifier::external_type_specification]
#[verifier::external_body]
pub struct ExSubackProperties(SubackProperties);

/// The properties of an UNSUBACK packet, as the codec holds them.
#[verifier::external_type_specification]
#[verifier::external_body]
pub struct ExUnsubackProperties(UnsubackProperties);

/// The properties of a SUBSCRIBE packet, as the codec holds them.
#[verifier::external_type_specification]
#[verifier::external_body]
pub struct ExSubscribeProperties(SubscribeProperties);

/// `Default::default` of the codec's CONNACK properties (none set).  The
/// value is opaque here: nothing is claimed of it.
pub assume_specification[<ConnackProperties as Default>::default]() -> (r: ConnackProperties);

/// `Default::default` of the codec's SUBACK properties (none set).  The
/// value is opaque here: nothing is claimed of it.
pub assume_specification[<SubackProperties as Default>::default]() -> (r: SubackProperties);

/// `Default::default` of the codec's UNSUBACK properties (none set).  The
/// value is opaque here: nothing is claimed of it.
pub assume_specification[<UnsubackProperties as Default>::default]() -> (r: UnsubackProperties);

/// The reason code byte of a CONNACK that accepts the connection.
pub const CONNECT_SUCCESS: u8 = 0;

/// The errors a token of the MQTT 5 client reports.
#[derive(Debug)]
pub enum TokenError {
    IOError(String),
    ConnectTimeout,
    NetworkUnreachable,
    ConnectError(String),
    ConnectFailed(u8),
    ConnectionLost,
    Reconnecting,
    ConnectionError(String),
    InvalidTopic,
    PacketIdError,
    InternalServerError,
    PacketError(String),
}

impl TokenError {
    /// `self` is the error `e` again: the same variant, with messages of the
    /// same characters.
    pub open spec fn copies(self, e: TokenError) -> bool {
        match e {
            TokenError::IOError(m) => self matches TokenError::IOError(s) && s@ == m@,
            TokenError::ConnectTimeout => self is ConnectTimeout,
            TokenError::NetworkUnreachable => self is NetworkUnreachable,
            TokenError::ConnectError(m) => self matches TokenError::ConnectError(s) && s@ == m@,
            TokenError::ConnectFailed(n) => self == TokenError::ConnectFailed(n),
            TokenError::ConnectionLost => self is ConnectionLost,
            TokenError::Reconnecting => self is Reconnecting,
            TokenError::ConnectionError(m) => self matches TokenError::ConnectionError(s) && s@
                == m@,
            TokenError::InvalidTopic => self is InvalidTopic,
            TokenError::PacketIdError => self is PacketIdError,
            TokenError::InternalServerError => self is InternalServerError,
            TokenError::PacketError(m) => self matches TokenError::PacketError(s) && s@ == m@,
        }
    }

    /// A copy of the error, to hand to one who waits on a token.
    pub fn duplicate(&self) -> (r: TokenError)
        ensures
            r.copies(*self),
    {
        match self {
            TokenError::IOError(m) => TokenError::IOError(m.clone()),
            TokenError::ConnectTimeout => TokenError::ConnectTimeout,
            TokenError::NetworkUnreachable => TokenError::NetworkUnreachable,
            TokenError::ConnectError(m) => TokenError::ConnectError(m.clone()),
            TokenError::ConnectFailed(n) => TokenError::ConnectFailed(*n),
            TokenError::ConnectionLost => TokenError::ConnectionLost,
            TokenError::Reconnecting => TokenError::Reconnecting,
            TokenError::ConnectionError(m) => TokenError::ConnectionError(m.clone()),
            TokenError::InvalidTopic => TokenError::InvalidTopic,
            TokenError::PacketIdError => TokenError::PacketIdError,
            TokenError::InternalServerError => TokenError::InternalServerError,
            TokenError::PacketError(m) => TokenError::PacketError(m.clone()),
        }
    }
}

/// A copy of an error is the same error: the same variant, with a message
/// of the same characters and the same reason code.
pub proof fn law_copy_is_the_same_error(t: TokenError, e: TokenError)
    requires
        t.copies(e),
    ensures
        (t is IOError) == (e is IOError),
        (t is ConnectTimeout) == (e is ConnectTimeout),
        (t is NetworkUnreachable) == (e is NetworkUnreachable),
        (t is ConnectError) == (e is ConnectError),
        (t is ConnectFailed) == (e is ConnectFailed),
        (t is ConnectionLost) == (e is ConnectionLost),
        (t is Reconnecting) == (e is Reconnecting),
        (t is ConnectionError) == (e is ConnectionError),
        (t is InvalidTopic) == (e is InvalidTopic),
        (t is PacketIdError) == (e is PacketIdError),
        (t is InternalServerError) == (e is InternalServerError),
        (t is PacketError) == (e is PacketError),
        t is IOError ==> t->IOError_0@ == e->IOError_0@,
        t is ConnectError ==> t->ConnectError_0@ == e->ConnectError_0@,
        t is ConnectFailed ==> t->ConnectFailed_0 == e->ConnectFailed_0,
        t is ConnectionError ==> t->ConnectionError_0@ == e->ConnectionError_0@,
        t is PacketError ==> t->PacketError_0@ == e->PacketError_0@,
{
}

/// Whether the flow of a request has ended, and the error it ended with.
pub struct TokenState {
    complete: bool,
    error: Option<TokenError>,
}

impl TokenState {
    pub closed spec fn is_complete(&self) -> bool {
        self.complete
    }

    pub closed spec fn error(&self) -> Option<TokenError> {
        self.error
    }

    /// A flow still under way.
    pub fn new() -> (r: Self)
        ensures
            !r.is_complete(),
            r.error() is None,
    {
        TokenState { complete: false, error: None }
    }

    /// Ends the flow with `error`.
    pub fn set_error(&mut self, error: TokenError)
        ensures
            final(self).is_complete(),
            final(self).error() == Some(error),
    {
        self.error = Some(error);
        self.complete = true;
    }

    /// Ends the flow, keeping whatever error it had.
    pub fn flow_complete(&mut self)
        ensures
            final(self).is_complete(),
            final(self).error() == old(self).error(),
    {
        self.complete = true;
    }

    /// What waiting on the token gives: nothing yet while the flow is under
    /// way; once it has ended, a copy of the error it ended with, if any.
    pub fn poll(&self) -> (r: Option<Option<TokenError>>)
        ensures
            !self.is_complete() ==> r is None,
            self.is_complete() ==> match self.error() {
                None => r == Some(None::<TokenError>),
                Some(e) => r matches Some(Some(t)) && t.copies(e),
            },
    {
        if self.complete {
            match &self.error {
                None => Some(None),
                Some(e) => Some(Some(e.duplicate())),
            }
        } else {
            None
        }
    }
}

/// The token of a connection request: the broker's reason code (as its
/// byte), whether it kept a session, and the properties of its CONNACK.
pub struct ConnectToken {
    reason_code: u8,
    session_present: bool,
    connack_properties: ConnackProperties,
    state: TokenState,
}

impl ConnectToken {
    pub closed spec fn spec_reason_code(&self) -> u8 {
        self.reason_code
    }

    pub closed spec fn spec_session_present(&self) -> bool {
        self.session_present
    }

    pub closed spec fn spec_connack_properties(&self) -> ConnackProperties {
        self.connack_properties
    }

    pub closed spec fn spec_state(&self) -> TokenState {
        self.state
    }

    /// A token under way, with the code "success", no session and the
    /// properties the codec starts from.
    pub fn new() -> (r: Self)
        ensures
            r.spec_reason_code() == CONNECT_SUCCESS,
            !r.spec_session_present(),
            !r.spec_state().is_complete(),
            r.spec_state().error() is None,
    {
        ConnectToken {
            reason_code: CONNECT_SUCCESS,
            session_present: false,
            connack_properties: ConnackProperties::default(),
            state: TokenState::new(),
        }
    }

    pub fn set_reason_code(&mut self, code: u8)
        ensures
            final(self).spec_reason_code() == code,
            final(self).spec_session_present() == old(self).spec_session_present(),
            final(self).spec_connack_properties() == old(self).spec_connack_properties(),
            final(self).spec_state() == old(self).spec_state(),
    {
        self.reason_code = code;
    }

    pub fn set_session_present(&mut self)
        ensures
            final(self).spec_reason_code() == old(self).spec_reason_code(),
            final(self).spec_session_present(),
            final(self).spec_connack_properties() == old(self).spec_connack_properties(),
            final(self).spec_state() == old(self).spec_state(),
    {
        self.session_present = true;
    }

    pub fn set_connack_properties(&mut self, properties: ConnackProperties)
        ensures
            final(self).spec_reason_code() == old(self).spec_reason_code(),
            final(self).spec_session_present() == old(self).spec_session_present(),
            final(self).spec_connack_properties() == properties,
            final(self).spec_state() == old(self).spec_state(),
    {
        self.connack_properties = properties;
    }

    /// The byte of the reason code the broker answered with.
    pub fn reason_code(&self) -> (r: u8)
        ensures
            r == self.spec_reason_code(),
    {
        self.reason_code
    }

    /// Whether the broker kept a session for the client.
    pub fn session_present(&self) -> (r: bool)
        ensures
            r == self.spec_session_present(),
    {
        self.session_present
    }

    /// The properties of the broker's CONNACK.
    pub fn connack_properties(&self) -> (r: &ConnackProperties)
        ensures
            *r == self.spec_connack_properties(),
    {
        &self.connack_properties
    }

    pub fn set_error(&mut self, error: TokenError)
        ensures
            final(self).spec_reason_code() == old(self).spec_reason_code(),
            final(self).spec_session_present() == old(self).spec_session_present(),
            final(self).spec_connack_properties() == old(self).spec_connack_properties(),
            final(self).spec_state().is_complete(),
            final(self).spec_state().error() == Some(error),
    {
        self.state.set_error(error);
    }

    pub fn flow_complete(&mut self)
        ensures
            final(self).spec_reason_code() == old(self).spec_reason_code(),
            final(self).spec_session_present() == old(self).spec_session_present(),
            final(self).spec_connack_properties() == old(self).spec_connack_properties(),
            final(self).spec_state().is_complete(),
            final(self).spec_state().error() == old(self).spec_state().error(),
    {
        self.state.flow_complete();
    }

    /// See `TokenState::poll`.
    pub fn poll(&self) -> (r: Option<Option<TokenError>>)
        ensures
            !self.spec_state().is_complete() ==> r is None,
            self.spec_state().is_complete() ==> match self.spec_state().error() {
                None => r == Some(None::<TokenError>),
                Some(e) => r matches Some(Some(t)) && t.copies(e),
            },
    {
        self.state.poll()
    }
}

/// The token of a disconnection request.
pub struct DisconnectToken {
    state: TokenState,
}

impl DisconnectToken {
    pub closed spec fn spec_state(&self) -> TokenState {
        self.state
    }

    pub fn new() -> (r: Self)
        ensures
            !r.spec_state().is_complete(),
            r.spec_state().error() is None,
    {
        DisconnectToken { state: TokenState::new() }
    }

    pub fn set_error(&mut self, error: TokenError)
        ensures
            final(self).spec_state().is_complete(),
            final(self).spec_state().error() == Some(error),
    {
        self.state.set_error(error);
    }

    pub fn flow_complete(&mut self)
        ensures
            final(self).spec_state().is_complete(),
            final(self).spec_state().error() == old(self).spec_state().error(),
    {
        self.state.flow_complete();
    }

    /// See `TokenState::poll`.
    pub fn poll(&self) -> (r: Option<Option<TokenError>>)
        ensures
            !self.spec_state().is_complete() ==> r is None,
            self.spec_state().is_complete() ==> match self.spec_state().error() {
                None => r == Some(None::<TokenError>),
                Some(e) => r matches Some(Some(t)) && t.copies(e),
            },
    {
        self.state.poll()
    }
}

/// The token of a publication.
pub struct PublishToken {
    qos: QualityOfService,
    state: TokenState,
}

impl PublishToken {
    pub closed spec fn spec_qos(&self) -> QualityOfService {
        self.qos
    }

    pub closed spec fn spec_state(&self) -> TokenState {
        self.state
    }

    /// A token under way for a publication at level 0.
    pub fn new() -> (r: Self)
        ensures
            r.spec_qos() == QualityOfService::Level0,
            !r.spec_state().is_complete(),
            r.spec_state().error() is None,
    {
        PublishToken { qos: QualityOfService::Level0, state: TokenState::new() }
    }

    pub fn set_qos(&mut self, qos: QualityOfService)
        ensures
            final(self).spec_qos() == qos,
            final(self).spec_state() == old(self).spec_state(),
    {
        self.qos = qos;
    }

    pub fn qos(&self) -> (r: QualityOfService)
        ensures
            r == self.spec_qos(),
    {
        self.qos
    }

    pub fn set_error(&mut self, error: TokenError)
        ensures
            final(self).spec_qos() == old(self).spec_qos(),
            final(self).spec_state().is_complete(),
            final(self).spec_state().error() == Some(error),
    {
        self.state.set_error(error);
    }

    pub fn flow_complete(&mut self)
        ensures
            final(self).spec_qos() == old(self).spec_qos(),
            final(self).spec_state().is_complete(),
            final(self).spec_state().error() == old(self).spec_state().error(),
    {
        self.state.flow_complete();
    }

    /// See `TokenState::poll`.
    pub fn poll(&self) -> (r: Option<Option<TokenError>>)
        ensures
            !self.spec_state().is_complete() ==> r is None,
            self.spec_state().is_complete() ==> match self.spec_state().error() {
                None => r == Some(None::<TokenError>),
                Some(e) => r matches Some(Some(t)) && t.copies(e),
            },
    {
        self.state.poll()
    }
}

/// When the broker sends the retained messages of a new subscription.
#[derive(Debug, Clone, Copy, PartialEq, Eq, Structural)]
pub enum RetainHandling {
    SendAtSubscribe,
    SendAtSubscribeIfNotExist,
    DoNotSend,
}

/// The options of one filter of a subscription request.
#[derive(Debug, Clone, Copy, PartialEq, Eq, Structural)]
pub struct SubscribeOptions {
    pub qos: QualityOfService,
    pub no_local: bool,
    pub retain_as_published: bool,
    pub retain_handling: RetainHandling,
}

/// A subscription: a topic filter, its options, the properties of the
/// request, and the handler of the messages that match.
pub struct Subscription<H> {
    pub topic: String,
    pub options: SubscribeOptions,
    pub properties: Option<SubscribeProperties>,
    pub handler: H,
}

impl<H> Subscription<H> {
    pub fn new(
        topic: String,
        options: SubscribeOptions,
        properties: Option<SubscribeProperties>,
        handler: H,
    ) -> (r: Self)
        ensures
            r.topic == topic,
            r.options == options,
            r.properties == properties,
            r.handler == handler,
    {
        Subscription { topic, options, properties, handler }
    }
}

/// The token of a subscription request: the filters asked for, in order, the
/// broker's reason code (as its byte) for each, and the properties of its
/// SUBACK.
pub struct SubscribeToken<H> {
    subscriptions: Vec<Subscription<H>>,
    results: TopicTable<u8>,
    suback_properties: SubackProperties,
    state: TokenState,
}

impl<H> SubscribeToken<H> {
    pub closed spec fn spec_subscriptions(&self) -> Seq<Subscription<H>> {
        self.subscriptions@
    }

    /// The reason codes recorded so far, by filter.
    pub closed spec fn spec_results(&self) -> Map<Seq<char>, u8> {
        self.results@
    }

    pub closed spec fn spec_suback_properties(&self) -> SubackProperties {
        self.suback_properties
    }

    pub closed spec fn spec_state(&self) -> TokenState {
        self.state
    }

    pub closed spec fn wf(&self) -> bool {
        self.results.wf()
    }

    pub fn new() -> (r: Self)
        ensures
            r.wf(),
            r.spec_subscriptions().len() == 0,
            r.spec_results() == Map::<Seq<char>, u8>::empty(),
            !r.spec_state().is_complete(),
            r.spec_state().error() is None,
    {
        SubscribeToken {
            subscriptions: Vec::new(),
            results: TopicTable::new(),
            suback_properties: SubackProperties::default(),
            state: TokenState::new(),
        }
    }

    /// Appends the subscriptions asked for, in order.
    pub fn add_subscriptions(&mut self, subscriptions: Vec<Subscription<H>>)
        requires
            old(self).wf(),
        ensures
            final(self).wf(),
            final(self).spec_subscriptions() == old(self).spec_subscriptions()
                + subscriptions@,
            final(self).spec_results() == old(self).spec_results(),
            final(self).spec_suback_properties() == old(self).spec_suback_properties(),
            final(self).spec_state() == old(self).spec_state(),
    {
        let mut subscriptions = subscriptions;
        self.subscriptions.append(&mut subscriptions);
    }

    /// The subscription asked for at position `index`, if there is one.
    pub fn get_subscription(&self, index: usize) -> (r: Option<&Subscription<H>>)
        ensures
            r == (if index < self.spec_subscriptions().len() {
                Some(&self.spec_subscriptions()[index as int])
            } else {
                None
            }),
    {
        if index < self.subscriptions.len() {
            Some(&self.subscriptions[index])
        } else {
            None
        }
    }

    /// Records the broker's reason code for the subscription at position
    /// `index`, if there is one.
    pub fn set_result(&mut self, index: usize, result: u8)
        requires
            old(self).wf(),
        ensures
            final(self).wf(),
            final(self).spec_subscriptions() == old(self).spec_subscriptions(),
            final(self).spec_results() == if index < old(self).spec_subscriptions().len() {
                old(self).spec_results().insert(
                    old(self).spec_subscriptions()[index as int].topic@,
                    result,
                )
            } else {
                old(self).spec_results()
            },
            final(self).spec_suback_properties() == old(self).spec_suback_properties(),
            final(self).spec_state() == old(self).spec_state(),
    {
        if index < self.subscriptions.len() {
            let topic = self.subscriptions[index].topic.clone();
            self.results.insert(topic, result);
        }
    }

    pub fn set_suback_properties(&mut self, properties: SubackProperties)
        ensures
            final(self).wf() == old(self).wf(),
            final(self).spec_subscriptions() == old(self).spec_subscriptions(),
            final(self).spec_results() == old(self).spec_results(),
            final(self).spec_suback_properties() == properties,
            final(self).spec_state() == old(self).spec_state(),
    {
        self.suback_properties = properties;
    }

    /// The reason codes recorded so far, one entry per filter.
    pub fn result(&self) -> (r: Vec<(String, u8)>)
        requires
            self.wf(),
        ensures
            keys_distinct(r@),
            entries_map(r@) == self.spec_results(),
    {
        self.results.to_vec()
    }

    /// The properties of the broker's SUBACK.
    pub fn suback_properties(&self) -> (r: &SubackProperties)
        ensures
            *r == self.spec_suback_properties(),
    {
        &self.suback_properties
    }

    pub fn set_error(&mut self, error: TokenError)
        ensures
            final(self).spec_subscriptions() == old(self).spec_subscriptions(),
            final(self).spec_results() == old(self).spec_results(),
            final(self).spec_suback_properties() == old(self).spec_suback_properties(),
            final(self).wf() == old(self).wf(),
            final(self).spec_state().is_complete(),
            final(self).spec_state().error() == Some(error),
    {
        self.state.set_error(error);
    }

    pub fn flow_complete(&mut self)
        ensures
            final(self).spec_subscriptions() == old(self).spec_subscriptions(),
            final(self).spec_results() == old(self).spec_results(),
            final(self).spec_suback_properties() == old(self).spec_suback_properties(),
            final(self).wf() == old(self).wf(),
            final(self).spec_state().is_complete(),
            final(self).spec_state().error() == old(self).spec_state().error(),
    {
        self.state.flow_complete();
    }

    /// See `TokenState::poll`.
    pub fn poll(&self) -> (r: Option<Option<TokenError>>)
        ensures
            !self.spec_state().is_complete() ==> r is None,
            self.spec_state().is_complete() ==> match self.spec_state().error() {
                None => r == Some(None::<TokenError>),
                Some(e) => r matches Some(Some(t)) && t.copies(e),
            },
    {
        self.state.poll()
    }
}

/// The token of an unsubscription request: the filters to drop, in order,
/// and the properties of the broker's UNSUBACK.
pub struct UnsubscribeToken {
    topics: Vec<String>,
    unsuback_properties: UnsubackProperties,
    state: TokenState,
}

impl UnsubscribeToken {
    pub closed spec fn spec_topics(&self) -> Seq<String> {
        self.topics@
    }

    pub closed spec fn spec_unsuback_properties(&self) -> UnsubackProperties {
        self.unsuback_properties
    }

    pub closed spec fn spec_state(&self) -> TokenState {
        self.state
    }

    pub fn new() -> (r: Self)
        ensures
            r.spec_topics().len() == 0,
            !r.spec_state().is_complete(),
            r.spec_state().error() is None,
    {
        UnsubscribeToken {
            topics: Vec::new(),
            unsuback_properties: UnsubackProperties::default(),
            state: TokenState::new(),
        }
    }

    pub fn add_topic(&mut self, topic: String)
        ensures
            final(self).spec_topics() == old(self).spec_topics().push(topic),
            final(self).spec_unsuback_properties() == old(self).spec_unsuback_properties(),
            final(self).spec_state() == old(self).spec_state(),
    {
        self.topics.push(topic);
    }

    pub fn set_unsuback_properties(&mut self, properties: UnsubackProperties)
        ensures
            final(self).spec_topics() == old(self).spec_topics(),
            final(self).spec_unsuback_properties() == properties,
            final(self).spec_state() == old(self).spec_state(),
    {
        self.unsuback_properties = properties;
    }

    /// The filters to drop, in order.
    pub fn topics(&self) -> (r: Vec<String>)
        ensures
            r@.len() == self.spec_topics().len(),
            forall|i: int| 0 <= i < r@.len() ==> (#[trigger] r@[i])@ == self.spec_topics()[i]@,
    {
        let mut r: Vec<String> = Vec::new();
        let mut i: usize = 0;
        while i < self.topics.len()
            invariant
                i <= self.topics@.len(),
                r@.len() == i,
                forall|j: int| 0 <= j < i ==> (#[trigger] r@[j])@ == self.topics@[j]@,
            decreases self.topics@.len() - i,
        {
            r.push(self.topics[i].clone());
            i = i + 1;
        }
        r
    }

    /// The properties of the broker's UNSUBACK.
    pub fn unsuback_properties(&self) -> (r: &UnsubackProperties)
        ensures
            *r == self.spec_unsuback_properties(),
    {
        &self.unsuback_properties
    }

    pub fn set_error(&mut self, error: TokenError)
        ensures
            final(self).spec_topics() == old(self).spec_topics(),
            final(self).spec_unsuback_properties() == old(self).spec_unsuback_properties(),
            final(self).spec_state().is_complete(),
            final(self).spec_state().error() == Some(error),
    {
        self.state.set_error(error);
    }

    pub fn flow_complete(&mut self)
        ensures
            final(self).spec_topics() == old(self).spec_topics(),
            final(self).spec_unsuback_properties() == old(self).spec_unsuback_properties(),
            final(self).spec_state().is_complete(),
            final(self).spec_state().error() == old(self).spec_state().error(),
    {
        self.state.flow_complete();
    }

    /// See `TokenState::poll`.
    pub fn poll(&self) -> (r: Option<Option<TokenError>>)
        ensures
            !self.spec_state().is_complete() ==> r is None,
            self.spec_state().is_complete() ==> match self.spec_state().error() {
                None => r == Some(None::<TokenError>),
                Some(e) => r matches Some(Some(t)) && t.copies(e),
            },
    {
        self.state.poll()
    }
}

/// The token of any request of the MQTT 5 client.
pub enum Token<H> {
    Connect(ConnectToken),
    Disconnect(DisconnectToken),
    Publish(PublishToken),
    Subscribe(SubscribeToken<H>),
    Unsubscribe(UnsubscribeToken),
}

impl<H> Token<H> {
    /// The state of the request's flow.
    pub open spec fn state(&self) -> TokenState {
        match self {
            Token::Connect(t) => t.spec_state(),
            Token::Disconnect(t) => t.spec_state(),
            Token::Publish(t) => t.spec_state(),
            Token::Subscribe(t) => t.spec_state(),
            Token::Unsubscribe(t) => t.spec_state(),
        }
    }

    /// The same kind of token, with the same data but for the state of its flow.
    pub open spec fn same_request(&self, other: &Self) -> bool {
        match (self, other) {
            (Token::Connect(a), Token::Connect(b)) => a.spec_reason_code() == b.spec_reason_code()
                && a.spec_session_present() == b.spec_session_present()
                && a.spec_connack_properties() == b.spec_connack_properties(),
            (Token::Disconnect(_), Token::Disconnect(_)) => true,
            (Token::Publish(a), Token::Publish(b)) => a.spec_qos() == b.spec_qos(),
            (Token::Subscribe(a), Token::Subscribe(b)) => a.spec_subscriptions()
                == b.spec_subscriptions() && a.spec_results() == b.spec_results()
                && a.spec_suback_properties() == b.spec_suback_properties() && a.wf() == b.wf(),
            (Token::Unsubscribe(a), Token::Unsubscribe(b)) => a.spec_topics() == b.spec_topics()
                && a.spec_unsuback_properties() == b.spec_unsuback_properties(),
            _ => false,
        }
    }

    /// Ends the flow of the request, keeping whatever error it had.
    pub fn flow_complete(&mut self)
        ensures
            final(self).same_request(old(self)),
            final(self).state().is_complete(),
            final(self).state().error() == old(self).state().error(),
    {
        match self {
            Token::Connect(t) => t.flow_complete(),
            Token::Disconnect(t) => t.flow_complete(),
            Token::Publish(t) => t.flow_complete(),
            Token::Subscribe(t) => t.flow_complete(),
            Token::Unsubscribe(t) => t.flow_complete(),
        }
    }

    /// Ends the flow of the request with `err`.
    pub fn set_error(&mut self, err: TokenError)
        ensures
            final(self).same_request(old(self)),
            final(self).state().is_complete(),
            final(self).state().error() == Some(err),
    {
        match self {
            Token::Connect(t) => t.set_error(err),
            Token::Disconnect(t) => t.set_error(err),
            Token::Publish(t) => t.set_error(err),
            Token::Subscribe(t) => t.set_error(err),
            Token::Unsubscribe(t) => t.set_error(err),
        }
    }
}

} // verus!
