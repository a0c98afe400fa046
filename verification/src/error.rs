use vstd::prelude::*;
use vstd::std_specs::convert::FromSpecImpl;

verus! {

/// The errors of the client.  Where the failure comes from outside (an I/O
/// error, a packet that the codec refused), the variant holds its message.
#[derive(Debug)]
pub enum MqttError {
    IOError(String),
    NetworkUnreachable,
    ConnectTimeout,
    MqttConnectFailed(u8),
    ConnectionLost,
    Reconnecting,
    ProtocolError,
    InvalidTopic,
    PacketIdError,
    InternalChannelError,
    VariablePacketError(String),
}

/// The error a token reports to the one who waits on it.
#[derive(Debug)]
pub enum TokenError {
    IOError(String),
    ConnectTimeout,
    NotConnected,
    Reconnecting,
    MqttConnectFailed(u8),
    ConnectionLost,
    InvalidTopic,
    PacketIdError,
    InternalChannelError,
    PacketError(String),
}

impl TokenError {
    /// `self` is what a token reports for the client error `e`: the same
    /// failure, an unreachable network as `NotConnected`, a protocol error as
    /// a packet error that reads "Protocol Error", and the message of an
    /// outside error kept as it was.
    pub open spec fn reports(self, e: MqttError) -> bool {
        match e {
            MqttError::IOError(m) => self matches TokenError::IOError(s) && s@ == m@,
            MqttError::ConnectTimeout => self is ConnectTimeout,
            MqttError::NetworkUnreachable => self is NotConnected,
            MqttError::MqttConnectFailed(n) => self == TokenError::MqttConnectFailed(n),
            MqttError::ConnectionLost => self is ConnectionLost,
            MqttError::Reconnecting => self is Reconnecting,
            MqttError::ProtocolError => self matches TokenError::PacketError(s) && s@
                == "Protocol Error"@,
            MqttError::InvalidTopic => self is InvalidTopic,
            MqttError::PacketIdError => self is PacketIdError,
            MqttError::InternalChannelError => self is InternalChannelError,
            MqttError::VariablePacketError(m) => self matches TokenError::PacketError(s) && s@
                == m@,
        }
    }
}

/// What a token reports for each client error: the same failure under the
/// same name, but an unreachable network as `NotConnected` and a protocol
/// error or an undecodable packet as a packet error with its message
/// ("Protocol Error" for the former).
pub proof fn law_reported_errors(t: TokenError, e: MqttError)
    requires
        t.reports(e),
    ensures
        e is IOError ==> t is IOError && t->IOError_0@ == e->IOError_0@,
        e is ConnectTimeout ==> t is ConnectTimeout,
        e is NetworkUnreachable ==> t is NotConnected,
        e is MqttConnectFailed ==> t is MqttConnectFailed && t->MqttConnectFailed_0 == e->MqttConnectFailed_0,
        e is ConnectionLost ==> t is ConnectionLost,
        e is Reconnecting ==> t is Reconnecting,
        e is ProtocolError ==> t is PacketError && t->PacketError_0@ == "Protocol Error"@,
        e is InvalidTopic ==> t is InvalidTopic,
        e is PacketIdError ==> t is PacketIdError,
        e is InternalChannelError ==> t is InternalChannelError,
        e is VariablePacketError ==> t is PacketError && t->PacketError_0@ == e->VariablePacketError_0@,
{
}

impl<'a> From<&'a MqttError> for TokenError {
    fn from(value: &'a MqttError) -> (r: Self)
        ensures
            r.reports(*value),
    {
        match value {
            MqttError::IOError(e) => TokenError::IOError(e.clone()),
            MqttError::ConnectTimeout => TokenError::ConnectTimeout,
            MqttError::NetworkUnreachable => TokenError::NotConnected,
            MqttError::MqttConnectFailed(n) => TokenError::MqttConnectFailed(*n),
            MqttError::ConnectionLost => TokenError::ConnectionLost,
            MqttError::Reconnecting => TokenError::Reconnecting,
            MqttError::ProtocolError => TokenError::PacketError("Protocol Error".to_owned()),
            MqttError::InvalidTopic => TokenError::InvalidTopic,
            MqttError::PacketIdError => TokenError::PacketIdError,
            MqttError::InternalChannelError => TokenError::InternalChannelError,
            MqttError::VariablePacketError(e) => TokenError::PacketError(e.clone()),
        }
    }
}

/// `from` is described by `TokenError::reports`, a relation over the
/// characters of the messages: two `String`s with the same characters are not
/// known to be one value, so no single result is promised here.
impl<'a> FromSpecImpl<&'a MqttError> for TokenError {
    open spec fn obeys_from_spec() -> bool {
        false
    }

    open spec fn from_spec(v: &'a MqttError) -> Self {
        choose|t: TokenError| t.reports(*v)
    }
}

} // verus!
