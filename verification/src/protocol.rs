use crate::topic_trie::{hash_level, plus_level, split_levels};
use vstd::prelude::*;

verus! {

/// The three delivery guarantees of MQTT.
#[derive(Debug, Clone, Copy, PartialEq, Eq, Structural)]
pub enum QualityOfService {
    Level0,
    Level1,
    Level2,
}

impl QualityOfService {
    /// The numeric level carried on the wire (0, 1 or 2).
    pub open spec fn spec_level(self) -> u8 {
        match self {
            QualityOfService::Level0 => 0,
            QualityOfService::Level1 => 1,
            QualityOfService::Level2 => 2,
        }
    }

    /// The numeric level carried on the wire (0, 1 or 2).
    pub fn level(self) -> (r: u8)
        ensures
            r == self.spec_level(),
    {
        match self {
            QualityOfService::Level0 => 0,
            QualityOfService::Level1 => 1,
            QualityOfService::Level2 => 2,
        }
    }
}

/// A delivery guarantee together with the packet identifier that levels 1
/// and 2 carry.
#[derive(Debug, Clone, Copy, PartialEq, Eq, Structural)]
pub enum QoSWithPacketIdentifier {
    Level0,
    Level1(u16),
    Level2(u16),
}

impl QoSWithPacketIdentifier {
    /// Pairs a level with an identifier; level 0 carries none.
    pub open spec fn new_spec(qos: QualityOfService, id: u16) -> Self {
        match qos {
            QualityOfService::Level0 => QoSWithPacketIdentifier::Level0,
            QualityOfService::Level1 => QoSWithPacketIdentifier::Level1(id),
            QualityOfService::Level2 => QoSWithPacketIdentifier::Level2(id),
        }
    }

    /// Pairs a level with an identifier; level 0 carries none.
    pub fn new(qos: QualityOfService, id: u16) -> (r: Self)
        ensures
            r == Self::new_spec(qos, id),
    {
        match qos {
            QualityOfService::Level0 => QoSWithPacketIdentifier::Level0,
            QualityOfService::Level1 => QoSWithPacketIdentifier::Level1(id),
            QualityOfService::Level2 => QoSWithPacketIdentifier::Level2(id),
        }
    }

    /// The level and, for levels 1 and 2, the identifier.
    pub fn split(self) -> (r: (QualityOfService, Option<u16>))
        ensures
            r == (match self {
                QoSWithPacketIdentifier::Level0 => (QualityOfService::Level0, None),
                QoSWithPacketIdentifier::Level1(id) => (QualityOfService::Level1, Some(id)),
                QoSWithPacketIdentifier::Level2(id) => (QualityOfService::Level2, Some(id)),
            }),
    {
        match self {
            QoSWithPacketIdentifier::Level0 => (QualityOfService::Level0, None),
            QoSWithPacketIdentifier::Level1(id) => (QualityOfService::Level1, Some(id)),
            QoSWithPacketIdentifier::Level2(id) => (QualityOfService::Level2, Some(id)),
        }
    }
}

/// The answer of a broker to a connection request.
#[derive(Debug, Clone, Copy, PartialEq, Eq, Structural)]
pub enum ConnectReturnCode {
    ConnectionAccepted,
    UnacceptableProtocolVersion,
    IdentifierRejected,
    ServiceUnavailable,
    BadUserNameOrPassword,
    NotAuthorized,
    Reserved(u8),
}

impl ConnectReturnCode {
    /// The byte that carries the code on the wire.
    pub open spec fn spec_to_u8(self) -> u8 {
        match self {
            ConnectReturnCode::ConnectionAccepted => 0,
            ConnectReturnCode::UnacceptableProtocolVersion => 1,
            ConnectReturnCode::IdentifierRejected => 2,
            ConnectReturnCode::ServiceUnavailable => 3,
            ConnectReturnCode::BadUserNameOrPassword => 4,
            ConnectReturnCode::NotAuthorized => 5,
            ConnectReturnCode::Reserved(r) => r,
        }
    }

    /// The code that the byte `code` carries.
    pub open spec fn spec_from_u8(code: u8) -> Self {
        if code == 0 {
            ConnectReturnCode::ConnectionAccepted
        } else if code == 1 {
            ConnectReturnCode::UnacceptableProtocolVersion
        } else if code == 2 {
            ConnectReturnCode::IdentifierRejected
        } else if code == 3 {
            ConnectReturnCode::ServiceUnavailable
        } else if code == 4 {
            ConnectReturnCode::BadUserNameOrPassword
        } else if code == 5 {
            ConnectReturnCode::NotAuthorized
        } else {
            ConnectReturnCode::Reserved(code)
        }
    }

    /// The byte that carries the code on the wire.
    pub fn to_u8(self) -> (r: u8)
        ensures
            r == self.spec_to_u8(),
    {
        match self {
            ConnectReturnCode::ConnectionAccepted => 0,
            ConnectReturnCode::UnacceptableProtocolVersion => 1,
            ConnectReturnCode::IdentifierRejected => 2,
            ConnectReturnCode::ServiceUnavailable => 3,
            ConnectReturnCode::BadUserNameOrPassword => 4,
            ConnectReturnCode::NotAuthorized => 5,
            ConnectReturnCode::Reserved(r) => r,
        }
    }

    /// The code that the byte `code` carries.
    pub fn from_u8(code: u8) -> (r: Self)
        ensures
            r == Self::spec_from_u8(code),
    {
        if code == 0 {
            ConnectReturnCode::ConnectionAccepted
        } else if code == 1 {
            ConnectReturnCode::UnacceptableProtocolVersion
        } else if code == 2 {
            ConnectReturnCode::IdentifierRejected
        } else if code == 3 {
            ConnectReturnCode::ServiceUnavailable
        } else if code == 4 {
            ConnectReturnCode::BadUserNameOrPassword
        } else if code == 5 {
            ConnectReturnCode::NotAuthorized
        } else {
            ConnectReturnCode::Reserved(code)
        }
    }
}

/// Reading a code from its byte and writing it back gives the same byte.
pub proof fn law_return_code_byte_round_trip(code: u8)
    ensures
        ConnectReturnCode::spec_from_u8(code).spec_to_u8() == code,
{
}

/// The wire levels of the three delivery guarantees are 0, 1 and 2.
pub proof fn law_qos_wire_levels()
    ensures
        QualityOfService::Level0.spec_level() == 0,
        QualityOfService::Level1.spec_level() == 1,
        QualityOfService::Level2.spec_level() == 2,
        forall|a: QualityOfService, b: QualityOfService| a.spec_level() == b.spec_level() ==> a == b,
{
}

/// The return codes of MQTT 3.1.1 on the wire: accepted is 0, then an
/// unacceptable protocol version 1, a rejected identifier 2, an unavailable
/// server 3, a bad user name or password 4, and not authorized 5; any other
/// byte is reserved and kept as it is.
pub proof fn law_return_code_wire_bytes(code: u8)
    ensures
        ConnectReturnCode::ConnectionAccepted.spec_to_u8() == 0,
        ConnectReturnCode::UnacceptableProtocolVersion.spec_to_u8() == 1,
        ConnectReturnCode::IdentifierRejected.spec_to_u8() == 2,
        ConnectReturnCode::ServiceUnavailable.spec_to_u8() == 3,
        ConnectReturnCode::BadUserNameOrPassword.spec_to_u8() == 4,
        ConnectReturnCode::NotAuthorized.spec_to_u8() == 5,
        ConnectReturnCode::Reserved(code).spec_to_u8() == code,
        ConnectReturnCode::spec_from_u8(0) == ConnectReturnCode::ConnectionAccepted,
        ConnectReturnCode::spec_from_u8(1) == ConnectReturnCode::UnacceptableProtocolVersion,
        ConnectReturnCode::spec_from_u8(2) == ConnectReturnCode::IdentifierRejected,
        ConnectReturnCode::spec_from_u8(3) == ConnectReturnCode::ServiceUnavailable,
        ConnectReturnCode::spec_from_u8(4) == ConnectReturnCode::BadUserNameOrPassword,
        ConnectReturnCode::spec_from_u8(5) == ConnectReturnCode::NotAuthorized,
        code > 5 ==> ConnectReturnCode::spec_from_u8(code) == ConnectReturnCode::Reserved(code),
{
}

/// The answer of a broker to one filter of a subscription request.
#[derive(Debug, Clone, Copy, PartialEq, Eq, Structural)]
pub enum SubscribeReturnCode {
    MaximumQoSLevel0,
    MaximumQoSLevel1,
    MaximumQoSLevel2,
    Failure,
}

/// Whether `topic` is a valid topic name: not empty, at most 65535 bytes
/// in UTF-8, and free of the wildcards `#` and `+`.
pub open spec fn valid_topic_name(topic: &str) -> bool {
    &&& topic@.len() > 0
    &&& vstd::utf8::encode_utf8(topic@).len() <= 65535
    &&& forall|i: int| 0 <= i < topic@.len() ==> #[trigger] topic@[i] != '#' && topic@[i] != '+'
}

/// The prefix of a shared subscription's filter, before its group.
pub open spec fn shared_prefix() -> Seq<char> {
    seq!['$', 's', 'h', 'a', 'r', 'e', '/']
}

/// Whether `k` is the position of the first `/` in `s`.
pub open spec fn first_slash(s: Seq<char>, k: int) -> bool {
    &&& 0 <= k < s.len()
    &&& s[k] == '/'
    &&& forall|j: int| 0 <= j < k ==> s[j] != '/'
}

/// The filter proper of `topic`: for a shared subscription
/// `$share/<group>/<filter>` (the group running up to the first `/` after
/// the prefix), the part after the group; otherwise `topic` itself.
pub open spec fn shared_filter(topic: Seq<char>) -> Seq<char> {
    let rest = topic.skip(7);
    if shared_prefix().is_prefix_of(topic) && exists|k: int| first_slash(rest, k) {
        let k = choose|k: int| first_slash(rest, k);
        rest.skip(k + 1)
    } else {
        topic
    }
}

/// The levels of a filter are well placed: `#` only as the whole last
/// level, and a level other than `#` or `+` holds neither wildcard.
pub open spec fn filter_levels_valid(ls: Seq<Seq<char>>) -> bool {
    forall|i: int|
        0 <= i < ls.len() ==> {
            &&& (#[trigger] ls[i] == hash_level() ==> i == ls.len() - 1)
            &&& (ls[i] != hash_level() && ls[i] != plus_level() ==> !ls[i].contains('#')
                && !ls[i].contains('+'))
        }
}

/// Whether the characters `topic` form a valid topic filter: not empty, at
/// most 65535 bytes in UTF-8, and the levels of its filter proper (see
/// `shared_filter`) well placed.
pub open spec fn valid_topic_filter(topic: Seq<char>) -> bool {
    &&& topic.len() > 0
    &&& vstd::utf8::encode_utf8(topic).len() <= 65535
    &&& filter_levels_valid(split_levels(shared_filter(topic)))
}

/// `mqtt_codec_kit::common::TopicName::new`: succeeds exactly on valid topic
/// names (see `valid_topic_name`).
#[verifier::external_body]
pub(crate) fn topic_name_is_valid(topic: &str) -> (r: bool)
    ensures
        r == valid_topic_name(topic),
{
    mqtt_codec_kit::common::TopicName::new(topic).is_ok()
}

/// `mqtt_codec_kit::common::TopicFilter::new`: succeeds exactly on valid
/// topic filters (see `valid_topic_filter`).
#[verifier::external_body]
pub(crate) fn topic_filter_is_valid(topic: &str) -> (r: bool)
    ensures
        r == valid_topic_filter(topic@),
{
    mqtt_codec_kit::common::TopicFilter::new(topic).is_ok()
}

} // verus!
