use crate::protocol::{QoSWithPacketIdentifier, QualityOfService};
use vstd::prelude::*;

verus! {

/// A message delivered by the broker.
#[derive(Debug, Clone)]
pub struct Message {
    topic: String,
    payload: Vec<u8>,
    qos: QualityOfService,
    packet_id: Option<u16>,
    dup: bool,
    retain: bool,
}

impl Message {
    pub closed spec fn spec_topic(&self) -> Seq<char> {
        self.topic@
    }

    pub closed spec fn spec_payload(&self) -> Seq<u8> {
        self.payload@
    }

    pub closed spec fn spec_qos(&self) -> QualityOfService {
        self.qos
    }

    pub closed spec fn spec_packet_id(&self) -> Option<u16> {
        self.packet_id
    }

    pub closed spec fn spec_dup(&self) -> bool {
        self.dup
    }

    pub closed spec fn spec_retain(&self) -> bool {
        self.retain
    }

    /// The message that a publish packet carries: its topic, payload and
    /// flags, and its level split from the packet identifier it comes with.
    pub fn new(
        topic: String,
        payload: Vec<u8>,
        qos: QoSWithPacketIdentifier,
        dup: bool,
        retain: bool,
    ) -> (r: Self)
        ensures
            r.spec_topic() == topic@,
            r.spec_payload() == payload@,
            (r.spec_qos(), r.spec_packet_id()) == (match qos {
                QoSWithPacketIdentifier::Level0 => (QualityOfService::Level0, None),
                QoSWithPacketIdentifier::Level1(id) => (QualityOfService::Level1, Some(id)),
                QoSWithPacketIdentifier::Level2(id) => (QualityOfService::Level2, Some(id)),
            }),
            r.spec_dup() == dup,
            r.spec_retain() == retain,
    {
        let (qos, packet_id) = qos.split();
        Message { topic, payload, qos, packet_id, dup, retain }
    }

    pub fn topic(&self) -> (r: &str)
        ensures
            r@ == self.spec_topic(),
    {
        self.topic.as_str()
    }

    pub fn payload(&self) -> (r: &[u8])
        ensures
            r@ == self.spec_payload(),
    {
        self.payload.as_slice()
    }

    pub fn qos(&self) -> (r: QualityOfService)
        ensures
            r == self.spec_qos(),
    {
        self.qos
    }

    pub fn packet_id(&self) -> (r: Option<u16>)
        ensures
            r == self.spec_packet_id(),
    {
        self.packet_id
    }

    pub fn dup(&self) -> (r: bool)
        ensures
            r == self.spec_dup(),
    {
        self.dup
    }

    pub fn retain(&self) -> (r: bool)
        ensures
            r == self.spec_retain(),
    {
        self.retain
    }
}

} // verus!
