use crate::pkid::PacketIds;
use crate::token::Subscription;
use crate::topic_table::TopicTable;
use crate::topic_trie::TopicManager;
use vstd::prelude::*;

verus! {

/// What a client keeps across a connection: the packet identifiers in
/// flight with the tokens that wait for them, the handlers by topic filter,
/// and the subscriptions the broker granted, by filter.
pub struct State<T, H> {
    pub packet_ids: PacketIds<T>,
    pub topic_manager: TopicManager<H>,
    pub subscriptions: TopicTable<Subscription<H>>,
}

impl<T, H: Copy> State<T, H> {
    pub open spec fn wf(&self) -> bool {
        self.topic_manager.wf() && self.subscriptions.wf()
    }

    /// Nothing in flight, no handlers, no subscriptions.
    pub fn new() -> (r: Self)
        ensures
            r.wf(),
            r.packet_ids@ == Map::<u16, T>::empty(),
            r.packet_ids.last_issued() == crate::pkid::PKID_MIN,
            r.topic_manager@ == Map::<Seq<Seq<char>>, Seq<H>>::empty(),
            forall|f: Seq<Seq<char>>| #[trigger] r.topic_manager.has_filter_node(f) == (f.len() == 0),
            r.subscriptions@ == Map::<Seq<char>, Subscription<H>>::empty(),
    {
        State {
            packet_ids: PacketIds::new(),
            topic_manager: TopicManager::new(),
            subscriptions: TopicTable::new(),
        }
    }
}

} // verus!
