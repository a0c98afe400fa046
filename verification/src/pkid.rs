use std::collections::HashMap;
use crate::error::MqttError;
use crate::token::Entry;
use vstd::prelude::*;

verus! {

broadcast use vstd::std_specs::hash::group_hash_axioms;

/// The largest packet identifier.
pub const PKID_MAX: u16 = 65535;

/// The smallest packet identifier; 0 is never handed out.
pub const PKID_MIN: u16 = 1;

/// Position of `id` in the cyclic search order that starts just after `last`:
/// `last + 1` has rank 1, ..., `65535` is followed by `1`, and `last` itself
/// comes last, with rank 65535.  Only meaningful for `1 <= id`.
pub open spec fn search_rank(last: u16, id: u16) -> int {
    if id > last {
        id - last
    } else {
        id + 65535 - last
    }
}

/// The identifier that has rank `k` (1 <= k <= 65535) after `last`.
pub open spec fn id_at_rank(last: u16, k: int) -> int {
    if last + k <= 65535 {
        last + k
    } else {
        last + k - 65535
    }
}

/// Every identifier from 1 to 65535 is in use.
pub open spec fn all_ids_in_use<T>(m: Map<u16, T>) -> bool {
    forall|j: u16| 1 <= j ==> #[trigger] m.contains_key(j)
}

/// The tokens of `m` whose identifiers are below `upto`, in increasing
/// order of identifier.
pub open spec fn tokens_below<T>(m: Map<u16, T>, upto: int) -> Seq<T>
    decreases upto,
{
    if upto <= 0 {
        Seq::empty()
    } else {
        let rest = tokens_below(m, upto - 1);
        if m.contains_key((upto - 1) as u16) {
            rest.push(m[(upto - 1) as u16])
        } else {
            rest
        }
    }
}

/// The packet identifiers in flight, each with the token of the request
/// that waits for it, and the identifier issued last.
pub struct PacketIds<T> {
    index: HashMap<u16, T>,
    last_issued_id: u16,
}

impl<T> View for PacketIds<T> {
    type V = Map<u16, T>;

    closed spec fn view(&self) -> Map<u16, T> {
        self.index@
    }
}

impl<T> PacketIds<T> {
    /// The identifier issued (or claimed) last; the next search starts after it.
    pub closed spec fn last_issued(&self) -> u16 {
        self.last_issued_id
    }

    /// An empty table whose search starts after identifier 1.
    pub fn new() -> (r: Self)
        ensures
            r@ == Map::<u16, T>::empty(),
            r.last_issued() == PKID_MIN,
    {
        PacketIds { index: HashMap::new(), last_issued_id: PKID_MIN }
    }

    /// The identifier issued (or claimed) last.
    pub fn last_issued_id(&self) -> (r: u16)
        ensures
            r == self.last_issued(),
    {
        self.last_issued_id
    }

    /// `after` is this table once `get_id` has handed out `id` for `token`:
    /// `id` is the first identifier not in use in the cyclic order after the
    /// one issued last (0 is skipped), now held by `token` and issued last;
    /// or `id` is 0, every identifier from 1 to 65535 being in use, and
    /// nothing changed.
    pub open spec fn issues(self, after: Self, token: T, id: u16) -> bool {
        &&& id == 0 ==> {
            &&& all_ids_in_use(self@)
            &&& after@ == self@
            &&& after.last_issued() == self.last_issued()
        }
        &&& id != 0 ==> {
            &&& !self@.contains_key(id)
            &&& after@ == self@.insert(id, token)
            &&& after.last_issued() == id
            &&& forall|j: u16|
                1 <= j && search_rank(self.last_issued(), j) < search_rank(self.last_issued(), id)
                    ==> #[trigger] self@.contains_key(j)
        }
    }

    /// Hands out a free identifier for `token`: the first identifier not in
    /// use, searching cyclically from just after the one issued last and
    /// skipping 0.  Returns 0, and keeps the table as it is, when every
    /// identifier from 1 to 65535 is in use.
    pub fn get_id(&mut self, token: T) -> (id: u16)
        ensures
            old(self).issues(*final(self), token, id),
    {
        let last = self.last_issued_id;
        let mut i = self.last_issued_id;
        let mut looped = false;
        let ghost mut k: int = 0;
        loop
            invariant
                self.index@ == old(self)@,
                self.last_issued_id == last,
                last == old(self).last_issued_id,
                0 <= k <= 65534,
                k == 0 ==> i == last && !looped,
                k > 0 ==> i == id_at_rank(last, k) && (looped <==> last + k > 65535),
                k > 0 ==> i >= 1,
                forall|j: u16|
                    1 <= j && search_rank(last, j) <= k ==> #[trigger] self.index@.contains_key(j),
            decreases 65535 - k,
        {
            i = i.wrapping_add(1);
            if i == 0 {
                i = 1;
                looped = true;
            }
            proof {
                if k == 0 {
                    assert(i as int == id_at_rank(last, 1)) by {
                        if last == 65535 {
                            assert(i == 1);
                        } else {
                            assert(i == last + 1);
                        }
                    }
                } else {
                    assert(i as int == id_at_rank(last, k + 1));
                }
                k = k + 1;
                assert(search_rank(last, i) == k);
            }
            if !self.index.contains_key(&i) {
                self.index.insert(i, token);
                self.last_issued_id = i;
                return i;
            }
            if (looped && i == self.last_issued_id) || (self.last_issued_id == 0 && i == PKID_MAX) {
                proof {
                    if last == 0 {
                        assert(i == 65535);
                    } else {
                        assert(i == last);
                    }
                    assert(k == 65535);
                    assert forall|j: u16| 1 <= j implies #[trigger] old(self)@.contains_key(j) by {
                        assert(search_rank(last, j) <= 65535);
                    }
                }
                return 0;
            }
            proof {
                assert(k < 65535) by {
                    if k == 65535 {
                        if last == 0 {
                            assert(i == 65535);
                        } else {
                            assert(i == last);
                        }
                    }
                }
            }
        }
    }

    /// The token waiting for `id`, if any.
    pub fn get_token(&self, id: u16) -> (r: Option<&T>)
        ensures
            r == (if self@.contains_key(id) {
                Some(&self@[id])
            } else {
                None
            }),
    {
        self.index.get(&id)
    }

    /// Places `token` under `id`, whether or not `id` was in use, leaving the
    /// identifier issued last as it is.  The token that held `id` before, if
    /// any, is handed back.
    pub fn put(&mut self, id: u16, token: T) -> (displaced: Option<T>)
        ensures
            final(self)@ == old(self)@.insert(id, token),
            final(self).last_issued() == old(self).last_issued(),
            displaced == (if old(self)@.contains_key(id) {
                Some(old(self)@[id])
            } else {
                None
            }),
    {
        self.index.insert(id, token)
    }

    /// Releases `id`.  The token that held it, if any, is handed back.
    pub fn free_id(&mut self, id: &u16) -> (freed: Option<T>)
        ensures
            final(self)@ == old(self)@.remove(*id),
            final(self).last_issued() == old(self).last_issued(),
            freed == (if old(self)@.contains_key(*id) {
                Some(old(self)@[*id])
            } else {
                None
            }),
    {
        self.index.remove(id)
    }

}


impl<W, H> PacketIds<Entry<W, H>> {
    /// Registers `entry` under the identifier `id` chosen elsewhere.  The
    /// request that held `id` before, if any, has its flow ended and is
    /// handed back.
    pub fn claim_id(&mut self, entry: Entry<W, H>, id: u16) -> (displaced: Option<Entry<W, H>>)
        ensures
            final(self)@ == old(self)@.insert(id, entry),
            !old(self)@.contains_key(id) ==> displaced is None,
            old(self)@.contains_key(id) ==> (displaced matches Some(d) && d.waiter == old(
                self,
            )@[id].waiter && d.token.same_request(&old(self)@[id].token)
                && d.token.state().is_complete() && d.token.state().error() == old(
                self,
            )@[id].token.state().error()),
            final(self).last_issued() == (if id > old(self).last_issued() {
                id
            } else {
                old(self).last_issued()
            }),
    {
        let displaced = self.index.insert(id, entry);
        if id > self.last_issued_id {
            self.last_issued_id = id;
        }
        match displaced {
            Some(mut d) => {
                d.token.flow_complete();
                Some(d)
            },
            None => None,
        }
    }

    /// Releases every identifier.  The requests that held them fail with
    /// `ConnectionLost` and are handed back, in increasing order of
    /// identifier.
    pub fn clean_up(&mut self) -> (entries: Vec<Entry<W, H>>)
        ensures
            final(self)@ == Map::<u16, Entry<W, H>>::empty(),
            entries@.len() == tokens_below(old(self)@, 65536).len(),
            forall|i: int|
                0 <= i < entries@.len() ==> {
                    let before = tokens_below(old(self)@, 65536)[i];
                    &&& (#[trigger] entries@[i]).waiter == before.waiter
                    &&& entries@[i].token.same_request(&before.token)
                    &&& entries@[i].token.state().is_complete()
                    &&& entries@[i].token.state().error() == Some(MqttError::ConnectionLost)
                },
            final(self).last_issued() == old(self).last_issued(),
    {
        let mut entries: Vec<Entry<W, H>> = Vec::new();
        let mut id: u32 = 0;
        while id <= 65535
            invariant
                id <= 65536,
                entries@.len() == tokens_below(old(self)@, id as int).len(),
                forall|i: int|
                    0 <= i < entries@.len() ==> {
                        let before = tokens_below(old(self)@, id as int)[i];
                        &&& (#[trigger] entries@[i]).waiter == before.waiter
                        &&& entries@[i].token.same_request(&before.token)
                        &&& entries@[i].token.state().is_complete()
                        &&& entries@[i].token.state().error() == Some(MqttError::ConnectionLost)
                    },
                forall|j: u16| (j as int) < id ==> !#[trigger] self.index@.contains_key(j),
                forall|j: u16|
                    (j as int) >= id ==> (#[trigger] self.index@.contains_key(j)
                        == old(self)@.contains_key(j) && (old(self)@.contains_key(j) ==> self.index@[j]
                        == old(self)@[j])),
                self.last_issued_id == old(self).last_issued(),
            decreases 65536 - id,
        {
            let key: u16 = id as u16;
            let removed = self.index.remove(&key);
            let ghost prev = tokens_below(old(self)@, id as int);
            match removed {
                Some(e) => {
                    let mut e = e;
                    e.token.set_error(MqttError::ConnectionLost);
                    entries.push(e);
                },
                None => {},
            }
            proof {
                let next = tokens_below(old(self)@, id + 1);
                assert(next == if old(self)@.contains_key(key) {
                    prev.push(old(self)@[key])
                } else {
                    prev
                });
            }
            id = id + 1;
        }
        proof {
            assert(self.index@ =~= Map::<u16, Entry<W, H>>::empty());
        }
        entries
    }
}

/// Releasing the identifier just handed out gives back the token it was
/// handed out for, and the table of identifiers in use as it was before.
pub proof fn law_free_undoes_get_id<T>(before: PacketIds<T>, after: PacketIds<T>, token: T, id: u16)
    requires
        before.issues(after, token, id),
        id != 0,
    ensures
        after@.contains_key(id),
        after@[id] == token,
        after@.remove(id) == before@,
{
    assert(after@.remove(id) =~= before@);
}

/// With no identifier in use, the one handed out is the one after the
/// identifier issued last (1 after 65535): identifiers are issued in turn.
pub proof fn law_ids_issued_in_turn<T>(before: PacketIds<T>, after: PacketIds<T>, token: T, id: u16)
    requires
        before.issues(after, token, id),
        forall|j: u16| 1 <= j ==> !#[trigger] before@.contains_key(j),
    ensures
        id as int == id_at_rank(before.last_issued(), 1),
{
    assert(!all_ids_in_use(before@)) by {
        assert(!before@.contains_key(1));
    }
    assert(id != 0);
    let last = before.last_issued();
    let want = id_at_rank(last, 1);
    assert(1 <= want <= 65535);
    let w = want as u16;
    assert(search_rank(last, w) == 1);
    if id as int != want {
        assert(search_rank(last, w) < search_rank(last, id));
        assert(!before@.contains_key(w));
    }
}

} // verus!
