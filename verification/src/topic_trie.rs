use vstd::prelude::*;
use vstd::multiset::Multiset;

verus! {

/// The levels of a topic, each as the characters it holds.
pub open spec fn levels(tokens: Seq<String>) -> Seq<Seq<char>> {
    tokens.map_values(|s: String| s@)
}

/// The single-level wildcard `+`.
pub open spec fn plus_level() -> Seq<char> {
    seq!['+']
}

/// The multi-level wildcard `#`.
pub open spec fn hash_level() -> Seq<char> {
    seq!['#']
}

/// No two children are reached by the same level.
spec fn keys_unique<V>(cs: Seq<(String, TrieNode<V>)>) -> bool {
    forall|i: int, j: int|
        0 <= i < cs.len() && 0 <= j < cs.len() && i != j ==> #[trigger] cs[i].0@ != #[trigger] cs[j].0@
}

/// The child reached by level `k`, if any.
spec fn child_of<V>(cs: Seq<(String, TrieNode<V>)>, k: Seq<char>) -> Option<TrieNode<V>> {
    if exists|i: int| 0 <= i < cs.len() && #[trigger] cs[i].0@ == k {
        Some(cs[choose|i: int| 0 <= i < cs.len() && #[trigger] cs[i].0@ == k].1)
    } else {
        None
    }
}

/// One node of the subscription trie: the children one level down, keyed
/// by level, and the handlers of the filter that ends here.
struct TrieNode<V> {
    children: Vec<(String, TrieNode<V>)>,
    handlers: Vec<V>,
}

impl<V> TrieNode<V> {
    /// Children are keyed uniquely, all the way down.
    spec fn wf(self) -> bool
        decreases self,
    {
        &&& keys_unique(self.children@)
        &&& forall|i: int|
            0 <= i < self.children@.len() ==> (#[trigger] self.children@[i]).1.wf()
    }

    /// The handlers stored under the filter `p`, relative to this node.
    spec fn lookup(self, p: Seq<Seq<char>>) -> Seq<V>
        decreases p.len(),
    {
        if p.len() == 0 {
            self.handlers@
        } else {
            match child_of(self.children@, p[0]) {
                Some(c) => c.lookup(p.drop_first()),
                None => Seq::empty(),
            }
        }
    }

    /// Whether a node exists for the filter `p`, relative to this node.
    spec fn has_node(self, p: Seq<Seq<char>>) -> bool
        decreases p.len(),
    {
        if p.len() == 0 {
            true
        } else {
            match child_of(self.children@, p[0]) {
                Some(c) => c.has_node(p.drop_first()),
                None => false,
            }
        }
    }

    /// Every node at or below `q` lies on the path `r`, and every one of them
    /// but `r` itself holds no handlers.
    spec fn covers(self, r: Seq<Seq<char>>, q: Seq<Seq<char>>) -> bool {
        forall|y: Seq<Seq<char>>|
            #[trigger] self.has_node(y) && q.is_prefix_of(y) ==> y.is_prefix_of(r) && (y == r
                || self.lookup(y).len() == 0)
    }

    /// The node `q` is one that removing the filter `r` takes out of the trie:
    /// a node strictly below this one, on the path to `r`, left with no
    /// handlers and no branch off that path.
    spec fn pruned(self, r: Seq<Seq<char>>, q: Seq<Seq<char>>) -> bool {
        q.len() > 0 && q.is_prefix_of(r) && self.covers(r, q)
    }

    /// The handlers that a topic whose levels still to match are `rest`
    /// reaches, having followed the filter levels `p` from this node: the
    /// exact level first, then `+`, then the handlers of a `#` one level on.
    spec fn matched(self, p: Seq<Seq<char>>, rest: Seq<Seq<char>>) -> Seq<V>
        decreases rest.len(),
    {
        if rest.len() == 0 {
            self.lookup(p)
        } else {
            self.matched(p.push(rest[0]), rest.drop_first()) + self.matched(
                p.push(plus_level()),
                rest.drop_first(),
            ) + self.lookup(p.push(hash_level()))
        }
    }

    fn new() -> (r: Self)
        ensures
            r.wf(),
            r.children@.len() == 0,
            r.handlers@.len() == 0,
    {
        TrieNode { children: Vec::new(), handlers: Vec::new() }
    }
}

proof fn lemma_child_at<V>(cs: Seq<(String, TrieNode<V>)>, i: int)
    requires
        keys_unique(cs),
        0 <= i < cs.len(),
    ensures
        child_of(cs, cs[i].0@) == Some(cs[i].1),
{
    let k = cs[i].0@;
    assert(cs[i].0@ == k);
    let j = choose|j: int| 0 <= j < cs.len() && #[trigger] cs[j].0@ == k;
    assert(j == i);
}

proof fn lemma_child_absent<V>(cs: Seq<(String, TrieNode<V>)>, k: Seq<char>)
    requires
        forall|i: int| 0 <= i < cs.len() ==> #[trigger] cs[i].0@ != k,
    ensures
        child_of(cs, k) == None::<TrieNode<V>>,
{
}

proof fn lemma_child_update<V>(cs: Seq<(String, TrieNode<V>)>, i: int, e: (String, TrieNode<V>))
    requires
        keys_unique(cs),
        0 <= i < cs.len(),
        e.0@ == cs[i].0@,
    ensures
        keys_unique(cs.update(i, e)),
        forall|k: Seq<char>|
            #[trigger] child_of(cs.update(i, e), k) == if k == e.0@ {
                Some(e.1)
            } else {
                child_of(cs, k)
            },
{
    let ns = cs.update(i, e);
    assert forall|a: int, b: int|
        0 <= a < ns.len() && 0 <= b < ns.len() && a != b implies #[trigger] ns[a].0@
        != #[trigger] ns[b].0@ by {
        if a != i && b != i {
            assert(cs[a].0@ != cs[b].0@);
        } else if a == i {
            assert(cs[i].0@ != cs[b].0@);
        } else {
            assert(cs[a].0@ != cs[i].0@);
        }
    }
    assert forall|k: Seq<char>|
        #[trigger] child_of(ns, k) == if k == e.0@ {
            Some(e.1)
        } else {
            child_of(cs, k)
        } by {
        if k == e.0@ {
            lemma_child_at(ns, i);
        } else {
            if exists|j: int| 0 <= j < cs.len() && #[trigger] cs[j].0@ == k {
                let j = choose|j: int| 0 <= j < cs.len() && #[trigger] cs[j].0@ == k;
                lemma_child_at(cs, j);
                lemma_child_at(ns, j);
            } else {
                assert forall|j: int| 0 <= j < ns.len() implies #[trigger] ns[j].0@ != k by {
                    if j != i {
                        assert(cs[j].0@ != k);
                    }
                }
            }
        }
    }
}

proof fn lemma_child_remove<V>(cs: Seq<(String, TrieNode<V>)>, i: int)
    requires
        keys_unique(cs),
        0 <= i < cs.len(),
    ensures
        keys_unique(cs.remove(i)),
        forall|k: Seq<char>|
            #[trigger] child_of(cs.remove(i), k) == if k == cs[i].0@ {
                None
            } else {
                child_of(cs, k)
            },
{
    let ns = cs.remove(i);
    assert forall|a: int, b: int|
        0 <= a < ns.len() && 0 <= b < ns.len() && a != b implies #[trigger] ns[a].0@
        != #[trigger] ns[b].0@ by {
        let a2 = if a < i { a } else { a + 1 };
        let b2 = if b < i { b } else { b + 1 };
        assert(ns[a] == cs[a2]);
        assert(ns[b] == cs[b2]);
        assert(cs[a2].0@ != cs[b2].0@);
    }
    assert forall|k: Seq<char>|
        #[trigger] child_of(ns, k) == if k == cs[i].0@ {
            None
        } else {
            child_of(cs, k)
        } by {
        if k == cs[i].0@ {
            assert forall|j: int| 0 <= j < ns.len() implies #[trigger] ns[j].0@ != k by {
                let j2 = if j < i { j } else { j + 1 };
                assert(ns[j] == cs[j2]);
                assert(cs[j2].0@ != cs[i].0@);
            }
        } else {
            if exists|j: int| 0 <= j < cs.len() && #[trigger] cs[j].0@ == k {
                let j = choose|j: int| 0 <= j < cs.len() && #[trigger] cs[j].0@ == k;
                lemma_child_at(cs, j);
                assert(j != i);
                let j2 = if j < i { j } else { j - 1 };
                assert(ns[j2] == cs[j]);
                lemma_child_at(ns, j2);
            } else {
                assert forall|j: int| 0 <= j < ns.len() implies #[trigger] ns[j].0@ != k by {
                    let j2 = if j < i { j } else { j + 1 };
                    assert(ns[j] == cs[j2]);
                }
            }
        }
    }
}

proof fn lemma_child_push<V>(cs: Seq<(String, TrieNode<V>)>, e: (String, TrieNode<V>))
    requires
        keys_unique(cs),
        forall|i: int| 0 <= i < cs.len() ==> #[trigger] cs[i].0@ != e.0@,
    ensures
        keys_unique(cs.push(e)),
        forall|k: Seq<char>|
            #[trigger] child_of(cs.push(e), k) == if k == e.0@ {
                Some(e.1)
            } else {
                child_of(cs, k)
            },
{
    let ns = cs.push(e);
    assert forall|a: int, b: int|
        0 <= a < ns.len() && 0 <= b < ns.len() && a != b implies #[trigger] ns[a].0@
        != #[trigger] ns[b].0@ by {
        if a < cs.len() && b < cs.len() {
            assert(cs[a].0@ != cs[b].0@);
        } else if a < cs.len() {
            assert(cs[a].0@ != e.0@);
        } else {
            assert(cs[b].0@ != e.0@);
        }
    }
    assert forall|k: Seq<char>|
        #[trigger] child_of(ns, k) == if k == e.0@ {
            Some(e.1)
        } else {
            child_of(cs, k)
        } by {
        if k == e.0@ {
            lemma_child_at(ns, cs.len() as int);
        } else {
            if exists|j: int| 0 <= j < cs.len() && #[trigger] cs[j].0@ == k {
                let j = choose|j: int| 0 <= j < cs.len() && #[trigger] cs[j].0@ == k;
                lemma_child_at(cs, j);
                assert(ns[j] == cs[j]);
                lemma_child_at(ns, j);
            } else {
                assert forall|j: int| 0 <= j < ns.len() implies #[trigger] ns[j].0@ != k by {
                    if j < cs.len() {
                        assert(ns[j] == cs[j]);
                    }
                }
            }
        }
    }
}

/// A node without children or handlers holds nothing below it.
proof fn lemma_empty_node<V>(n: TrieNode<V>, p: Seq<Seq<char>>)
    requires
        n.children@.len() == 0,
        n.handlers@.len() == 0,
    ensures
        n.lookup(p) == Seq::<V>::empty(),
        n.has_node(p) == (p.len() == 0),
{
    if p.len() > 0 {
        lemma_child_absent(n.children@, p[0]);
    }
}

proof fn lemma_cons_eq<A>(q: Seq<A>, r: Seq<A>)
    requires
        q.len() > 0,
        r.len() > 0,
        q[0] == r[0],
        q.drop_first() == r.drop_first(),
    ensures
        q == r,
{
    assert(q.len() == q.drop_first().len() + 1);
    assert(r.len() == r.drop_first().len() + 1);
    assert forall|t: int| 0 <= t < q.len() implies q[t] == r[t] by {
        if t > 0 {
            assert(q.drop_first()[t - 1] == q[t]);
            assert(r.drop_first()[t - 1] == r[t]);
        }
    }
    assert(q =~= r);
}

proof fn lemma_cons_prefix<A>(q: Seq<A>, r: Seq<A>)
    requires
        q.len() > 0,
        r.len() > 0,
    ensures
        q.is_prefix_of(r) == (q[0] == r[0] && q.drop_first().is_prefix_of(r.drop_first())),
{
    if q.is_prefix_of(r) {
        assert forall|t: int| 0 <= t < q.drop_first().len() implies q.drop_first()[t]
            == r.drop_first()[t] by {
            assert(q[t + 1] == r[t + 1]);
        }
    }
    if q[0] == r[0] && q.drop_first().is_prefix_of(r.drop_first()) {
        assert forall|t: int| 0 <= t < q.len() implies q[t] == r[t] by {
            if t > 0 {
                assert(q.drop_first()[t - 1] == r.drop_first()[t - 1]);
            }
        }
    }
}

proof fn lemma_lookup_has_node<V>(n: TrieNode<V>, p: Seq<Seq<char>>)
    requires
        n.lookup(p).len() > 0,
    ensures
        n.has_node(p),
    decreases p.len(),
{
    if p.len() > 0 {
        match child_of(n.children@, p[0]) {
            Some(c) => lemma_lookup_has_node(c, p.drop_first()),
            None => {},
        }
    }
}

proof fn lemma_covers_shift<V>(
    n: TrieNode<V>,
    c: TrieNode<V>,
    r: Seq<Seq<char>>,
    q: Seq<Seq<char>>,
)
    requires
        r.len() > 0,
        q.len() > 0,
        q[0] == r[0],
        child_of(n.children@, r[0]) == Some(c),
    ensures
        n.covers(r, q) == c.covers(r.drop_first(), q.drop_first()),
{
    let k = r[0];
    let r2 = r.drop_first();
    let q2 = q.drop_first();
    if n.covers(r, q) {
        assert forall|y2: Seq<Seq<char>>| #[trigger]
            c.has_node(y2) && q2.is_prefix_of(y2) implies y2.is_prefix_of(r2) && (y2 == r2
            || c.lookup(y2).len() == 0) by {
            let y = seq![k] + y2;
            assert(y.drop_first() =~= y2);
            assert(y[0] == k);
            assert(n.has_node(y));
            lemma_cons_prefix(q, y);
            lemma_cons_prefix(y, r);
            if y2 == r2 {
            } else {
                if y == r {
                    assert(y.drop_first() == r.drop_first());
                }
            }
        }
    }
    if c.covers(r2, q2) {
        assert forall|y: Seq<Seq<char>>| #[trigger]
            n.has_node(y) && q.is_prefix_of(y) implies y.is_prefix_of(r) && (y == r
            || n.lookup(y).len() == 0) by {
            assert(y.len() > 0);
            assert(y[0] == q[0]);
            let y2 = y.drop_first();
            assert(c.has_node(y2));
            lemma_cons_prefix(q, y);
            lemma_cons_prefix(y, r);
            if y2 == r2 {
                lemma_cons_eq(y, r);
            }
        }
    }
}

proof fn lemma_matched_shift<V>(
    n: TrieNode<V>,
    k: Seq<char>,
    p: Seq<Seq<char>>,
    rest: Seq<Seq<char>>,
)
    ensures
        n.matched(seq![k] + p, rest) == match child_of(n.children@, k) {
            Some(c) => c.matched(p, rest),
            None => Seq::<V>::empty(),
        },
    decreases rest.len(),
{
    let kp = seq![k] + p;
    assert(kp.len() > 0 && kp[0] == k);
    assert(kp.drop_first() =~= p);
    if rest.len() > 0 {
        let r2 = rest.drop_first();
        lemma_matched_shift(n, k, p.push(rest[0]), r2);
        lemma_matched_shift(n, k, p.push(plus_level()), r2);
        assert(kp.push(rest[0]) =~= seq![k] + p.push(rest[0]));
        assert(kp.push(plus_level()) =~= seq![k] + p.push(plus_level()));
        let kh = kp.push(hash_level());
        assert(kh.len() > 0 && kh[0] == k);
        assert(kh.drop_first() =~= p.push(hash_level()));
    }
}

fn extend_handlers<V: Copy>(out: &mut Vec<V>, hs: &Vec<V>)
    ensures
        final(out)@ == old(out)@ + hs@,
{
    let mut j: usize = 0;
    while j < hs.len()
        invariant
            j <= hs@.len(),
            out@ == old(out)@ + hs@.take(j as int),
        decreases hs@.len() - j,
    {
        out.push(hs[j]);
        j = j + 1;
        proof {
            assert(hs@.take(j as int) =~= hs@.take(j - 1).push(hs@[j - 1]));
        }
    }
    proof {
        assert(hs@.take(hs@.len() as int) =~= hs@);
    }
}

spec fn cleared_copy<V>(ncs: Seq<(String, TrieNode<V>)>, ocs: Seq<(String, TrieNode<V>)>) -> bool {
    &&& ncs.len() == ocs.len()
    &&& forall|j: int|
        0 <= j < ncs.len() ==> {
            &&& (#[trigger] ncs[j]).0@ == ocs[j].0@
            &&& forall|q: Seq<Seq<char>>| #[trigger] ncs[j].1.lookup(q) == Seq::<V>::empty()
            &&& forall|q: Seq<Seq<char>>| #[trigger] ncs[j].1.has_node(q) == ocs[j].1.has_node(q)
        }
}

proof fn lemma_cleared_children<V>(ncs: Seq<(String, TrieNode<V>)>, ocs: Seq<(String, TrieNode<V>)>)
    requires
        keys_unique(ocs),
        cleared_copy(ncs, ocs),
    ensures
        keys_unique(ncs),
{
    assert forall|a: int, b: int|
        0 <= a < ncs.len() && 0 <= b < ncs.len() && a != b implies #[trigger] ncs[a].0@
        != #[trigger] ncs[b].0@ by {
        assert(ocs[a].0@ != ocs[b].0@);
    }
}

proof fn lemma_cleared_child<V>(ncs: Seq<(String, TrieNode<V>)>, ocs: Seq<(String, TrieNode<V>)>, k: Seq<char>)
    requires
        keys_unique(ocs),
        cleared_copy(ncs, ocs),
    ensures
        (child_of(ncs, k) is None) == (child_of(ocs, k) is None),
        child_of(ncs, k) is Some ==> (forall|q: Seq<Seq<char>>| #[trigger] child_of(ncs, k)->0.lookup(q) == Seq::<V>::empty()),
        child_of(ncs, k) is Some ==> (forall|q: Seq<Seq<char>>| #[trigger] child_of(ncs, k)->0.has_node(q) == child_of(ocs, k)->0.has_node(q)),
{
    lemma_cleared_children(ncs, ocs);
    if exists|j: int| 0 <= j < ocs.len() && #[trigger] ocs[j].0@ == k {
        let j = choose|j: int| 0 <= j < ocs.len() && #[trigger] ocs[j].0@ == k;
        lemma_child_at(ocs, j);
        lemma_child_at(ncs, j);
    } else {
        assert forall|j: int| 0 <= j < ncs.len() implies #[trigger] ncs[j].0@ != k by {
            assert(ocs[j].0@ != k);
        }
    }
}

fn find_child<V>(children: &Vec<(String, TrieNode<V>)>, key: &String) -> (r: Option<usize>)
    ensures
        match r {
            Some(i) => i < children@.len() && children@[i as int].0@ == key@,
            None => forall|i: int| 0 <= i < children@.len() ==> #[trigger] children@[i].0@ != key@,
        },
{
    let mut i: usize = 0;
    while i < children.len()
        invariant
            i <= children@.len(),
            forall|j: int| 0 <= j < i ==> #[trigger] children@[j].0@ != key@,
        decreases children@.len() - i,
    {
        if children[i].0 == *key {
            return Some(i);
        }
        i = i + 1;
    }
    None
}

impl<V: Copy> TrieNode<V> {
    /// Adds `h` under the filter `tokens[level..]`, creating the nodes on
    /// its path that are missing.
    fn insert(&mut self, tokens: &Vec<String>, level: usize, h: V)
        requires
            old(self).wf(),
            level <= tokens@.len(),
        ensures
            final(self).wf(),
            forall|q: Seq<Seq<char>>|
                #[trigger] final(self).lookup(q) == if q == levels(tokens@).skip(level as int) {
                    old(self).lookup(q).push(h)
                } else {
                    old(self).lookup(q)
                },
            forall|q: Seq<Seq<char>>|
                #[trigger] final(self).has_node(q) == (old(self).has_node(q) || q.is_prefix_of(
                    levels(tokens@).skip(level as int),
                )),
        decreases tokens@.len() - level,
    {
        let ghost r = levels(tokens@).skip(level as int);
        if level == tokens.len() {
            self.handlers.push(h);
            proof {
                assert forall|q: Seq<Seq<char>>|
                    #[trigger] self.lookup(q) == if q == r {
                        old(self).lookup(q).push(h)
                    } else {
                        old(self).lookup(q)
                    } by {
                    if q.len() == 0 {
                        assert(q =~= r);
                    }
                }
                assert forall|q: Seq<Seq<char>>|
                    #[trigger] self.has_node(q) == (old(self).has_node(q) || q.is_prefix_of(r)) by {
                    if q.len() == 0 {
                    }
                }
            }
            return;
        }
        let ghost k = tokens@[level as int]@;
        let ghost r2 = levels(tokens@).skip(level + 1);
        proof {
            assert(r.len() > 0);
            assert(r[0] == k);
            assert(r.drop_first() =~= r2);
        }
        match find_child(&self.children, &tokens[level]) {
            Some(i) => {
                let ghost old_cs = self.children@;
                let (key, mut child) = self.children.remove(i);
                proof {
                    assert(old_cs[i as int].1.wf());
                }
                let ghost old_child = child;
                child.insert(tokens, level + 1, h);
                self.children.insert(i, (key, child));
                proof {
                    let e = (key, child);
                    assert(self.children@ =~= old_cs.update(i as int, e));
                    lemma_child_update(old_cs, i as int, e);
                    lemma_child_at(old_cs, i as int);
                    assert forall|j: int| 0 <= j < self.children@.len() implies (
                    #[trigger] self.children@[j]).1.wf() by {
                        if j != i {
                            assert(old_cs[j].1.wf());
                        }
                    }
                    assert forall|q: Seq<Seq<char>>|
                        #[trigger] self.lookup(q) == if q == r {
                            old(self).lookup(q).push(h)
                        } else {
                            old(self).lookup(q)
                        } by {
                        if q.len() > 0 {
                            if q[0] == k {
                                assert(child.lookup(q.drop_first()) == if q.drop_first() == r2 {
                                    old_child.lookup(q.drop_first()).push(h)
                                } else {
                                    old_child.lookup(q.drop_first())
                                });
                                if q.drop_first() == r2 {
                                    lemma_cons_eq(q, r);
                                } else {
                                    assert(q != r);
                                }
                            } else {
                                assert(q != r);
                            }
                        } else {
                            assert(q != r);
                        }
                    }
                    assert forall|q: Seq<Seq<char>>|
                        #[trigger] self.has_node(q) == (old(self).has_node(q) || q.is_prefix_of(
                            r,
                        )) by {
                        if q.len() > 0 {
                            if q[0] == k {
                                assert(child.has_node(q.drop_first()) == (old_child.has_node(
                                    q.drop_first(),
                                ) || q.drop_first().is_prefix_of(r2)));
                                lemma_cons_prefix(q, r);
                            } else {
                                lemma_cons_prefix(q, r);
                            }
                        }
                    }
                }
            },
            None => {
                let ghost old_cs = self.children@;
                let mut child = TrieNode::new();
                let ghost empty = child;
                child.insert(tokens, level + 1, h);
                let key = tokens[level].clone();
                self.children.push((key, child));
                proof {
                    let e = (key, child);
                    lemma_child_push(old_cs, e);
                    lemma_child_absent(old_cs, k);
                    assert forall|j: int| 0 <= j < self.children@.len() implies (
                    #[trigger] self.children@[j]).1.wf() by {
                        if j < old_cs.len() {
                            assert(old_cs[j].1.wf());
                        }
                    }
                    assert forall|q: Seq<Seq<char>>|
                        #[trigger] self.lookup(q) == if q == r {
                            old(self).lookup(q).push(h)
                        } else {
                            old(self).lookup(q)
                        } by {
                        if q.len() > 0 {
                            if q[0] == k {
                                lemma_empty_node(empty, q.drop_first());
                                assert(child.lookup(q.drop_first()) == if q.drop_first() == r2 {
                                    empty.lookup(q.drop_first()).push(h)
                                } else {
                                    empty.lookup(q.drop_first())
                                });
                                if q.drop_first() == r2 {
                                    lemma_cons_eq(q, r);
                                } else {
                                    assert(q != r);
                                }
                            } else {
                                assert(q != r);
                            }
                        } else {
                            assert(q != r);
                        }
                    }
                    assert forall|q: Seq<Seq<char>>|
                        #[trigger] self.has_node(q) == (old(self).has_node(q) || q.is_prefix_of(
                            r,
                        )) by {
                        if q.len() > 0 {
                            if q[0] == k {
                                lemma_empty_node(empty, q.drop_first());
                                assert(child.has_node(q.drop_first()) == (empty.has_node(
                                    q.drop_first(),
                                ) || q.drop_first().is_prefix_of(r2)));
                                lemma_cons_prefix(q, r);
                            } else {
                                lemma_cons_prefix(q, r);
                            }
                        }
                    }
                }
            },
        }
    }

    /// Clears the handlers of the filter `tokens[level..]` and takes out of
    /// the trie the nodes on its path that are left empty.  Returns whether
    /// a node for the filter existed; when it did not, nothing changes.
    fn remove(&mut self, tokens: &Vec<String>, level: usize) -> (found: bool)
        requires
            old(self).wf(),
            level <= tokens@.len(),
        ensures
            final(self).wf(),
            found == old(self).has_node(levels(tokens@).skip(level as int)),
            forall|q: Seq<Seq<char>>|
                #[trigger] final(self).lookup(q) == if found && q == levels(tokens@).skip(
                    level as int,
                ) {
                    Seq::<V>::empty()
                } else {
                    old(self).lookup(q)
                },
            forall|q: Seq<Seq<char>>|
                #[trigger] final(self).has_node(q) == (old(self).has_node(q) && !(found && old(
                    self,
                ).pruned(levels(tokens@).skip(level as int), q))),
        decreases tokens@.len() - level,
    {
        let ghost r = levels(tokens@).skip(level as int);
        if level == tokens.len() {
            self.handlers.clear();
            proof {
                assert(r.len() == 0);
                assert forall|q: Seq<Seq<char>>|
                    #[trigger] self.lookup(q) == if q == r {
                        Seq::<V>::empty()
                    } else {
                        old(self).lookup(q)
                    } by {
                    if q.len() == 0 {
                        assert(q =~= r);
                    }
                }
                assert forall|q: Seq<Seq<char>>| #[trigger]
                    self.has_node(q) == (old(self).has_node(q) && !old(self).pruned(r, q)) by {
                    if q.len() > 0 && q.is_prefix_of(r) {
                        assert(false);
                    }
                }
            }
            return true;
        }
        let ghost k = tokens@[level as int]@;
        let ghost r2 = levels(tokens@).skip(level + 1);
        proof {
            assert(r.len() > 0);
            assert(r[0] == k);
            assert(r.drop_first() =~= r2);
        }
        match find_child(&self.children, &tokens[level]) {
            None => {
                proof {
                    lemma_child_absent(self.children@, k);
                }
                false
            },
            Some(i) => {
                let ghost old_cs = self.children@;
                proof {
                    assert(old_cs[i as int].1.wf());
                    lemma_child_at(old_cs, i as int);
                    lemma_child_remove(old_cs, i as int);
                }
                let (key, mut child) = self.children.remove(i);
                let ghost c = child;
                let found = child.remove(tokens, level + 1);
                let emptied = child.children.len() == 0 && child.handlers.len() == 0;
                proof {
                    // the removal empties the child exactly when it covers the path
                    if found && c.covers(r2, Seq::empty()) {
                        assert(child.handlers@.len() == 0) by {
                            assert(child.lookup(Seq::empty()) == child.handlers@);
                            assert(c.has_node(Seq::empty()));
                            assert(Seq::<Seq<char>>::empty().is_prefix_of(Seq::<Seq<char>>::empty()));
                            if r2 != Seq::<Seq<char>>::empty() {
                                assert(c.lookup(Seq::empty()).len() == 0);
                            }
                        }
                        assert(child.children@.len() == 0) by {
                            if child.children@.len() > 0 {
                                let kj = child.children@[0].0@;
                                lemma_child_at(child.children@, 0);
                                let y = seq![kj];
                                assert(y.drop_first() =~= Seq::<Seq<char>>::empty());
                                assert(y[0] == kj);
                                assert(child.children@[0].1.has_node(y.drop_first()));
                                assert(child.has_node(y));
                                assert(c.has_node(y));
                                assert(c.pruned(r2, y)) by {
                                    assert(Seq::<Seq<char>>::empty().is_prefix_of(y));
                                    assert forall|z: Seq<Seq<char>>| #[trigger]
                                        c.has_node(z) && y.is_prefix_of(z) implies z.is_prefix_of(
                                        r2,
                                    ) && (z == r2 || c.lookup(z).len() == 0) by {
                                        assert(Seq::<Seq<char>>::empty().is_prefix_of(z));
                                    }
                                }
                            }
                        }
                    }
                    if found && emptied {
                        assert forall|y: Seq<Seq<char>>| #[trigger]
                            c.has_node(y) && Seq::<Seq<char>>::empty().is_prefix_of(y) implies y.is_prefix_of(
                            r2,
                        ) && (y == r2 || c.lookup(y).len() == 0) by {
                            if y.len() == 0 {
                                assert(child.lookup(y) == child.handlers@);
                                assert(y.is_prefix_of(r2));
                            } else {
                                lemma_child_absent(child.children@, y[0]);
                                assert(!child.has_node(y));
                                assert(c.pruned(r2, y));
                                assert(y.is_prefix_of(y));
                            }
                        }
                        assert(c.covers(r2, Seq::empty()));
                    }
                }
                if found && emptied {
                    proof {
                        assert(self.children@ == old_cs.remove(i as int));
                        assert forall|j: int| 0 <= j < self.children@.len() implies (
                        #[trigger] self.children@[j]).1.wf() by {
                            let j2 = if j < i { j } else { j + 1 };
                            assert(self.children@[j] == old_cs[j2]);
                            assert(old_cs[j2].1.wf());
                        }
                        assert forall|q: Seq<Seq<char>>|
                            #[trigger] self.lookup(q) == if q == r {
                                Seq::<V>::empty()
                            } else {
                                old(self).lookup(q)
                            } by {
                            if q.len() > 0 && q[0] == k {
                                let q2 = q.drop_first();
                                if q != r {
                                    if q2 == r2 {
                                        lemma_cons_eq(q, r);
                                    }
                                    if c.has_node(q2) {
                                        assert(q2.is_prefix_of(q2));
                                        assert(Seq::<Seq<char>>::empty().is_prefix_of(q2));
                                    } else {
                                        if c.lookup(q2).len() > 0 {
                                            lemma_lookup_has_node(c, q2);
                                        }
                                    }
                                }
                            } else if q.len() > 0 {
                                if q == r {
                                    assert(q[0] == r[0]);
                                }
                            } else {
                                assert(q != r);
                            }
                        }
                        assert forall|q: Seq<Seq<char>>| #[trigger]
                            self.has_node(q) == (old(self).has_node(q) && !old(self).pruned(r, q)) by {
                            if q.len() > 0 && q[0] == k {
                                let q2 = q.drop_first();
                                if c.has_node(q2) {
                                    lemma_covers_shift(*old(self), c, r, q);
                                    assert(Seq::<Seq<char>>::empty().is_prefix_of(q2));
                                    assert(q2.is_prefix_of(r2));
                                    lemma_cons_prefix(q, r);
                                    assert(c.covers(r2, q2));
                                }
                            } else if q.len() > 0 {
                                lemma_cons_prefix(q, r);
                            }
                        }
                    }
                } else {
                    let ghost e = (key, child);
                    self.children.insert(i, (key, child));
                    proof {
                        assert(self.children@ =~= old_cs.update(i as int, e));
                        lemma_child_update(old_cs, i as int, e);
                        assert forall|j: int| 0 <= j < self.children@.len() implies (
                        #[trigger] self.children@[j]).1.wf() by {
                            if j != i {
                                assert(old_cs[j].1.wf());
                            }
                        }
                        assert forall|q: Seq<Seq<char>>|
                            #[trigger] self.lookup(q) == if found && q == r {
                                Seq::<V>::empty()
                            } else {
                                old(self).lookup(q)
                            } by {
                            if q.len() > 0 && q[0] == k {
                                let q2 = q.drop_first();
                                assert(child_of(self.children@, k) == Some(e.1));
                                assert(self.lookup(q) == e.1.lookup(q2));
                                assert(old(self).lookup(q) == c.lookup(q2));
                                if q2 == r2 {
                                    lemma_cons_eq(q, r);
                                }
                            } else if q.len() > 0 {
                                if q == r {
                                    assert(q[0] == r[0]);
                                }
                            } else {
                                assert(q != r);
                            }
                        }
                        assert forall|q: Seq<Seq<char>>| #[trigger]
                            self.has_node(q) == (old(self).has_node(q) && !(found && old(
                                self,
                            ).pruned(r, q))) by {
                            if q.len() > 0 && q[0] == k {
                                let q2 = q.drop_first();
                                assert(child_of(self.children@, k) == Some(e.1));
                                assert(self.has_node(q) == e.1.has_node(q2));
                                assert(old(self).has_node(q) == c.has_node(q2));
                                lemma_covers_shift(*old(self), c, r, q);
                                lemma_cons_prefix(q, r);
                                if q2.len() > 0 {
                                    assert(old(self).pruned(r, q) == c.pruned(r2, q2));
                                }
                                if q2.len() == 0 {
                                    if found && old(self).pruned(r, q) {
                                        assert(c.covers(r2, q2));
                                        assert(q2 =~= Seq::<Seq<char>>::empty());
                                    }
                                }
                            } else if q.len() > 0 {
                                lemma_cons_prefix(q, r);
                            }
                        }
                    }
                }
                found
            },
        }
    }

    /// Appends to `out` the handlers whose filters match the topic levels
    /// `tokens[level..]`, reached from this node.
    fn match_topic(&self, tokens: &Vec<String>, level: usize, out: &mut Vec<V>)
        requires
            self.wf(),
            level <= tokens@.len(),
        ensures
            final(out)@ == old(out)@ + self.matched(
                Seq::empty(),
                levels(tokens@).skip(level as int),
            ),
        decreases tokens@.len() - level,
    {
        let ghost rest = levels(tokens@).skip(level as int);
        if level == tokens.len() {
            extend_handlers(out, &self.handlers);
            proof {
                assert(rest.len() == 0);
            }
            return;
        }
        let ghost k = tokens@[level as int]@;
        let ghost r2 = levels(tokens@).skip(level + 1);
        proof {
            assert(rest.len() > 0);
            assert(rest[0] == k);
            assert(rest.drop_first() =~= r2);
            assert(Seq::<Seq<char>>::empty().push(k) =~= seq![k] + Seq::<Seq<char>>::empty());
            assert(Seq::<Seq<char>>::empty().push(plus_level()) =~= seq![plus_level()]
                + Seq::<Seq<char>>::empty());
            lemma_matched_shift(*self, k, Seq::empty(), r2);
            lemma_matched_shift(*self, plus_level(), Seq::empty(), r2);
        }
        let ghost out0 = out@;
        match find_child(&self.children, &tokens[level]) {
            Some(i) => {
                proof {
                    lemma_child_at(self.children@, i as int);
                    assert(self.children@[i as int].1.wf());
                }
                self.children[i].1.match_topic(tokens, level + 1, out);
            },
            None => {
                proof {
                    lemma_child_absent(self.children@, k);
                }
            },
        }
        let ghost out1 = out@;
        let plus = "+".to_owned();
        proof {
            reveal_strlit("+");
            assert(plus@ =~= plus_level());
        }
        match find_child(&self.children, &plus) {
            Some(i) => {
                proof {
                    lemma_child_at(self.children@, i as int);
                    assert(self.children@[i as int].1.wf());
                }
                self.children[i].1.match_topic(tokens, level + 1, out);
            },
            None => {
                proof {
                    lemma_child_absent(self.children@, plus_level());
                }
            },
        }
        let ghost out2 = out@;
        let hash = "#".to_owned();
        proof {
            reveal_strlit("#");
            assert(hash@ =~= hash_level());
            let h1 = Seq::<Seq<char>>::empty().push(hash_level());
            assert(h1.len() > 0 && h1[0] == hash_level());
            assert(h1.drop_first() =~= Seq::<Seq<char>>::empty());
        }
        match find_child(&self.children, &hash) {
            Some(i) => {
                proof {
                    lemma_child_at(self.children@, i as int);
                    let c = self.children@[i as int].1;
                    assert(c.lookup(Seq::empty()) == c.handlers@);
                    let h1 = Seq::<Seq<char>>::empty().push(hash_level());
                    assert(self.lookup(h1) == c.lookup(h1.drop_first()));
                }
                extend_handlers(out, &self.children[i].1.handlers);
            },
            None => {
                proof {
                    lemma_child_absent(self.children@, hash_level());
                }
            },
        }
        proof {
            let e = Seq::<Seq<char>>::empty();
            assert(out1 == out0 + self.matched(e.push(k), r2));
            assert(out2 == out1 + self.matched(e.push(plus_level()), r2));
            assert(out@ == out2 + self.lookup(e.push(hash_level())));
            assert(self.matched(e, rest) == self.matched(e.push(k), r2) + self.matched(
                e.push(plus_level()),
                r2,
            ) + self.lookup(e.push(hash_level())));
            assert(out@ =~= out0 + self.matched(Seq::empty(), rest));
        }
    }

    /// Drops every handler, keeping every node.
    fn clear(&mut self)
        requires
            old(self).wf(),
        ensures
            final(self).wf(),
            forall|q: Seq<Seq<char>>| #[trigger] final(self).lookup(q) == Seq::<V>::empty(),
            forall|q: Seq<Seq<char>>| #[trigger] final(self).has_node(q) == old(self).has_node(q),
        decreases *old(self),
    {
        let ghost old_cs = self.children@;
        let mut cleared: Vec<(String, TrieNode<V>)> = Vec::new();
        let ghost mut n: int = 0;
        while self.children.len() > 0
            invariant
                0 <= n <= old_cs.len(),
                old_cs == old(self).children@,
                keys_unique(old_cs),
                forall|j: int| 0 <= j < old_cs.len() ==> (#[trigger] old_cs[j]).1.wf(),
                self.children@ == old_cs.skip(n),
                cleared_copy(cleared@, old_cs.take(n)),
                forall|j: int| 0 <= j < n ==> (#[trigger] cleared@[j]).1.wf(),
            decreases old_cs.len() - n,
        {
            let (key, mut child) = self.children.remove(0);
            proof {
                assert(child == old_cs[n].1);
            }
            child.clear();
            cleared.push((key, child));
            proof {
                n = n + 1;
                assert(self.children@ =~= old_cs.skip(n));
                assert forall|j: int| 0 <= j < n implies (#[trigger] cleared@[j]).0@ == old_cs.take(n)[j].0@ by {
                    assert(old_cs.take(n)[j] == old_cs[j]);
                    if j < n - 1 {
                        assert(old_cs.take(n - 1)[j] == old_cs[j]);
                    }
                }
            }
        }
        self.children = cleared;
        self.handlers.clear();
        proof {
            assert(n == old_cs.len());
            assert(old_cs.take(n) =~= old_cs);
            assert forall|j: int| 0 <= j < self.children@.len() implies (#[trigger] self.children@[j]).1.wf() by {
                assert(cleared@[j].1.wf());
            }
            lemma_cleared_children(self.children@, old_cs);
            assert forall|q: Seq<Seq<char>>| #[trigger] self.lookup(q) == Seq::<V>::empty() by {
                if q.len() > 0 {
                    lemma_cleared_child(self.children@, old_cs, q[0]);
                    match child_of(self.children@, q[0]) {
                        Some(c) => {
                            assert(c.lookup(q.drop_first()) == Seq::<V>::empty());
                        },
                        None => {},
                    }
                } else {
                    assert(self.handlers@ == Seq::<V>::empty());
                }
            }
            assert forall|q: Seq<Seq<char>>| #[trigger] self.has_node(q) == old(self).has_node(q) by {
                if q.len() > 0 {
                    lemma_cleared_child(self.children@, old_cs, q[0]);
                    match child_of(self.children@, q[0]) {
                        Some(c) => {
                            let oc = child_of(old_cs, q[0])->0;
                            assert(c.has_node(q.drop_first()) == oc.has_node(q.drop_first()));
                        },
                        None => {},
                    }
                }
            }
        }
    }
}



/// The levels of a topic: the pieces between its `/` separators, empty
/// pieces included (`""` has one empty level, `"a/"` has `a` and an empty one).
pub open spec fn split_levels(s: Seq<char>) -> Seq<Seq<char>>
    decreases s.len(),
{
    if s.len() == 0 {
        seq![Seq::<char>::empty()]
    } else {
        let prev = split_levels(s.drop_last());
        if s.last() == '/' {
            prev.push(Seq::<char>::empty())
        } else {
            prev.update(prev.len() - 1, prev.last().push(s.last()))
        }
    }
}

/// The number of times `c` occurs in `s`.
pub open spec fn occurrences(s: Seq<char>, c: char) -> nat
    decreases s.len(),
{
    if s.len() == 0 {
        0
    } else {
        occurrences(s.drop_last(), c) + if s.last() == c {
            1nat
        } else {
            0nat
        }
    }
}

/// A topic is cut at every `/`, the first and the last included: it has one
/// level more than it has `/` characters, and no level holds a `/`.
pub proof fn law_split_cuts_at_every_slash(s: Seq<char>)
    ensures
        split_levels(s).len() == occurrences(s, '/') + 1,
        forall|i: int| 0 <= i < split_levels(s).len() ==> !(#[trigger] split_levels(s)[i]).contains('/'),
    decreases s.len(),
{
    if s.len() > 0 {
        let s2 = s.drop_last();
        let c = s.last();
        law_split_cuts_at_every_slash(s2);
        lemma_split_levels_nonempty(s2);
        let prev = split_levels(s2);
        let cur = split_levels(s);
        if c == '/' {
            assert forall|i: int| 0 <= i < cur.len() implies !(#[trigger] cur[i]).contains('/') by {
                if i < prev.len() {
                    assert(cur[i] == prev[i]);
                } else {
                    assert(cur[i] == Seq::<char>::empty());
                }
            }
        } else {
            let last = prev.last();
            assert forall|i: int| 0 <= i < cur.len() implies !(#[trigger] cur[i]).contains('/') by {
                if i < prev.len() - 1 {
                    assert(cur[i] == prev[i]);
                } else {
                    assert(cur[i] == last.push(c));
                    assert(!prev[prev.len() - 1].contains('/'));
                    if last.push(c).contains('/') {
                        let j = choose|j: int| 0 <= j < last.push(c).len() && last.push(c)[j] == '/';
                        if j < last.len() {
                            assert(last[j] == '/');
                            assert(last.contains('/'));
                        }
                    }
                }
            }
        }
    }
}

/// A topic has at least one level.
pub proof fn lemma_split_levels_nonempty(s: Seq<char>)
    ensures
        split_levels(s).len() >= 1,
    decreases s.len(),
{
    if s.len() > 0 {
        lemma_split_levels_nonempty(s.drop_last());
    }
}

/// The handlers subscribed under the filter `f`, in the order they were added.
pub open spec fn handlers_of<V>(m: Map<Seq<Seq<char>>, Seq<V>>, f: Seq<Seq<char>>) -> Seq<V> {
    if m.contains_key(f) {
        m[f]
    } else {
        Seq::empty()
    }
}

/// The handlers that the subscriptions `m` deliver a topic to, whose levels
/// still to match are `rest`, along filters that begin with `f`: those of the
/// filter that follows the topic level itself, then those of the filter that
/// has `+` at that level, then those of the filter that has `#` there.  A
/// filter ending in `#` therefore matches one or more further levels (not
/// zero), and a filter that reaches the topic by two routes is counted twice.
pub open spec fn matching_handlers<V>(
    m: Map<Seq<Seq<char>>, Seq<V>>,
    f: Seq<Seq<char>>,
    rest: Seq<Seq<char>>,
) -> Seq<V>
    decreases rest.len(),
{
    if rest.len() == 0 {
        handlers_of(m, f)
    } else {
        matching_handlers(m, f.push(rest[0]), rest.drop_first()) + matching_handlers(
            m,
            f.push(plus_level()),
            rest.drop_first(),
        ) + handlers_of(m, f.push(hash_level()))
    }
}

/// A trie of subscriptions keyed by topic filter level.
struct MqttTopicTrie<V> {
    root: TrieNode<V>,
}

impl<V: Copy> MqttTopicTrie<V> {
    fn new() -> (r: Self)
        ensures
            r.root.wf(),
            forall|q: Seq<Seq<char>>| #[trigger] r.root.lookup(q) == Seq::<V>::empty(),
            forall|q: Seq<Seq<char>>| #[trigger] r.root.has_node(q) == (q.len() == 0),
    {
        let root = TrieNode::new();
        proof {
            assert forall|q: Seq<Seq<char>>| #[trigger] root.lookup(q) == Seq::<V>::empty() by {
                lemma_empty_node(root, q);
            }
            assert forall|q: Seq<Seq<char>>| #[trigger] root.has_node(q) == (q.len() == 0) by {
                lemma_empty_node(root, q);
            }
        }
        MqttTopicTrie { root }
    }

    fn insert(&mut self, handler: V, topic_tokens: Vec<String>)
        requires
            old(self).root.wf(),
        ensures
            final(self).root.wf(),
            forall|q: Seq<Seq<char>>|
                #[trigger] final(self).root.lookup(q) == if q == levels(topic_tokens@) {
                    old(self).root.lookup(q).push(handler)
                } else {
                    old(self).root.lookup(q)
                },
            forall|q: Seq<Seq<char>>|
                #[trigger] final(self).root.has_node(q) == (old(self).root.has_node(q)
                    || q.is_prefix_of(levels(topic_tokens@))),
    {
        self.root.insert(&topic_tokens, 0, handler);
        proof {
            assert(levels(topic_tokens@).skip(0) =~= levels(topic_tokens@));
        }
    }

    fn remove(&mut self, topic_tokens: Vec<String>) -> (found: bool)
        requires
            old(self).root.wf(),
        ensures
            final(self).root.wf(),
            found == old(self).root.has_node(levels(topic_tokens@)),
            forall|q: Seq<Seq<char>>|
                #[trigger] final(self).root.lookup(q) == if found && q == levels(topic_tokens@) {
                    Seq::<V>::empty()
                } else {
                    old(self).root.lookup(q)
                },
            forall|q: Seq<Seq<char>>|
                #[trigger] final(self).root.has_node(q) == (old(self).root.has_node(q) && !(found
                    && old(self).root.pruned(levels(topic_tokens@), q))),
    {
        proof {
            assert(levels(topic_tokens@).skip(0) =~= levels(topic_tokens@));
        }
        self.root.remove(&topic_tokens, 0)
    }

    fn get_matching_handlers(&self, topic_tokens: Vec<String>) -> (r: Vec<V>)
        requires
            self.root.wf(),
        ensures
            r@ == self.root.matched(Seq::empty(), levels(topic_tokens@)),
    {
        let mut matching_handlers: Vec<V> = Vec::new();
        self.root.match_topic(&topic_tokens, 0, &mut matching_handlers);
        proof {
            assert(levels(topic_tokens@).skip(0) =~= levels(topic_tokens@));
            assert(matching_handlers@ =~= self.root.matched(
                Seq::empty(),
                levels(topic_tokens@),
            ));
        }
        matching_handlers
    }

    fn clear(&mut self)
        requires
            old(self).root.wf(),
        ensures
            final(self).root.wf(),
            forall|q: Seq<Seq<char>>| #[trigger] final(self).root.lookup(q) == Seq::<V>::empty(),
            forall|q: Seq<Seq<char>>|
                #[trigger] final(self).root.has_node(q) == old(self).root.has_node(q),
    {
        self.root.clear();
    }
}


/// The subscriptions of a client, held by topic filter.  Its view maps each
/// filter (as its levels) that has handlers to those handlers, in the order
/// they were added.
pub struct TopicManager<V> {
    store: MqttTopicTrie<V>,
}

impl<V> View for TopicManager<V> {
    type V = Map<Seq<Seq<char>>, Seq<V>>;

    closed spec fn view(&self) -> Map<Seq<Seq<char>>, Seq<V>> {
        Map::new(
            |f: Seq<Seq<char>>| self.store.root.lookup(f).len() > 0,
            |f: Seq<Seq<char>>| self.store.root.lookup(f),
        )
    }
}

/// Over the handlers under each filter, the trie matches as
/// `matching_handlers` says.
proof fn lemma_matched_view<V>(n: TrieNode<V>, m: Map<Seq<Seq<char>>, Seq<V>>, f: Seq<Seq<char>>, rest: Seq<Seq<char>>)
    requires
        forall|g: Seq<Seq<char>>| #[trigger] handlers_of(m, g) == n.lookup(g),
    ensures
        n.matched(f, rest) == matching_handlers(m, f, rest),
    decreases rest.len(),
{
    if rest.len() == 0 {
        assert(handlers_of(m, f) == n.lookup(f));
    } else {
        lemma_matched_view(n, m, f.push(rest[0]), rest.drop_first());
        lemma_matched_view(n, m, f.push(plus_level()), rest.drop_first());
        assert(handlers_of(m, f.push(hash_level())) == n.lookup(f.push(hash_level())));
    }
}

impl<V: Copy> TopicManager<V> {
    /// The trie behind the manager is well formed.
    pub closed spec fn wf(&self) -> bool {
        self.store.root.wf()
    }

    /// Whether the trie holds a node for the filter `f` (as its levels): the
    /// nodes on the path of every filter added, until a removal or a clear
    /// takes them out.
    pub closed spec fn has_filter_node(&self, f: Seq<Seq<char>>) -> bool {
        self.store.root.has_node(f)
    }

    /// Removing the filter `r` takes out the node `q`: a node on the path of
    /// `r` below the root all of whose nodes below lie on that path and hold
    /// no handlers, but for `r` itself.
    pub open spec fn removal_prunes(&self, r: Seq<Seq<char>>, q: Seq<Seq<char>>) -> bool {
        &&& q.len() > 0
        &&& q.is_prefix_of(r)
        &&& forall|y: Seq<Seq<char>>|
            #[trigger] self.has_filter_node(y) && q.is_prefix_of(y) ==> y.is_prefix_of(r) && (y
                == r || !self@.contains_key(y))
    }

    /// `after` is this manager once the handler `h` is added under the
    /// filter `f`: `f` keeps its handlers and gains `h` last, and the trie
    /// gains the nodes on the path of `f`.
    pub open spec fn adds(self, after: Self, f: Seq<Seq<char>>, h: V) -> bool {
        &&& after.wf()
        &&& after@ == self@.insert(f, handlers_of(self@, f).push(h))
        &&& forall|g: Seq<Seq<char>>|
            #[trigger] after.has_filter_node(g) == (self.has_filter_node(g) || g.is_prefix_of(f))
    }

    /// `after` is this manager once the filter `f` is removed, `found` telling
    /// whether the trie held a node for it: `f` loses its handlers, and the
    /// nodes that the removal prunes go.
    pub open spec fn removes(self, after: Self, f: Seq<Seq<char>>, found: bool) -> bool {
        &&& after.wf()
        &&& found == self.has_filter_node(f)
        &&& after@ == self@.remove(f)
        &&& forall|g: Seq<Seq<char>>|
            #[trigger] after.has_filter_node(g) == (self.has_filter_node(g) && !(found
                && self.removal_prunes(f, g)))
    }

    proof fn lemma_view(&self)
        ensures
            forall|f: Seq<Seq<char>>| #[trigger] handlers_of(self@, f) == self.store.root.lookup(f),
            forall|r: Seq<Seq<char>>, q: Seq<Seq<char>>|
                #[trigger] self.removal_prunes(r, q) == self.store.root.pruned(r, q),
    {
        assert forall|f: Seq<Seq<char>>| #[trigger] handlers_of(self@, f) == self.store.root.lookup(f) by {
            if self.store.root.lookup(f).len() == 0 {
                assert(self.store.root.lookup(f) =~= Seq::<V>::empty());
            }
        }
        assert forall|r: Seq<Seq<char>>, q: Seq<Seq<char>>|
            #[trigger] self.removal_prunes(r, q) == self.store.root.pruned(r, q) by {
            if self.removal_prunes(r, q) {
                assert forall|y: Seq<Seq<char>>| #[trigger]
                    self.store.root.has_node(y) && q.is_prefix_of(y) implies y.is_prefix_of(r) && (y
                    == r || self.store.root.lookup(y).len() == 0) by {
                    assert(self.has_filter_node(y));
                }
            }
            if self.store.root.pruned(r, q) {
                assert forall|y: Seq<Seq<char>>| #[trigger]
                    self.has_filter_node(y) && q.is_prefix_of(y) implies y.is_prefix_of(r) && (y
                    == r || !self@.contains_key(y)) by {
                    assert(self.store.root.has_node(y));
                }
            }
        }
    }

    /// A manager with no subscriptions, whose trie is only its root.
    pub fn new() -> (r: Self)
        ensures
            r.wf(),
            r@ == Map::<Seq<Seq<char>>, Seq<V>>::empty(),
            forall|f: Seq<Seq<char>>| #[trigger] r.has_filter_node(f) == (f.len() == 0),
    {
        let r = TopicManager { store: MqttTopicTrie::new() };
        proof {
            assert(r@ =~= Map::<Seq<Seq<char>>, Seq<V>>::empty());
        }
        r
    }

    /// Subscribes the handler `sub.1` to the topic filter `sub.0`; a filter
    /// keeps every handler added under it, in order.
    pub fn add(&mut self, sub: (&str, V))
        requires
            old(self).wf(),
        ensures
            old(self).adds(*final(self), split_levels(sub.0@), sub.1),
    {
        let topic_tokens = Self::tokenize_topic(sub.0);
        let ghost fl = split_levels(sub.0@);
        proof {
            old(self).lemma_view();
        }
        self.store.insert(sub.1, topic_tokens);
        proof {
            assert(self@ =~= old(self)@.insert(fl, handlers_of(old(self)@, fl).push(sub.1)));
        }
    }

    /// Removes every handler of the topic filter `topic` and takes out of the
    /// trie the nodes on its path left with nothing below them.  Returns
    /// whether the trie held a node for the filter; when it did not, nothing
    /// changes.
    pub fn remove(&mut self, topic: &str) -> (found: bool)
        requires
            old(self).wf(),
        ensures
            old(self).removes(*final(self), split_levels(topic@), found),
    {
        let topic_tokens = Self::tokenize_topic(topic);
        let ghost fl = split_levels(topic@);
        proof {
            old(self).lemma_view();
        }
        let found = self.store.remove(topic_tokens);
        proof {
            if old(self).store.root.lookup(fl).len() > 0 {
                lemma_lookup_has_node(old(self).store.root, fl);
            }
            assert(self@ =~= old(self)@.remove(fl));
        }
        found
    }

    /// The handlers that a message published on `topic` is delivered to, as
    /// `matching_handlers` orders them.
    pub fn match_topic(&self, topic: &str) -> (r: Vec<V>)
        requires
            self.wf(),
        ensures
            r@ == matching_handlers(self@, Seq::empty(), split_levels(topic@)),
    {
        let topic_tokens = Self::tokenize_topic(topic);
        proof {
            self.lemma_view();
            lemma_matched_view(self.store.root, self@, Seq::empty(), split_levels(topic@));
        }
        self.store.get_matching_handlers(topic_tokens)
    }

    /// Drops every handler; the nodes of the trie stay.
    pub fn clear(&mut self)
        requires
            old(self).wf(),
        ensures
            final(self).wf(),
            final(self)@ == Map::<Seq<Seq<char>>, Seq<V>>::empty(),
            forall|f: Seq<Seq<char>>|
                #[trigger] final(self).has_filter_node(f) == old(self).has_filter_node(f),
    {
        self.store.clear();
        proof {
            assert(self@ =~= Map::<Seq<Seq<char>>, Seq<V>>::empty());
        }
    }

    /// Splits a topic into its levels at each `/`.
    pub fn tokenize_topic(topic: &str) -> (r: Vec<String>)
        ensures
            levels(r@) == split_levels(topic@),
    {
        let n = topic.unicode_len();
        let mut pieces: Vec<String> = Vec::new();
        let mut cur = String::new();
        let mut i: usize = 0;
        while i < n
            invariant
                n == topic@.len(),
                i <= n,
                levels(pieces@).push(cur@) == split_levels(topic@.take(i as int)),
            decreases n - i,
        {
            let c = topic.get_char(i);
            let ghost prev = split_levels(topic@.take(i as int));
            proof {
                let t = topic@.take(i + 1);
                assert(t.drop_last() =~= topic@.take(i as int));
                assert(t.last() == c);
            }
            if c == '/' {
                let ghost cur0 = cur@;
                let ghost p0 = pieces@;
                pieces.push(cur);
                proof {
                    assert(levels(pieces@) =~= levels(p0).push(cur0));
                }
                cur = String::new();
                proof {
                    assert(levels(pieces@).push(cur@) =~= prev.push(Seq::<char>::empty()));
                }
            } else {
                let one = topic.substring_char(i, i + 1);
                proof {
                    assert(one@.len() == 1);
                    assert(one@[0] == topic@[i as int]);
                    assert(one@ =~= seq![c]);
                }
                let ghost cur0 = cur@;
                cur.append(one);
                proof {
                    assert(cur@ =~= cur0.push(c));
                    assert(levels(pieces@).push(cur@) =~= prev.update(prev.len() - 1, prev.last().push(c)));
                }
            }
            i = i + 1;
        }
        pieces.push(cur);
        proof {
            assert(topic@.take(n as int) =~= topic@);
            assert(levels(pieces@) =~= split_levels(topic@));
        }
        pieces
    }
}


/// Whether the topic filter `f` matches the topic `t`, both as levels, the
/// way the trie matches: a level equal to `+` matches any one level, a final
/// `#` matches one or more further levels, any other level matches itself.
pub open spec fn filter_matches(f: Seq<Seq<char>>, t: Seq<Seq<char>>) -> bool
    decreases f.len(),
{
    if f.len() == 0 {
        t.len() == 0
    } else if f[0] == hash_level() {
        f.len() == 1 && t.len() >= 1
    } else {
        t.len() > 0 && (f[0] == t[0] || f[0] == plus_level()) && filter_matches(
            f.drop_first(),
            t.drop_first(),
        )
    }
}

/// The filter `f` matches the topic `t` level by level: as many levels,
/// each equal to the topic's or `+`; or a last level `#` after `k` levels
/// that match so, with at least `k + 1` levels in the topic.
pub open spec fn matches_by_levels(f: Seq<Seq<char>>, t: Seq<Seq<char>>) -> bool {
    ||| (f.len() == t.len() && forall|i: int| 0 <= i < f.len() ==> #[trigger] f[i] == t[i] || f[i] == plus_level())
    ||| exists|k: int|
        0 <= k < t.len() && f.len() == k + 1 && #[trigger] f[k] == hash_level() && forall|i: int|
            0 <= i < k ==> #[trigger] f[i] == t[i] || f[i] == plus_level()
}

/// No level of the topic `t` is a wildcard.
pub open spec fn no_wildcard_levels(t: Seq<Seq<char>>) -> bool {
    forall|i: int| 0 <= i < t.len() ==> #[trigger] t[i] != plus_level() && t[i] != hash_level()
}

proof fn lemma_push_concat<A>(p: Seq<A>, f: Seq<A>)
    requires
        f.len() > 0,
    ensures
        p + f == p.push(f[0]) + f.drop_first(),
{
    assert(p + f =~= p.push(f[0]) + f.drop_first());
}

proof fn lemma_matching_routes<V>(
    m: Map<Seq<Seq<char>>, Seq<V>>,
    p: Seq<Seq<char>>,
    rest: Seq<Seq<char>>,
    h: V,
)
    requires
        no_wildcard_levels(rest),
    ensures
        matching_handlers(m, p, rest).contains(h) <==> exists|f: Seq<Seq<char>>|
            #[trigger] filter_matches(f, rest) && handlers_of(m, p + f).contains(h),
    decreases rest.len(),
{
    if rest.len() == 0 {
        if matching_handlers(m, p, rest).contains(h) {
            let f = Seq::<Seq<char>>::empty();
            assert(p + f =~= p);
            assert(filter_matches(f, rest));
        }
        if exists|f: Seq<Seq<char>>| #[trigger] filter_matches(f, rest) && handlers_of(m, p + f).contains(h) {
            let f = choose|f: Seq<Seq<char>>| #[trigger] filter_matches(f, rest) && handlers_of(m, p + f).contains(h);
            if f.len() > 0 {
                if f[0] == hash_level() {
                } else {
                }
                assert(false);
            }
            assert(p + f =~= p);
        }
    } else {
        let r0 = rest[0];
        let r2 = rest.drop_first();
        assert(no_wildcard_levels(r2)) by {
            assert forall|i: int| 0 <= i < r2.len() implies #[trigger] r2[i] != plus_level() && r2[i] != hash_level() by {
                assert(r2[i] == rest[i + 1]);
            }
        }
        assert(r0 != plus_level() && r0 != hash_level());
        assert(plus_level() != hash_level()) by {
            assert(plus_level()[0] != hash_level()[0]);
        }
        let a = matching_handlers(m, p.push(r0), r2);
        let b = matching_handlers(m, p.push(plus_level()), r2);
        let c = handlers_of(m, p.push(hash_level()));
        assert(matching_handlers(m, p, rest) == a + b + c);
        lemma_matching_routes(m, p.push(r0), r2, h);
        lemma_matching_routes(m, p.push(plus_level()), r2, h);
        assert((a + b + c).contains(h) <==> a.contains(h) || b.contains(h) || c.contains(h)) by {
            if (a + b + c).contains(h) {
                let i = choose|i: int| 0 <= i < (a + b + c).len() && (a + b + c)[i] == h;
                if i < a.len() {
                    assert(a[i] == h);
                } else if i < a.len() + b.len() {
                    assert(b[i - a.len()] == h);
                } else {
                    assert(c[i - a.len() - b.len()] == h);
                }
            }
            if a.contains(h) {
                let i = choose|i: int| 0 <= i < a.len() && a[i] == h;
                assert((a + b + c)[i] == h);
            }
            if b.contains(h) {
                let i = choose|i: int| 0 <= i < b.len() && b[i] == h;
                assert((a + b + c)[a.len() + i] == h);
            }
            if c.contains(h) {
                let i = choose|i: int| 0 <= i < c.len() && c[i] == h;
                assert((a + b + c)[a.len() + b.len() + i] == h);
            }
        }
        if matching_handlers(m, p, rest).contains(h) {
            if a.contains(h) {
                let f2 = choose|f: Seq<Seq<char>>| #[trigger] filter_matches(f, r2) && handlers_of(m, p.push(r0) + f).contains(h);
                let f = seq![r0] + f2;
                assert(f.drop_first() =~= f2);
                lemma_push_concat(p, f);
                assert(filter_matches(f, rest));
            } else if b.contains(h) {
                let f2 = choose|f: Seq<Seq<char>>| #[trigger] filter_matches(f, r2) && handlers_of(m, p.push(plus_level()) + f).contains(h);
                let f = seq![plus_level()] + f2;
                assert(f.drop_first() =~= f2);
                lemma_push_concat(p, f);
                assert(filter_matches(f, rest));
            } else {
                let f = seq![hash_level()];
                assert(p + f =~= p.push(hash_level()));
                assert(filter_matches(f, rest));
            }
        }
        if exists|f: Seq<Seq<char>>| #[trigger] filter_matches(f, rest) && handlers_of(m, p + f).contains(h) {
            let f = choose|f: Seq<Seq<char>>| #[trigger] filter_matches(f, rest) && handlers_of(m, p + f).contains(h);
            assert(f.len() > 0);
            lemma_push_concat(p, f);
            if f[0] == hash_level() {
                assert(f.len() == 1);
                assert(p + f =~= p.push(hash_level()));
                assert(c.contains(h));
            } else if f[0] == r0 {
                assert(filter_matches(f.drop_first(), r2));
                assert(a.contains(h));
            } else {
                assert(f[0] == plus_level());
                assert(filter_matches(f.drop_first(), r2));
                assert(b.contains(h));
            }
        }
    }
}

/// A store of handlers by topic filter, each filter given as its levels.
pub trait TopicStore<V>: Sized {
    /// The store is well formed.
    spec fn store_wf(&self) -> bool;

    /// The handlers under each filter that has some, in the order they were
    /// added.
    spec fn stored(&self) -> Map<Seq<Seq<char>>, Seq<V>>;

    /// Whether the store holds a path for the filter `f`.
    spec fn has_path(&self, f: Seq<Seq<char>>) -> bool;

    /// Adds `handler` under the filter `topic_tokens`, after those it had.
    fn add_subscription(&mut self, handler: V, topic_tokens: Vec<String>)
        requires
            old(self).store_wf(),
        ensures
            final(self).store_wf(),
            final(self).stored() == old(self).stored().insert(
                levels(topic_tokens@),
                handlers_of(old(self).stored(), levels(topic_tokens@)).push(handler),
            ),
            forall|g: Seq<Seq<char>>|
                #[trigger] final(self).has_path(g) == (old(self).has_path(g) || g.is_prefix_of(
                    levels(topic_tokens@),
                )),
    ;

    /// Drops every handler of the filter `topic_tokens`; returns whether the
    /// store held a path for it.
    fn remove_subscription(&mut self, topic_tokens: Vec<String>) -> (found: bool)
        requires
            old(self).store_wf(),
        ensures
            final(self).store_wf(),
            found == old(self).has_path(levels(topic_tokens@)),
            final(self).stored() == old(self).stored().remove(levels(topic_tokens@)),
    ;

    /// The handlers a message on the topic `topic_tokens` goes to.
    fn get_match_subscriptions(&self, topic_tokens: Vec<String>) -> (r: Vec<V>)
        requires
            self.store_wf(),
        ensures
            r@ == matching_handlers(self.stored(), Seq::empty(), levels(topic_tokens@)),
    ;

    /// Drops every handler, keeping the paths.
    fn clear_subscriptions(&mut self)
        requires
            old(self).store_wf(),
        ensures
            final(self).store_wf(),
            final(self).stored() == Map::<Seq<Seq<char>>, Seq<V>>::empty(),
            forall|g: Seq<Seq<char>>| #[trigger] final(self).has_path(g) == old(self).has_path(g),
    ;
}

impl<V: Copy> TopicStore<V> for TopicManager<V> {
    open spec fn store_wf(&self) -> bool {
        self.wf()
    }

    open spec fn stored(&self) -> Map<Seq<Seq<char>>, Seq<V>> {
        self@
    }

    open spec fn has_path(&self, f: Seq<Seq<char>>) -> bool {
        self.has_filter_node(f)
    }

    fn add_subscription(&mut self, handler: V, topic_tokens: Vec<String>) {
        let ghost fl = levels(topic_tokens@);
        proof {
            old(self).lemma_view();
        }
        self.store.insert(handler, topic_tokens);
        proof {
            assert(self@ =~= old(self)@.insert(fl, handlers_of(old(self)@, fl).push(handler)));
        }
    }

    fn remove_subscription(&mut self, topic_tokens: Vec<String>) -> (found: bool) {
        let ghost fl = levels(topic_tokens@);
        proof {
            old(self).lemma_view();
        }
        let found = self.store.remove(topic_tokens);
        proof {
            if old(self).store.root.lookup(fl).len() > 0 {
                lemma_lookup_has_node(old(self).store.root, fl);
            }
            assert(self@ =~= old(self)@.remove(fl));
        }
        found
    }

    fn get_match_subscriptions(&self, topic_tokens: Vec<String>) -> (r: Vec<V>) {
        proof {
            self.lemma_view();
            lemma_matched_view(self.store.root, self@, Seq::empty(), levels(topic_tokens@));
        }
        self.store.get_matching_handlers(topic_tokens)
    }

    fn clear_subscriptions(&mut self) {
        self.store.clear();
        proof {
            assert(self@ =~= Map::<Seq<Seq<char>>, Seq<V>>::empty());
        }
    }
}

/// Filter matching is MQTT's: on a topic none of whose levels is a
/// wildcard, `+` stands for exactly one level and a last `#` for one or
/// more levels, every other level matching only itself.
pub proof fn law_filter_matching_by_levels(f: Seq<Seq<char>>, t: Seq<Seq<char>>)
    requires
        no_wildcard_levels(t),
    ensures
        filter_matches(f, t) == matches_by_levels(f, t),
    decreases f.len(),
{
    assert(plus_level() != hash_level()) by {
        assert(plus_level()[0] != hash_level()[0]);
    }
    if f.len() == 0 {
        if matches_by_levels(f, t) {
            if !(f.len() == t.len()) {
                let k = choose|k: int|
                    0 <= k < t.len() && f.len() == k + 1 && #[trigger] f[k] == hash_level() && forall|i: int|
                        0 <= i < k ==> #[trigger] f[i] == t[i] || f[i] == plus_level();
            }
        }
    } else if f[0] == hash_level() {
        if filter_matches(f, t) {
            assert(f.len() == 1 && t.len() >= 1);
            assert(f[0] == hash_level());
            assert(matches_by_levels(f, t));
        }
        if matches_by_levels(f, t) {
            if f.len() == t.len() && forall|i: int| 0 <= i < f.len() ==> #[trigger] f[i] == t[i] || f[i] == plus_level() {
                assert(f[0] == t[0] || f[0] == plus_level());
                assert(t[0] != hash_level());
            } else {
                let k = choose|k: int|
                    0 <= k < t.len() && f.len() == k + 1 && #[trigger] f[k] == hash_level() && forall|i: int|
                        0 <= i < k ==> #[trigger] f[i] == t[i] || f[i] == plus_level();
                if k > 0 {
                    assert(f[0] == t[0] || f[0] == plus_level());
                    assert(t[0] != hash_level());
                }
            }
        }
    } else {
        let f2 = f.drop_first();
        if t.len() == 0 {
            if matches_by_levels(f, t) {
                if !(f.len() == t.len()) {
                    let k = choose|k: int|
                        0 <= k < t.len() && f.len() == k + 1 && #[trigger] f[k] == hash_level() && forall|i: int|
                            0 <= i < k ==> #[trigger] f[i] == t[i] || f[i] == plus_level();
                }
            }
        } else {
            let t2 = t.drop_first();
            assert(no_wildcard_levels(t2)) by {
                assert forall|i: int| 0 <= i < t2.len() implies #[trigger] t2[i] != plus_level() && t2[i] != hash_level() by {
                    assert(t2[i] == t[i + 1]);
                }
            }
            law_filter_matching_by_levels(f2, t2);
            let head = f[0] == t[0] || f[0] == plus_level();
            // from the levels of f to those of f2
            if matches_by_levels(f, t) {
                assert(head) by {
                    if f.len() == t.len() && forall|i: int| 0 <= i < f.len() ==> #[trigger] f[i] == t[i] || f[i] == plus_level() {
                        assert(f[0] == t[0] || f[0] == plus_level());
                    } else {
                        let k = choose|k: int|
                            0 <= k < t.len() && f.len() == k + 1 && #[trigger] f[k] == hash_level() && forall|i: int|
                                0 <= i < k ==> #[trigger] f[i] == t[i] || f[i] == plus_level();
                        if k == 0 {
                            assert(f[0] == hash_level());
                        } else {
                            assert(f[0] == t[0] || f[0] == plus_level());
                        }
                    }
                }
                if f.len() == t.len() && forall|i: int| 0 <= i < f.len() ==> #[trigger] f[i] == t[i] || f[i] == plus_level() {
                    assert forall|i: int| 0 <= i < f2.len() implies #[trigger] f2[i] == t2[i] || f2[i] == plus_level() by {
                        assert(f2[i] == f[i + 1] && t2[i] == t[i + 1]);
                        assert(f[i + 1] == t[i + 1] || f[i + 1] == plus_level());
                    }
                    assert(matches_by_levels(f2, t2));
                } else {
                    let k = choose|k: int|
                        0 <= k < t.len() && f.len() == k + 1 && #[trigger] f[k] == hash_level() && forall|i: int|
                            0 <= i < k ==> #[trigger] f[i] == t[i] || f[i] == plus_level();
                    assert(k > 0);
                    assert(f2[k - 1] == f[k]);
                    assert forall|i: int| 0 <= i < k - 1 implies #[trigger] f2[i] == t2[i] || f2[i] == plus_level() by {
                        assert(f2[i] == f[i + 1] && t2[i] == t[i + 1]);
                        assert(f[i + 1] == t[i + 1] || f[i + 1] == plus_level());
                    }
                    assert(0 <= k - 1 < t2.len() && f2.len() == k - 1 + 1 && f2[k - 1] == hash_level());
                    assert(matches_by_levels(f2, t2));
                }
                assert(filter_matches(f, t));
            }
            if filter_matches(f, t) {
                assert(head);
                assert(matches_by_levels(f2, t2));
                if f2.len() == t2.len() && forall|i: int| 0 <= i < f2.len() ==> #[trigger] f2[i] == t2[i] || f2[i] == plus_level() {
                    assert forall|i: int| 0 <= i < f.len() implies #[trigger] f[i] == t[i] || f[i] == plus_level() by {
                        if i > 0 {
                            assert(f2[i - 1] == f[i] && t2[i - 1] == t[i]);
                            assert(f2[i - 1] == t2[i - 1] || f2[i - 1] == plus_level());
                        }
                    }
                } else {
                    let k = choose|k: int|
                        0 <= k < t2.len() && f2.len() == k + 1 && #[trigger] f2[k] == hash_level() && forall|i: int|
                            0 <= i < k ==> #[trigger] f2[i] == t2[i] || f2[i] == plus_level();
                    assert(f[k + 1] == f2[k]);
                    assert forall|i: int| 0 <= i < k + 1 implies #[trigger] f[i] == t[i] || f[i] == plus_level() by {
                        if i > 0 {
                            assert(f2[i - 1] == f[i] && t2[i - 1] == t[i]);
                            assert(f2[i - 1] == t2[i - 1] || f2[i - 1] == plus_level());
                        }
                    }
                    assert(0 <= k + 1 < t.len() && f.len() == k + 1 + 1 && f[k + 1] == hash_level());
                }
                assert(matches_by_levels(f, t));
            }
        }
    }
}

/// Matching is MQTT wildcard matching: on a topic none of whose levels is a
/// wildcard, a handler is delivered exactly when it is subscribed under some
/// filter that matches the topic.
pub proof fn law_match_delivers_exactly_matching_filters<V>(
    m: Map<Seq<Seq<char>>, Seq<V>>,
    topic: Seq<Seq<char>>,
    h: V,
)
    requires
        no_wildcard_levels(topic),
    ensures
        matching_handlers(m, Seq::empty(), topic).contains(h) <==> exists|f: Seq<Seq<char>>|
            #[trigger] filter_matches(f, topic) && m.contains_key(f) && m[f].contains(h),
{
    lemma_matching_routes(m, Seq::empty(), topic, h);
    if exists|f: Seq<Seq<char>>| #[trigger] filter_matches(f, topic) && handlers_of(m, Seq::empty() + f).contains(h) {
        let f = choose|f: Seq<Seq<char>>| #[trigger] filter_matches(f, topic) && handlers_of(m, Seq::empty() + f).contains(h);
        assert(Seq::<Seq<char>>::empty() + f =~= f);
    }
    if exists|f: Seq<Seq<char>>| #[trigger] filter_matches(f, topic) && m.contains_key(f) && m[f].contains(h) {
        let f = choose|f: Seq<Seq<char>>| #[trigger] filter_matches(f, topic) && m.contains_key(f) && m[f].contains(h);
        assert(Seq::<Seq<char>>::empty() + f =~= f);
    }
}

/// The handlers of the filter equal to the topic itself come first, in the
/// order they were added.
pub proof fn law_exact_filter_first<V>(
    m: Map<Seq<Seq<char>>, Seq<V>>,
    p: Seq<Seq<char>>,
    rest: Seq<Seq<char>>,
)
    ensures
        handlers_of(m, p + rest).is_prefix_of(matching_handlers(m, p, rest)),
    decreases rest.len(),
{
    if rest.len() == 0 {
        assert(p + rest =~= p);
    } else {
        law_exact_filter_first(m, p.push(rest[0]), rest.drop_first());
        lemma_push_concat(p, rest);
        let a = matching_handlers(m, p.push(rest[0]), rest.drop_first());
        let b = matching_handlers(m, p.push(plus_level()), rest.drop_first());
        let c = handlers_of(m, p.push(hash_level()));
        let x = handlers_of(m, p + rest);
        assert forall|i: int| 0 <= i < x.len() implies x[i] == (a + b + c)[i] by {
            assert(x[i] == a[i]);
        }
    }
}

/// With no subscriptions nothing is delivered.
pub proof fn law_nothing_matches_when_empty<V>(f: Seq<Seq<char>>, rest: Seq<Seq<char>>)
    ensures
        matching_handlers(Map::<Seq<Seq<char>>, Seq<V>>::empty(), f, rest) == Seq::<V>::empty(),
    decreases rest.len(),
{
    if rest.len() > 0 {
        law_nothing_matches_when_empty::<V>(f.push(rest[0]), rest.drop_first());
        law_nothing_matches_when_empty::<V>(f.push(plus_level()), rest.drop_first());
        assert(Seq::<V>::empty() + Seq::<V>::empty() + Seq::<V>::empty() =~= Seq::<V>::empty());
    }
}

/// Removing a filter undoes adding a handler under it: when the filter had no
/// handlers before, the subscriptions are as they were.
pub proof fn law_remove_undoes_add<V: Copy>(
    before: TopicManager<V>,
    mid: TopicManager<V>,
    after: TopicManager<V>,
    f: Seq<Seq<char>>,
    h: V,
    found: bool,
)
    requires
        before.adds(mid, f, h),
        mid.removes(after, f, found),
    ensures
        found,
        after@ == before@.remove(f),
        !before@.contains_key(f) ==> after@ == before@,
{
    assert(f.is_prefix_of(f));
    assert(mid.has_filter_node(f));
    assert(after@ =~= before@.remove(f));
    if !before@.contains_key(f) {
        assert(before@.remove(f) =~= before@);
    }
}

/// The levels of a topic, joined again with `/`.
pub open spec fn join_levels(ls: Seq<Seq<char>>) -> Seq<char>
    decreases ls.len(),
{
    if ls.len() <= 1 {
        if ls.len() == 1 {
            ls[0]
        } else {
            Seq::empty()
        }
    } else {
        join_levels(ls.drop_last()) + seq!['/'] + ls.last()
    }
}

proof fn lemma_join_extend_last(ls: Seq<Seq<char>>, c: char)
    requires
        ls.len() >= 1,
    ensures
        join_levels(ls.update(ls.len() - 1, ls.last().push(c))) == join_levels(ls).push(c),
{
    let nl = ls.update(ls.len() - 1, ls.last().push(c));
    if ls.len() == 1 {
    } else {
        assert(nl.drop_last() =~= ls.drop_last());
        assert(join_levels(nl) =~= join_levels(ls).push(c));
    }
}

/// Splitting a topic into levels loses nothing: joining the levels with `/`
/// gives the topic back.
pub proof fn law_split_then_join(s: Seq<char>)
    ensures
        join_levels(split_levels(s)) == s,
    decreases s.len(),
{
    lemma_split_levels_nonempty(s);
    if s.len() > 0 {
        let prev = split_levels(s.drop_last());
        law_split_then_join(s.drop_last());
        lemma_split_levels_nonempty(s.drop_last());
        if s.last() == '/' {
            let nl = prev.push(Seq::<char>::empty());
            assert(nl.drop_last() =~= prev);
            assert(join_levels(nl) =~= s);
        } else {
            lemma_join_extend_last(prev, s.last());
            assert(s.drop_last().push(s.last()) =~= s);
        }
    }
}

/// `k` is reached from the prefix `p` along the levels `rest`: it is `p`
/// followed by a filter that matches `rest`.
pub open spec fn routes(p: Seq<Seq<char>>, rest: Seq<Seq<char>>, k: Seq<Seq<char>>) -> bool {
    p.is_prefix_of(k) && filter_matches(k.skip(p.len() as int), rest)
}

proof fn lemma_routes_step(p: Seq<Seq<char>>, rest: Seq<Seq<char>>, k: Seq<Seq<char>>)
    requires
        rest.len() > 0,
        no_wildcard_levels(rest),
    ensures
        routes(p, rest, k) == (routes(p.push(rest[0]), rest.drop_first(), k) || routes(
            p.push(plus_level()),
            rest.drop_first(),
            k,
        ) || k == p.push(hash_level())),
        !(routes(p.push(rest[0]), rest.drop_first(), k) && routes(
            p.push(plus_level()),
            rest.drop_first(),
            k,
        )),
        !(routes(p.push(rest[0]), rest.drop_first(), k) && k == p.push(hash_level())),
        !(routes(p.push(plus_level()), rest.drop_first(), k) && k == p.push(hash_level())),
{
    let r0 = rest[0];
    let r2 = rest.drop_first();
    let n = p.len() as int;
    assert(r0 != plus_level() && r0 != hash_level());
    assert(plus_level() != hash_level()) by {
        assert(plus_level()[0] != hash_level()[0]);
    }
    let g = k.skip(n);
    if p.is_prefix_of(k) && k.len() > n {
        assert(g[0] == k[n]);
        assert(g.drop_first() =~= k.skip(n + 1));
        assert(p.push(k[n]).is_prefix_of(k));
    }
    if k == p.push(hash_level()) {
        assert(p.is_prefix_of(k));
        assert(g =~= seq![hash_level()]);
    }
    if p.is_prefix_of(k) && k.len() > n && g[0] == hash_level() && g.len() == 1 {
        assert(k =~= p.push(hash_level()));
    }
    if p.push(r0).is_prefix_of(k) {
        assert(k.subrange(0, n + 1)[n] == k[n]);
        assert(p.push(r0)[n] == r0);
        assert(k[n] == r0);
        assert(k.subrange(0, n) =~= k.subrange(0, n + 1).subrange(0, n));
        assert(p =~= p.push(r0).subrange(0, n));
        assert(p.is_prefix_of(k));
    }
    if p.push(plus_level()).is_prefix_of(k) {
        assert(k.subrange(0, n + 1)[n] == k[n]);
        assert(p.push(plus_level())[n] == plus_level());
        assert(k[n] == plus_level());
        assert(k.subrange(0, n) =~= k.subrange(0, n + 1).subrange(0, n));
        assert(p =~= p.push(plus_level()).subrange(0, n));
        assert(p.is_prefix_of(k));
    }
    if p.is_prefix_of(k) && k.len() > n && k[n] == r0 {
        assert(p.push(r0).is_prefix_of(k));
    }
    if p.is_prefix_of(k) && k.len() > n && k[n] == plus_level() {
        assert(p.push(plus_level()).is_prefix_of(k));
    }
}

/// Changing the handlers stored under one filter `k` (from `m` to `m2`)
/// changes what the topic levels `rest` deliver from the prefix `p` by
/// exactly that change, when `k` is reached, and not at all otherwise.
proof fn lemma_matching_update<V>(
    m: Map<Seq<Seq<char>>, Seq<V>>,
    m2: Map<Seq<Seq<char>>, Seq<V>>,
    k: Seq<Seq<char>>,
    p: Seq<Seq<char>>,
    rest: Seq<Seq<char>>,
)
    requires
        no_wildcard_levels(rest),
        forall|g: Seq<Seq<char>>| g != k ==> #[trigger] handlers_of(m2, g) == handlers_of(m, g),
    ensures
        if routes(p, rest, k) {
            matching_handlers(m2, p, rest).to_multiset().add(handlers_of(m, k).to_multiset())
                == matching_handlers(m, p, rest).to_multiset().add(handlers_of(m2, k).to_multiset())
        } else {
            matching_handlers(m2, p, rest).to_multiset() == matching_handlers(m, p, rest).to_multiset()
        },
    decreases rest.len(),
{
    broadcast use vstd::multiset::group_multiset_axioms;

    if rest.len() == 0 {
        if routes(p, rest, k) {
            assert(k.skip(p.len() as int).len() == 0);
            assert(k =~= p);
        } else {
            if k == p {
                assert(k.skip(p.len() as int) =~= Seq::<Seq<char>>::empty());
                assert(p.is_prefix_of(k));
            }
        }
        let a = handlers_of(m, p).to_multiset();
        let b = handlers_of(m2, p).to_multiset();
        if routes(p, rest, k) {
            assert(b.add(a) =~= a.add(b));
        }
    } else {
        let r0 = rest[0];
        let r2 = rest.drop_first();
        assert(no_wildcard_levels(r2)) by {
            assert forall|i: int| 0 <= i < r2.len() implies #[trigger] r2[i] != plus_level() && r2[i] != hash_level() by {
                assert(r2[i] == rest[i + 1]);
            }
        }
        lemma_routes_step(p, rest, k);
        lemma_matching_update(m, m2, k, p.push(r0), r2);
        lemma_matching_update(m, m2, k, p.push(plus_level()), r2);
        let a1 = matching_handlers(m, p.push(r0), r2);
        let b1 = matching_handlers(m, p.push(plus_level()), r2);
        let c1 = handlers_of(m, p.push(hash_level()));
        let a2 = matching_handlers(m2, p.push(r0), r2);
        let b2 = matching_handlers(m2, p.push(plus_level()), r2);
        let c2 = handlers_of(m2, p.push(hash_level()));
        vstd::seq_lib::lemma_multiset_commutative(a1 + b1, c1);
        vstd::seq_lib::lemma_multiset_commutative(a1, b1);
        vstd::seq_lib::lemma_multiset_commutative(a2 + b2, c2);
        vstd::seq_lib::lemma_multiset_commutative(a2, b2);
        assert(matching_handlers(m, p, rest) == a1 + b1 + c1);
        assert(matching_handlers(m2, p, rest) == a2 + b2 + c2);
        let old_k = handlers_of(m, k).to_multiset();
        let new_k = handlers_of(m2, k).to_multiset();
        let lhs = (a2 + b2 + c2).to_multiset();
        let rhs = (a1 + b1 + c1).to_multiset();
        let ma1 = a1.to_multiset();
        let mb1 = b1.to_multiset();
        let mc1 = c1.to_multiset();
        let ma2 = a2.to_multiset();
        let mb2 = b2.to_multiset();
        let mc2 = c2.to_multiset();
        assert(lhs == ma2.add(mb2).add(mc2));
        assert(rhs == ma1.add(mb1).add(mc1));
        if routes(p.push(r0), r2, k) {
            assert(mb2 == mb1);
            assert(c2 == c1);
            assert(ma2.add(old_k) == ma1.add(new_k));
            assert forall|x: V| #[trigger] lhs.add(old_k).count(x) == rhs.add(new_k).count(x) by {
                assert(ma2.add(old_k).count(x) == ma1.add(new_k).count(x));
            }
            assert(lhs.add(old_k) =~= rhs.add(new_k));
        } else if routes(p.push(plus_level()), r2, k) {
            assert(ma2 == ma1);
            assert(c2 == c1);
            assert(mb2.add(old_k) == mb1.add(new_k));
            assert forall|x: V| #[trigger] lhs.add(old_k).count(x) == rhs.add(new_k).count(x) by {
                assert(mb2.add(old_k).count(x) == mb1.add(new_k).count(x));
            }
            assert(lhs.add(old_k) =~= rhs.add(new_k));
        } else if k == p.push(hash_level()) {
            assert(ma2 == ma1);
            assert(mb2 == mb1);
            assert(c2 == handlers_of(m2, k));
            assert(c1 == handlers_of(m, k));
            assert(lhs.add(old_k) =~= rhs.add(new_k));
        } else {
            assert(ma2 == ma1);
            assert(mb2 == mb1);
            assert(c2 == c1);
            assert(lhs =~= rhs);
        }
    }
}

/// Adding the handler `h` under the filter `f` adds `h` once to what every
/// topic matched by `f` delivers (none of whose levels is a wildcard), and
/// changes nothing for the other topics.
pub proof fn law_add_extends_matches<V: Copy>(
    before: TopicManager<V>,
    after: TopicManager<V>,
    f: Seq<Seq<char>>,
    h: V,
    topic: Seq<Seq<char>>,
)
    requires
        before.adds(after, f, h),
        no_wildcard_levels(topic),
    ensures
        matching_handlers(after@, Seq::empty(), topic).to_multiset() == if filter_matches(
            f,
            topic,
        ) {
            matching_handlers(before@, Seq::empty(), topic).to_multiset().insert(h)
        } else {
            matching_handlers(before@, Seq::empty(), topic).to_multiset()
        },
{
    broadcast use vstd::multiset::group_multiset_axioms;
    broadcast use vstd::seq_lib::group_to_multiset_ensures;

    let p = Seq::<Seq<char>>::empty();
    assert forall|g: Seq<Seq<char>>| g != f implies #[trigger] handlers_of(after@, g) == handlers_of(before@, g) by {}
    lemma_matching_update(before@, after@, f, p, topic);
    assert(f.skip(0) =~= f);
    assert(p.is_prefix_of(f));
    assert(routes(p, topic, f) == filter_matches(f, topic));
    let old_f = handlers_of(before@, f);
    assert(handlers_of(after@, f) == old_f.push(h));
    assert(old_f.push(h).to_multiset() =~= old_f.to_multiset().insert(h));
    let a = matching_handlers(before@, p, topic).to_multiset();
    let b = matching_handlers(after@, p, topic).to_multiset();
    if filter_matches(f, topic) {
        assert(b.add(old_f.to_multiset()) =~= a.add(old_f.to_multiset().insert(h)));
        assert(b =~= a.insert(h)) by {
            assert forall|x: V| b.count(x) == a.insert(h).count(x) by {
                assert(b.add(old_f.to_multiset()).count(x) == a.add(old_f.to_multiset().insert(h)).count(x));
            }
        }
    }
}

/// Removing the filter `f` takes out of what every topic matched by `f`
/// delivers (none of whose levels is a wildcard) exactly the handlers stored
/// under `f`, and changes nothing for the other topics: handlers of other
/// filters, on the path to `f` or below it, still match.
pub proof fn law_remove_drops_matches<V: Copy>(
    before: TopicManager<V>,
    after: TopicManager<V>,
    f: Seq<Seq<char>>,
    found: bool,
    topic: Seq<Seq<char>>,
)
    requires
        before.removes(after, f, found),
        no_wildcard_levels(topic),
    ensures
        if filter_matches(f, topic) {
            matching_handlers(after@, Seq::empty(), topic).to_multiset().add(
                handlers_of(before@, f).to_multiset(),
            ) == matching_handlers(before@, Seq::empty(), topic).to_multiset()
        } else {
            matching_handlers(after@, Seq::empty(), topic).to_multiset() == matching_handlers(
                before@,
                Seq::empty(),
                topic,
            ).to_multiset()
        },
{
    broadcast use vstd::multiset::group_multiset_axioms;
    broadcast use vstd::seq_lib::group_to_multiset_ensures;

    let p = Seq::<Seq<char>>::empty();
    assert forall|g: Seq<Seq<char>>| g != f implies #[trigger] handlers_of(after@, g) == handlers_of(before@, g) by {}
    lemma_matching_update(before@, after@, f, p, topic);
    assert(f.skip(0) =~= f);
    assert(p.is_prefix_of(f));
    assert(handlers_of(after@, f) == Seq::<V>::empty());
    assert forall|x: V| #[trigger] Seq::<V>::empty().to_multiset().count(x) == 0 by {
        assert(!Seq::<V>::empty().contains(x));
    }
    assert(Seq::<V>::empty().to_multiset() =~= Multiset::<V>::empty());
    let a = matching_handlers(before@, p, topic).to_multiset();
    let b = matching_handlers(after@, p, topic).to_multiset();
    if filter_matches(f, topic) {
        assert(a.add(Multiset::<V>::empty()) =~= a);
    }
}

/// The handlers that the additions `adds` give, in order, for `topic`: the
/// handler of each addition whose filter matches it.
pub open spec fn matches_of_adds<V>(adds: Seq<(Seq<Seq<char>>, V)>, topic: Seq<Seq<char>>) -> Multiset<V>
    decreases adds.len(),
{
    if adds.len() == 0 {
        Multiset::empty()
    } else if filter_matches(adds.last().0, topic) {
        matches_of_adds(adds.drop_last(), topic).insert(adds.last().1)
    } else {
        matches_of_adds(adds.drop_last(), topic)
    }
}

/// Starting from a manager with no handlers, after the additions `adds` (the
/// managers `ms` before each and after the last), a topic none of whose
/// levels is a wildcard delivers each handler exactly as many times as it was
/// added under a filter that matches the topic.
pub proof fn law_matches_count_additions<V: Copy>(
    ms: Seq<TopicManager<V>>,
    adds: Seq<(Seq<Seq<char>>, V)>,
    topic: Seq<Seq<char>>,
)
    requires
        ms.len() == adds.len() + 1,
        ms[0]@ == Map::<Seq<Seq<char>>, Seq<V>>::empty(),
        forall|i: int| 0 <= i < adds.len() ==> #[trigger] ms[i].adds(ms[i + 1], adds[i].0, adds[i].1),
        no_wildcard_levels(topic),
    ensures
        matching_handlers(ms.last()@, Seq::empty(), topic).to_multiset() == matches_of_adds(adds, topic),
    decreases adds.len(),
{
    broadcast use vstd::multiset::group_multiset_axioms;
    broadcast use vstd::seq_lib::group_to_multiset_ensures;

    if adds.len() == 0 {
        law_nothing_matches_when_empty::<V>(Seq::empty(), topic);
        assert forall|x: V| #[trigger] Seq::<V>::empty().to_multiset().count(x) == 0 by {
            assert(!Seq::<V>::empty().contains(x));
        }
        assert(Seq::<V>::empty().to_multiset() =~= Multiset::<V>::empty());
    } else {
        let n = adds.len() - 1;
        let ms2 = ms.drop_last();
        let adds2 = adds.drop_last();
        assert forall|i: int| 0 <= i < adds2.len() implies #[trigger] ms2[i].adds(ms2[i + 1], adds2[i].0, adds2[i].1) by {
            assert(0 <= i < adds.len());
            assert(ms[i].adds(ms[i + 1], adds[i].0, adds[i].1));
        }
        law_matches_count_additions(ms2, adds2, topic);
        assert(ms[n].adds(ms[n + 1], adds[n].0, adds[n].1));
        law_add_extends_matches(ms[n], ms[n + 1], adds[n].0, adds[n].1, topic);
    }
}

/// Starting from a manager whose only node is the root, after the additions
/// `adds` (the managers `ms` before each and after the last), removing `g`
/// reports a node exactly when `g` is the root or a prefix of some filter
/// added: a path of the trie, with or without handlers stored at its end.
pub proof fn law_remove_finds_added_paths<V: Copy>(
    ms: Seq<TopicManager<V>>,
    adds: Seq<(Seq<Seq<char>>, V)>,
    after: TopicManager<V>,
    g: Seq<Seq<char>>,
    found: bool,
)
    requires
        ms.len() == adds.len() + 1,
        forall|f: Seq<Seq<char>>| #[trigger] ms[0].has_filter_node(f) == (f.len() == 0),
        forall|i: int| 0 <= i < adds.len() ==> #[trigger] ms[i].adds(ms[i + 1], adds[i].0, adds[i].1),
        ms.last().removes(after, g, found),
    ensures
        found == (g.len() == 0 || exists|i: int|
            0 <= i < adds.len() && g.is_prefix_of(#[trigger] adds[i].0)),
    decreases adds.len(),
{
    lemma_nodes_after_adds(ms, adds, g);
}

proof fn lemma_nodes_after_adds<V: Copy>(
    ms: Seq<TopicManager<V>>,
    adds: Seq<(Seq<Seq<char>>, V)>,
    g: Seq<Seq<char>>,
)
    requires
        ms.len() == adds.len() + 1,
        forall|f: Seq<Seq<char>>| #[trigger] ms[0].has_filter_node(f) == (f.len() == 0),
        forall|i: int| 0 <= i < adds.len() ==> #[trigger] ms[i].adds(ms[i + 1], adds[i].0, adds[i].1),
    ensures
        ms.last().has_filter_node(g) == (g.len() == 0 || exists|i: int|
            0 <= i < adds.len() && g.is_prefix_of(#[trigger] adds[i].0)),
    decreases adds.len(),
{
    if adds.len() > 0 {
        let n = adds.len() - 1;
        let ms2 = ms.drop_last();
        let adds2 = adds.drop_last();
        assert forall|i: int| 0 <= i < adds2.len() implies #[trigger] ms2[i].adds(ms2[i + 1], adds2[i].0, adds2[i].1) by {
            assert(0 <= i < adds.len());
            assert(ms[i].adds(ms[i + 1], adds[i].0, adds[i].1));
        }
        lemma_nodes_after_adds(ms2, adds2, g);
        assert(ms[n].adds(ms[n + 1], adds[n].0, adds[n].1));
        if exists|i: int| 0 <= i < adds.len() && g.is_prefix_of(#[trigger] adds[i].0) {
            let i = choose|i: int| 0 <= i < adds.len() && g.is_prefix_of(#[trigger] adds[i].0);
            if i < n {
                assert(adds2[i] == adds[i]);
            }
        }
        if exists|i: int| 0 <= i < adds2.len() && g.is_prefix_of(#[trigger] adds2[i].0) {
            let i = choose|i: int| 0 <= i < adds2.len() && g.is_prefix_of(#[trigger] adds2[i].0);
            assert(adds2[i] == adds[i]);
        }
    }
}

/// The (filter, handler) pairs still subscribed after the operations `ops`,
/// in the order they were added: an addition `(f, Some(h))` appends
/// `(f, h)`, and a removal `(f, None)` drops every pair under `f`.
pub open spec fn live_pairs<V>(ops: Seq<(Seq<Seq<char>>, Option<V>)>) -> Seq<(Seq<Seq<char>>, V)>
    decreases ops.len(),
{
    if ops.len() == 0 {
        Seq::empty()
    } else {
        let prev = live_pairs(ops.drop_last());
        let op = ops.last();
        match op.1 {
            Some(h) => prev.push((op.0, h)),
            None => drop_filter(prev, op.0),
        }
    }
}

/// The pairs of `s` whose filter is not `f`, in order.
pub open spec fn drop_filter<V>(s: Seq<(Seq<Seq<char>>, V)>, f: Seq<Seq<char>>) -> Seq<(Seq<Seq<char>>, V)>
    decreases s.len(),
{
    if s.len() == 0 {
        Seq::empty()
    } else {
        let rest = drop_filter(s.drop_last(), f);
        if s.last().0 == f {
            rest
        } else {
            rest.push(s.last())
        }
    }
}

/// The handlers of the pairs of `s` whose filter matches `topic`.
pub open spec fn matching_of<V>(s: Seq<(Seq<Seq<char>>, V)>, topic: Seq<Seq<char>>) -> Multiset<V>
    decreases s.len(),
{
    if s.len() == 0 {
        Multiset::empty()
    } else if filter_matches(s.last().0, topic) {
        matching_of(s.drop_last(), topic).insert(s.last().1)
    } else {
        matching_of(s.drop_last(), topic)
    }
}

/// The handlers of the pairs of `s` under the filter `f`.
pub open spec fn handlers_in<V>(s: Seq<(Seq<Seq<char>>, V)>, f: Seq<Seq<char>>) -> Multiset<V>
    decreases s.len(),
{
    if s.len() == 0 {
        Multiset::empty()
    } else if s.last().0 == f {
        handlers_in(s.drop_last(), f).insert(s.last().1)
    } else {
        handlers_in(s.drop_last(), f)
    }
}

proof fn lemma_drop_filter<V>(s: Seq<(Seq<Seq<char>>, V)>, f: Seq<Seq<char>>, t: Seq<Seq<char>>, g: Seq<Seq<char>>)
    ensures
        matching_of(drop_filter(s, f), t).add(
            if filter_matches(f, t) {
                handlers_in(s, f)
            } else {
                Multiset::empty()
            },
        ) == matching_of(s, t),
        handlers_in(drop_filter(s, f), g) == if g == f {
            Multiset::<V>::empty()
        } else {
            handlers_in(s, g)
        },
    decreases s.len(),
{
    broadcast use vstd::multiset::group_multiset_axioms;

    if s.len() == 0 {
        assert(Multiset::<V>::empty().add(Multiset::empty()) =~= Multiset::<V>::empty());
    } else {
        let s2 = s.drop_last();
        let p = s.last();
        lemma_drop_filter(s2, f, t, g);
        let d2 = drop_filter(s2, f);
        if p.0 != f {
            let d = d2.push(p);
            assert(d.drop_last() =~= d2);
            assert(d.last() == p);
        }
        let a = if filter_matches(f, t) {
            handlers_in(s, f)
        } else {
            Multiset::empty()
        };
        let a2 = if filter_matches(f, t) {
            handlers_in(s2, f)
        } else {
            Multiset::empty()
        };
        assert(matching_of(drop_filter(s, f), t).add(a) =~= matching_of(s, t));
        assert(handlers_in(drop_filter(s, f), g) =~= if g == f {
            Multiset::<V>::empty()
        } else {
            handlers_in(s, g)
        });
    }
}

proof fn lemma_history<V: Copy>(
    ms: Seq<TopicManager<V>>,
    ops: Seq<(Seq<Seq<char>>, Option<V>)>,
    topic: Seq<Seq<char>>,
)
    requires
        ms.len() == ops.len() + 1,
        ms[0]@ == Map::<Seq<Seq<char>>, Seq<V>>::empty(),
        forall|i: int| 0 <= i < ops.len() ==> #[trigger] history_step(ms[i], ms[i + 1], ops[i]),
        no_wildcard_levels(topic),
    ensures
        matching_handlers(ms.last()@, Seq::empty(), topic).to_multiset() == matching_of(live_pairs(ops), topic),
        forall|g: Seq<Seq<char>>| #[trigger] handlers_of(ms.last()@, g).to_multiset() == handlers_in(live_pairs(ops), g),
    decreases ops.len(),
{
    broadcast use vstd::multiset::group_multiset_axioms;
    broadcast use vstd::seq_lib::group_to_multiset_ensures;

    if ops.len() == 0 {
        law_nothing_matches_when_empty::<V>(Seq::empty(), topic);
        assert forall|x: V| #[trigger] Seq::<V>::empty().to_multiset().count(x) == 0 by {
            assert(!Seq::<V>::empty().contains(x));
        }
        assert(Seq::<V>::empty().to_multiset() =~= Multiset::<V>::empty());
        assert forall|g: Seq<Seq<char>>| #[trigger] handlers_of(ms.last()@, g).to_multiset() == handlers_in(live_pairs(ops), g) by {
            assert(handlers_of(ms.last()@, g) == Seq::<V>::empty());
        }
    } else {
        let n = ops.len() - 1;
        let ms2 = ms.drop_last();
        let ops2 = ops.drop_last();
        assert forall|i: int| 0 <= i < ops2.len() implies #[trigger] history_step(ms2[i], ms2[i + 1], ops2[i]) by {
            assert(0 <= i < ops.len());
            assert(history_step(ms[i], ms[i + 1], ops[i]));
        }
        lemma_history(ms2, ops2, topic);
        assert(history_step(ms[n], ms[n + 1], ops[n]));
        let before = ms[n];
        let after = ms[n + 1];
        assert(ms2.last() == before);
        let prev = live_pairs(ops2);
        let f = ops[n].0;
        match ops[n].1 {
            Some(h) => {
                law_add_extends_matches(before, after, f, h, topic);
                let cur = prev.push((f, h));
                assert(live_pairs(ops) == cur);
                assert(cur.drop_last() =~= prev);
                assert(matching_handlers(after@, Seq::empty(), topic).to_multiset() =~= matching_of(cur, topic));
                assert forall|g: Seq<Seq<char>>| #[trigger] handlers_of(ms.last()@, g).to_multiset() == handlers_in(live_pairs(ops), g) by {
                    assert(handlers_of(before@, g).to_multiset() == handlers_in(prev, g));
                    if g == f {
                        assert(handlers_of(after@, g) == handlers_of(before@, f).push(h));
                        assert(handlers_of(before@, f).push(h).to_multiset() =~= handlers_of(before@, f).to_multiset().insert(h));
                    } else {
                        assert(handlers_of(after@, g) == handlers_of(before@, g));
                    }
                }
            },
            None => {
                let found = choose|found: bool| before.removes(after, f, found);
                law_remove_drops_matches(before, after, f, found, topic);
                lemma_drop_filter(prev, f, topic, f);
                let cur = drop_filter(prev, f);
                assert(live_pairs(ops) == cur);
                assert(handlers_of(before@, f).to_multiset() == handlers_in(prev, f));
                let x = matching_handlers(after@, Seq::empty(), topic).to_multiset();
                let m2 = matching_of(cur, topic);
                let a = if filter_matches(f, topic) {
                    handlers_in(prev, f)
                } else {
                    Multiset::empty()
                };
                assert(x.add(a) == m2.add(a)) by {
                    if !filter_matches(f, topic) {
                        assert(m2.add(a) =~= m2);
                        assert(x.add(a) =~= x);
                    }
                }
                assert(x =~= m2) by {
                    assert forall|v: V| x.count(v) == m2.count(v) by {
                        assert(x.add(a).count(v) == m2.add(a).count(v));
                    }
                }
                assert forall|g: Seq<Seq<char>>| #[trigger] handlers_of(ms.last()@, g).to_multiset() == handlers_in(live_pairs(ops), g) by {
                    lemma_drop_filter(prev, f, topic, g);
                    assert(handlers_of(before@, g).to_multiset() == handlers_in(prev, g));
                    if g == f {
                        assert(handlers_of(after@, g) == Seq::<V>::empty());
                        assert forall|v: V| #[trigger] Seq::<V>::empty().to_multiset().count(v) == 0 by {
                            assert(!Seq::<V>::empty().contains(v));
                        }
                        assert(Seq::<V>::empty().to_multiset() =~= Multiset::<V>::empty());
                    } else {
                        assert(handlers_of(after@, g) == handlers_of(before@, g));
                    }
                }
            },
        }
    }
}

/// One operation of a history: `after` is `before` once the handler `h` is
/// added under `op.0` (for `op.1 == Some(h)`), or once the filter `op.0` is
/// removed (for `op.1 == None`).
pub open spec fn history_step<V: Copy>(
    before: TopicManager<V>,
    after: TopicManager<V>,
    op: (Seq<Seq<char>>, Option<V>),
) -> bool {
    match op.1 {
        Some(h) => before.adds(after, op.0, h),
        None => exists|found: bool| before.removes(after, op.0, found),
    }
}

/// Starting from a manager with no handlers, after any history of additions
/// and removals `ops` (the managers `ms` before each and after the last), a
/// topic none of whose levels is a wildcard delivers exactly the handlers of
/// the pairs still subscribed whose filter matches it, each as many times as
/// it is subscribed.
pub proof fn law_matches_after_history<V: Copy>(
    ms: Seq<TopicManager<V>>,
    ops: Seq<(Seq<Seq<char>>, Option<V>)>,
    topic: Seq<Seq<char>>,
)
    requires
        ms.len() == ops.len() + 1,
        ms[0]@ == Map::<Seq<Seq<char>>, Seq<V>>::empty(),
        forall|i: int| 0 <= i < ops.len() ==> #[trigger] history_step(ms[i], ms[i + 1], ops[i]),
        no_wildcard_levels(topic),
    ensures
        matching_handlers(ms.last()@, Seq::empty(), topic).to_multiset() == matching_of(live_pairs(ops), topic),
{
    lemma_history(ms, ops, topic);
}

} // verus!
