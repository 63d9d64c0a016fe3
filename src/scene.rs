use vstd::prelude::*;
use crate::arena::{Arena, Key};
use crate::links::{RSGComponentKind, RSGComponentLinks, RSGNodeKey};
use crate::observer::{ObserverState, RSGDirtyFlags, RSGEvent, RSGSceneObserver};

verus! {

/// A node about to be inserted into a tree: the components it owns.
#[derive(Clone, Copy, PartialEq, Eq, Structural, Debug)]
pub struct RSGNode {
    pub links: RSGComponentLinks,
}

impl RSGNode {
    /// A node owning the components of `links`.
    pub fn with_component_links(links: RSGComponentLinks) -> (r: Self)
        ensures
            r.links == links,
    {
        RSGNode { links }
    }
}

struct Entry {
    parent: Option<RSGNodeKey>,
    children: Vec<RSGNodeKey>,
    links: RSGComponentLinks,
    /// Strictly greater than the rank of the parent; bounds every walk upwards.
    rank: Ghost<nat>,
}

impl Entry {
    fn placeholder() -> (r: Entry) {
        Entry { parent: None, children: Vec::new(), links: RSGComponentLinks::empty(), rank: Ghost(0) }
    }
}

/// A batch of insertions that the observer hears of once, at [`RSGScene::commit`].
pub struct RSGSubtreeAddTransaction {
    top: Option<RSGNodeKey>,
}

impl RSGSubtreeAddTransaction {
    /// The first node inserted through the transaction, if any.
    pub closed spec fn top_root(&self) -> Option<RSGNodeKey> {
        self.top
    }

    /// A transaction that holds no insertion.
    pub fn new() -> (r: Self)
        ensures
            r.top_root() is None,
    {
        RSGSubtreeAddTransaction { top: None }
    }
}

/// The observer's state after `e`, when there is an observer.
pub open spec fn observed(o: Option<ObserverState>, e: RSGEvent) -> Option<ObserverState> {
    match o {
        Some(s) => Some(s.notified(e)),
        None => None,
    }
}

/// The observer's state after one reattachment event for each key of `s`, in order.
pub open spec fn observed_reattached(o: Option<ObserverState>, s: Seq<RSGNodeKey>) -> Option<
    ObserverState,
>
    decreases s.len(),
{
    if s.len() == 0 {
        o
    } else {
        observed(
            observed_reattached(o, s.drop_last()),
            RSGEvent::SubtreeAddedOrReattached(s.last()),
        )
    }
}

/// `s` with its first `k` replaced by the keys of `by`.
pub open spec fn splice(s: Seq<RSGNodeKey>, k: RSGNodeKey, by: Seq<RSGNodeKey>) -> Seq<RSGNodeKey> {
    s.take(s.index_of(k)) + by + s.skip(s.index_of(k) + 1)
}

/// A tree of nodes in a generational arena. Each node has a parent (but the one
/// root), an ordered list of children, and the keys of the components it owns.
/// At most one observer is attached; every mutation reports to it.
pub struct RSGScene {
    nodes: Arena<Entry>,
    root: Option<RSGNodeKey>,
    observer: Option<RSGSceneObserver>,
}

impl RSGScene {
    /// Whether `k` addresses a node of the tree.
    pub closed spec fn live(&self, k: RSGNodeKey) -> bool {
        self.nodes@.contains_key(k)
    }

    /// The parent of node `k`; none for the root.
    pub closed spec fn parent_of(&self, k: RSGNodeKey) -> Option<RSGNodeKey> {
        self.nodes@[k].parent
    }

    /// The children of node `k`, in order.
    pub closed spec fn children_of(&self, k: RSGNodeKey) -> Seq<RSGNodeKey> {
        self.nodes@[k].children@
    }

    /// The component links of node `k`.
    pub closed spec fn links_of(&self, k: RSGNodeKey) -> RSGComponentLinks {
        self.nodes@[k].links
    }

    /// A bound on the length of the parent chain above `k`.
    pub closed spec fn rank(&self, k: RSGNodeKey) -> nat {
        self.nodes@[k].rank@
    }

    /// The root, once one is set.
    pub closed spec fn root_key(&self) -> Option<RSGNodeKey> {
        self.root
    }

    /// The number of nodes.
    pub closed spec fn count(&self) -> nat {
        self.nodes.spec_len()
    }

    /// What the attached observer has accumulated, if one is attached.
    pub closed spec fn observer_state(&self) -> Option<ObserverState> {
        match self.observer {
            Some(o) => Some(o@),
            None => None,
        }
    }

    /// Node `k` has the same parent, children and links in `self` and in `other`.
    pub open spec fn same_node(&self, other: &Self, k: RSGNodeKey) -> bool {
        &&& self.parent_of(k) == other.parent_of(k)
        &&& self.children_of(k) == other.children_of(k)
        &&& self.links_of(k) == other.links_of(k)
    }

    /// `self` and `other` hold the same nodes, with the same parents, children and
    /// links, under the same root.
    pub open spec fn same_structure(&self, other: &Self) -> bool {
        &&& self.root_key() == other.root_key()
        &&& self.count() == other.count()
        &&& forall|k: RSGNodeKey| #[trigger] self.live(k) == other.live(k)
        &&& forall|k: RSGNodeKey| #[trigger] self.live(k) ==> self.same_node(other, k)
    }

    /// The tree's invariant: one root; every other node's parent is a node that lists
    /// it among its children; every listed child is a node whose parent is the lister;
    /// no cycles.
    pub closed spec fn wf(&self) -> bool {
        let m = self.nodes@;
        &&& self.nodes.wf()
        &&& match self.root {
            Some(r) => m.contains_key(r) && m[r].parent is None,
            None => forall|k: RSGNodeKey| !#[trigger] m.contains_key(k),
        }
        &&& forall|k: RSGNodeKey| #[trigger]
            m.contains_key(k) ==> {
                &&& m[k].parent is None ==> self.root == Some(k)
                &&& m[k].parent is Some ==> {
                    let p = m[k].parent->Some_0;
                    &&& m.contains_key(p)
                    &&& m[p].rank@ < m[k].rank@
                    &&& m[p].children@.contains(k)
                }
                &&& m[k].children@.no_duplicates()
            }
        &&& forall|k: RSGNodeKey, i: int|
            m.contains_key(k) && 0 <= i < m[k].children@.len() ==> {
                &&& m.contains_key(#[trigger] m[k].children@[i])
                &&& m[m[k].children@[i]].parent == Some(k)
            }
    }

    /// The strict ancestors of `k`, nearest first, ending at the root.
    #[verifier::opaque]
    pub closed spec fn ancestry(&self, k: RSGNodeKey) -> Seq<RSGNodeKey>
        decreases self.rank(k),
    {
        if self.live(k) && self.parent_of(k) is Some && self.rank(self.parent_of(k)->Some_0)
            < self.rank(k) {
            seq![self.parent_of(k)->Some_0] + self.ancestry(self.parent_of(k)->Some_0)
        } else {
            Seq::empty()
        }
    }

    /// The nearest strict ancestor of `k` that owns a component of `kind`.
    #[verifier::opaque]
    pub closed spec fn nearest_owner(&self, k: RSGNodeKey, kind: RSGComponentKind) -> Option<
        RSGNodeKey,
    >
        decreases self.rank(k),
    {
        if self.live(k) && self.parent_of(k) is Some && self.rank(self.parent_of(k)->Some_0)
            < self.rank(k) {
            let p = self.parent_of(k)->Some_0;
            if self.links_of(p).key_of(kind) is Some {
                Some(p)
            } else {
                self.nearest_owner(p, kind)
            }
        } else {
            None
        }
    }

    /// An empty tree with no observer.
    pub fn new() -> (r: Self)
        ensures
            r.wf(),
            r.root_key() is None,
            r.count() == 0,
            r.observer_state() is None,
            forall|k: RSGNodeKey| !#[trigger] r.live(k),
    {
        RSGScene { nodes: Arena::new(), root: None, observer: None }
    }

    /// Attaches `observer`, which from now on hears of every mutation.
    pub fn set_observer(&mut self, observer: RSGSceneObserver)
        ensures
            final(self).observer_state() == Some(observer@),
            final(self).wf() == old(self).wf(),
            final(self).same_structure(old(self)),
    {
        self.observer = Some(observer);
    }

    /// Detaches the observer and hands it back.
    pub fn take_observer(&mut self) -> (r: Option<RSGSceneObserver>)
        ensures
            final(self).observer_state() is None,
            old(self).observer_state() == match r {
                Some(o) => Some(o@),
                None => None::<ObserverState>,
            },
            final(self).wf() == old(self).wf(),
            final(self).same_structure(old(self)),
    {
        let mut o: Option<RSGSceneObserver> = None;
        std::mem::swap(&mut self.observer, &mut o);
        o
    }

    fn emit(&mut self, e: RSGEvent)
        ensures
            final(self).nodes == old(self).nodes,
            final(self).wf() == old(self).wf(),
            final(self).same_structure(old(self)),
            final(self).root == old(self).root,
            final(self).observer_state() == observed(old(self).observer_state(), e),
    {
        let mut o: Option<RSGSceneObserver> = None;
        std::mem::swap(&mut self.observer, &mut o);
        match o {
            Some(mut ob) => {
                ob.notify(e);
                self.observer = Some(ob);
            },
            None => {},
        }
    }

    /// The number of nodes.
    pub fn node_count(&self) -> (r: usize)
        requires
            self.wf(),
        ensures
            r == self.count(),
    {
        self.nodes.len()
    }

    /// The root, once one is set.
    pub fn root(&self) -> (r: Option<RSGNodeKey>)
        ensures
            r == self.root_key(),
    {
        self.root
    }

    /// Whether `k` addresses a node of the tree.
    pub fn contains(&self, k: RSGNodeKey) -> (r: bool)
        requires
            self.wf(),
        ensures
            r == self.live(k),
    {
        self.nodes.contains(k)
    }

    /// The component links of node `k`.
    pub fn get_component_links(&self, k: RSGNodeKey) -> (r: RSGComponentLinks)
        requires
            self.wf(),
            self.live(k),
        ensures
            r == self.links_of(k),
    {
        self.nodes.get(k).links
    }

    /// The parent of node `k`; none for the root.
    pub fn parent(&self, k: RSGNodeKey) -> (r: Option<RSGNodeKey>)
        requires
            self.wf(),
            self.live(k),
        ensures
            r == self.parent_of(k),
    {
        self.nodes.get(k).parent
    }

    /// The children of node `k`, in order.
    pub fn children(&self, k: RSGNodeKey) -> (r: &Vec<RSGNodeKey>)
        requires
            self.wf(),
            self.live(k),
        ensures
            r@ == self.children_of(k),
    {
        &self.nodes.get(k).children
    }

    /// Every node of the tree.
    pub fn node_keys(&self) -> (r: Vec<RSGNodeKey>)
        requires
            self.wf(),
        ensures
            forall|i: int| 0 <= i < r@.len() ==> self.live(#[trigger] r@[i]),
            forall|k: RSGNodeKey| #[trigger] self.live(k) ==> r@.contains(k),
            r@.no_duplicates(),
    {
        let r = self.nodes.keys();
        assert forall|a: int, b: int| 0 <= a < r@.len() && 0 <= b < r@.len() && a != b implies r@[a]
            != r@[b] by {
            if a < b {
                assert(r@[a].index < r@[b].index);
            } else {
                assert(r@[b].index < r@[a].index);
            }
        }
        r
    }

    /// Makes a first node the root of the empty tree.
    pub fn set_root(&mut self, node: RSGNode) -> (k: RSGNodeKey)
        requires
            old(self).wf(),
            old(self).root_key() is None,
        ensures
            final(self).wf(),
            final(self).root_key() == Some(k),
            final(self).live(k),
            forall|q: RSGNodeKey| #[trigger] final(self).live(q) ==> q == k,
            final(self).parent_of(k) is None,
            final(self).children_of(k) == Seq::<RSGNodeKey>::empty(),
            final(self).links_of(k) == node.links,
            final(self).count() == 1,
            final(self).observer_state() == observed(
                old(self).observer_state(),
                RSGEvent::SubtreeAddedOrReattached(k),
            ),
    {
        assert forall|q: Key| !self.nodes@.dom().contains(q) by {
            assert(!self.live(q));
        }
        assert(self.nodes@.dom() =~= Set::<Key>::empty());
        let k = self.nodes.insert(
            Entry { parent: None, children: Vec::new(), links: node.links, rank: Ghost(0) },
        );
        self.root = Some(k);
        assert forall|q: RSGNodeKey| #[trigger] self.live(q) implies q == k by {
            assert(!old(self).live(q));
        }
        self.emit(RSGEvent::SubtreeAddedOrReattached(k));
        k
    }

    fn attach(&mut self, parent: RSGNodeKey, node: RSGNode, at_front: bool) -> (k: RSGNodeKey)
        requires
            old(self).wf(),
            old(self).live(parent),
            old(self).count() < usize::MAX,
        ensures
            final(self).wf(),
            final(self).observer == old(self).observer,
            final(self).root_key() == old(self).root_key(),
            final(self).count() == old(self).count() + 1,
            !old(self).live(k),
            final(self).live(k),
            forall|q: RSGNodeKey| #[trigger] final(self).live(q) <==> (old(self).live(q) || q == k),
            final(self).parent_of(k) == Some(parent),
            final(self).children_of(k) == Seq::<RSGNodeKey>::empty(),
            final(self).links_of(k) == node.links,
            final(self).children_of(parent) == if at_front {
                old(self).children_of(parent).insert(0, k)
            } else {
                old(self).children_of(parent).push(k)
            },
            forall|q: RSGNodeKey| #[trigger]
                old(self).live(q) && q != parent ==> final(self).same_node(old(self), q),
    {
        let ghost m0 = self.nodes@;
        let rank = Ghost(self.nodes@[parent].rank@ + 1);
        let k = self.nodes.insert(
            Entry { parent: Some(parent), children: Vec::new(), links: node.links, rank },
        );
        let mut pe = self.nodes.replace(parent, Entry::placeholder());
        proof {
            assert(!pe.children@.contains(k));
        }
        if at_front {
            pe.children.insert(0, k);
        } else {
            pe.children.push(k);
        }
        let ghost pc = pe.children@;
        self.nodes.replace(parent, pe);
        proof {
            let m = self.nodes@;
            assert(m.dom() =~= m0.dom().insert(k));
            assert forall|q: RSGNodeKey, i: int|
                m.contains_key(q) && 0 <= i < m[q].children@.len() implies {
                &&& m.contains_key(#[trigger] m[q].children@[i])
                &&& m[m[q].children@[i]].parent == Some(q)
            } by {
                if q == parent {
                    let c = pc[i];
                    if c != k {
                        if at_front {
                            assert(m0[parent].children@[i - 1] == c);
                        } else {
                            assert(m0[parent].children@[i] == c);
                        }
                    }
                }
            }
            assert forall|q: RSGNodeKey| #[trigger] m.contains_key(q) implies {
                &&& m[q].parent is None ==> self.root == Some(q)
                &&& m[q].parent is Some ==> {
                    let p = m[q].parent->Some_0;
                    &&& m.contains_key(p)
                    &&& m[p].rank@ < m[q].rank@
                    &&& m[p].children@.contains(q)
                }
                &&& m[q].children@.no_duplicates()
            } by {
                if q != k && q != parent {
                    assert(m[q] == m0[q]);
                    assert(m0.contains_key(q));
                    if m[q].parent is Some {
                        let p = m[q].parent->Some_0;
                        assert(m0.contains_key(p));
                        assert(p != k);
                        if p != parent {
                            assert(m[p] == m0[p]);
                        }
                    }
                }
                if q == k {
                    assert(m[k].parent == Some(parent));
                    assert(m[parent].rank@ == m0[parent].rank@);
                    assert(m[k].children@.no_duplicates());
                    if at_front {
                        assert(pc[0] == k);
                    } else {
                        assert(pc[pc.len() - 1] == k);
                    }
                }
                if q == parent {
                    assert(m[parent].parent == m0[parent].parent);
                    if m[q].parent is Some {
                        let p = m[q].parent->Some_0;
                        assert(p != k);
                        assert(m[p] == m0[p]);
                    }
                }
                if q != k && m[q].parent == Some(parent) {
                    let j = choose|j: int| 0 <= j < m0[parent].children@.len() && m0[parent].children@[j] == q;
                    if at_front {
                        assert(pc[j + 1] == q);
                    } else {
                        assert(pc[j] == q);
                    }
                    assert(pc.contains(q));
                    assert(m[parent].children@ == pc);
                }
                assert(m[q].parent is None ==> self.root == Some(q));
                assert(m[q].children@.no_duplicates());
                if m[q].parent is Some {
                    let p = m[q].parent->Some_0;
                    assert(m.contains_key(p));
                    assert(m[p].rank@ < m[q].rank@);
                    assert(m[p].children@.contains(q));
                }
                if q == parent {
                    let oc = m0[parent].children@;
                    if at_front {
                        assert(pc[0] == k);
                        assert forall|a: int, b: int| 0 <= a < pc.len() && 0 <= b < pc.len() && a != b
                            implies pc[a] != pc[b] by {
                            if a > 0 && b > 0 {
                                assert(pc[a] == oc[a - 1] && pc[b] == oc[b - 1]);
                            } else if a == 0 {
                                assert(pc[b] == oc[b - 1]);
                            } else {
                                assert(pc[a] == oc[a - 1]);
                            }
                        }
                    } else {
                        assert(pc[pc.len() - 1] == k);
                        assert forall|a: int, b: int| 0 <= a < pc.len() && 0 <= b < pc.len() && a != b
                            implies pc[a] != pc[b] by {
                            if a < oc.len() && b < oc.len() {
                                assert(pc[a] == oc[a] && pc[b] == oc[b]);
                            } else if a < oc.len() {
                                assert(pc[a] == oc[a]);
                            } else {
                                assert(pc[b] == oc[b]);
                            }
                        }
                    }
                }
            }
        }
        k
    }

    /// Inserts `node` as the last child of `parent` and reports the new subtree.
    pub fn append(&mut self, parent: RSGNodeKey, node: RSGNode) -> (k: RSGNodeKey)
        requires
            old(self).wf(),
            old(self).live(parent),
            old(self).count() < usize::MAX,
        ensures
            final(self).wf(),
            final(self).root_key() == old(self).root_key(),
            final(self).count() == old(self).count() + 1,
            !old(self).live(k),
            forall|q: RSGNodeKey| #[trigger] final(self).live(q) <==> (old(self).live(q) || q == k),
            final(self).parent_of(k) == Some(parent),
            final(self).children_of(k) == Seq::<RSGNodeKey>::empty(),
            final(self).links_of(k) == node.links,
            final(self).children_of(parent) == old(self).children_of(parent).push(k),
            forall|q: RSGNodeKey| #[trigger]
                old(self).live(q) && q != parent ==> final(self).same_node(old(self), q),
            final(self).observer_state() == observed(
                old(self).observer_state(),
                RSGEvent::SubtreeAddedOrReattached(k),
            ),
    {
        let k = self.attach(parent, node, false);
        self.emit(RSGEvent::SubtreeAddedOrReattached(k));
        k
    }

    /// Inserts `node` as the first child of `parent` and reports the new subtree.
    pub fn prepend(&mut self, parent: RSGNodeKey, node: RSGNode) -> (k: RSGNodeKey)
        requires
            old(self).wf(),
            old(self).live(parent),
            old(self).count() < usize::MAX,
        ensures
            final(self).wf(),
            final(self).root_key() == old(self).root_key(),
            final(self).count() == old(self).count() + 1,
            !old(self).live(k),
            forall|q: RSGNodeKey| #[trigger] final(self).live(q) <==> (old(self).live(q) || q == k),
            final(self).parent_of(k) == Some(parent),
            final(self).children_of(k) == Seq::<RSGNodeKey>::empty(),
            final(self).links_of(k) == node.links,
            final(self).children_of(parent) == old(self).children_of(parent).insert(0, k),
            forall|q: RSGNodeKey| #[trigger]
                old(self).live(q) && q != parent ==> final(self).same_node(old(self), q),
            final(self).observer_state() == observed(
                old(self).observer_state(),
                RSGEvent::SubtreeAddedOrReattached(k),
            ),
    {
        let k = self.attach(parent, node, true);
        self.emit(RSGEvent::SubtreeAddedOrReattached(k));
        k
    }

    /// Inserts `node` as the last child of `parent` without reporting it; `tx`
    /// remembers the first node so inserted, which [`RSGScene::commit`] reports.
    pub fn append_with_transaction(
        &mut self,
        parent: RSGNodeKey,
        node: RSGNode,
        tx: &mut RSGSubtreeAddTransaction,
    ) -> (k: RSGNodeKey)
        requires
            old(self).wf(),
            old(self).live(parent),
            old(self).count() < usize::MAX,
        ensures
            final(self).wf(),
            final(self).root_key() == old(self).root_key(),
            final(self).count() == old(self).count() + 1,
            !old(self).live(k),
            forall|q: RSGNodeKey| #[trigger] final(self).live(q) <==> (old(self).live(q) || q == k),
            final(self).parent_of(k) == Some(parent),
            final(self).children_of(k) == Seq::<RSGNodeKey>::empty(),
            final(self).links_of(k) == node.links,
            final(self).children_of(parent) == old(self).children_of(parent).push(k),
            forall|q: RSGNodeKey| #[trigger]
                old(self).live(q) && q != parent ==> final(self).same_node(old(self), q),
            final(self).observer_state() == old(self).observer_state(),
            final(tx).top_root() == match old(tx).top_root() {
                Some(t) => Some(t),
                None => Some(k),
            },
    {
        let k = self.attach(parent, node, false);
        if tx.top.is_none() {
            tx.top = Some(k);
        }
        k
    }

    /// Reports the subtree that `tx` built, once; an empty transaction reports nothing.
    pub fn commit(&mut self, tx: RSGSubtreeAddTransaction)
        ensures
            final(self).wf() == old(self).wf(),
            final(self).same_structure(old(self)),
            final(self).observer_state() == match tx.top_root() {
                Some(t) => observed(old(self).observer_state(), RSGEvent::SubtreeAddedOrReattached(t)),
                None => old(self).observer_state(),
            },
    {
        match tx.top {
            Some(t) => self.emit(RSGEvent::SubtreeAddedOrReattached(t)),
            None => {},
        }
    }

    /// Reports that derived state of the categories in `flags` is stale under `k`.
    pub fn mark_dirty(&mut self, k: RSGNodeKey, flags: RSGDirtyFlags)
        requires
            old(self).wf(),
            old(self).live(k),
        ensures
            final(self).wf(),
            final(self).same_structure(old(self)),
            final(self).observer_state() == observed(
                old(self).observer_state(),
                RSGEvent::Dirty(k, flags),
            ),
    {
        self.emit(RSGEvent::Dirty(k, flags));
    }

    /// The strict ancestors of `k`, nearest first; the last one is the root.
    pub fn ancestors(&self, k: RSGNodeKey) -> (r: Vec<RSGNodeKey>)
        requires
            self.wf(),
            self.live(k),
        ensures
            r@ == self.ancestry(k),
    {
        let mut r: Vec<RSGNodeKey> = Vec::new();
        let mut cur = k;
        while self.nodes.get(cur).parent.is_some()
            invariant
                self.wf(),
                self.live(cur),
                r@ + self.ancestry(cur) == self.ancestry(k),
            decreases self.rank(cur),
        {
            let p = self.nodes.get(cur).parent.unwrap();
            proof {
                self.lemma_ancestry_step(cur);
            }
            r.push(p);
            assert(r@ + self.ancestry(p) =~= self.ancestry(k));
            cur = p;
        }
        proof {
            self.lemma_ancestry_step(cur);
        }
        assert(r@ + Seq::<RSGNodeKey>::empty() =~= r@);
        r
    }

    /// The nearest strict ancestor of `k` that owns a component of `kind`, if any.
    pub fn nearest_ancestor_with(&self, k: RSGNodeKey, kind: RSGComponentKind) -> (r: Option<
        RSGNodeKey,
    >)
        requires
            self.wf(),
            self.live(k),
        ensures
            r == self.nearest_owner(k, kind),
            r matches Some(a) ==> self.live(a) && self.links_of(a).key_of(kind) is Some,
    {
        let mut cur = k;
        loop
            invariant
                self.wf(),
                self.live(cur),
                self.nearest_owner(cur, kind) == self.nearest_owner(k, kind),
            decreases self.rank(cur),
        {
            proof {
                self.lemma_nearest_owner_step(cur, kind);
            }
            match self.nodes.get(cur).parent {
                None => {
                    return None;
                },
                Some(p) => {
                    if self.nodes.get(p).links.key(kind).is_some() {
                        return Some(p);
                    }
                    cur = p;
                },
            }
        }
    }

    /// Pushes the children of `k` onto `stack`, last child first, one level below `d`.
    fn push_children(&self, stack: &mut Vec<(RSGNodeKey, usize)>, k: RSGNodeKey, d: usize)
        requires
            self.wf(),
            self.live(k),
            d < usize::MAX,
        ensures
            final(stack)@.len() == old(stack)@.len() + self.children_of(k).len(),
            final(stack)@.subrange(0, old(stack)@.len() as int) == old(stack)@,
            forall|m: int|
                #![trigger final(stack)@[old(stack)@.len() + m]]
                0 <= m < self.children_of(k).len() ==> final(stack)@[old(stack)@.len() + m] == (
                    self.children_of(k)[self.children_of(k).len() - 1 - m],
                    (d + 1) as usize,
                ),
    {
        let ghost s0 = stack@;
        let children = &self.nodes.get(k).children;
        let mut i: usize = children.len();
        while i > 0
            invariant
                d < usize::MAX,
                children@ == self.children_of(k),
                i <= children@.len(),
                stack@.len() == s0.len() + (children@.len() - i),
                stack@.subrange(0, s0.len() as int) == s0,
                forall|m: int|
                    #![trigger stack@[s0.len() + m]]
                    0 <= m < children@.len() - i ==> stack@[s0.len() + m] == (
                        children@[children@.len() - 1 - m],
                        (d + 1) as usize,
                    ),
            decreases i,
        {
            i = i - 1;
            let c = children[i];
            let ghost before = stack@;
            stack.push((c, d + 1));
            assert(stack@.subrange(0, s0.len() as int) =~= before.subrange(0, s0.len() as int));
            assert forall|m: int|
                #![trigger stack@[s0.len() + m]]
                0 <= m < children@.len() - i implies stack@[s0.len() + m] == (
                    children@[children@.len() - 1 - m],
                    (d + 1) as usize,
                ) by {
                if m < children@.len() - i - 1 {
                    assert(stack@[s0.len() + m] == before[s0.len() + m]);
                }
            }
        }
    }

    /// Each strict ancestor of `k` is a node of lower rank whose own ancestry is the
    /// rest of the list.
    pub proof fn lemma_ancestry_facts(&self, k: RSGNodeKey)
        requires
            self.wf(),
            self.live(k),
        ensures
            forall|i: int|
                0 <= i < self.ancestry(k).len() ==> {
                    &&& self.live(#[trigger] self.ancestry(k)[i])
                    &&& self.rank(self.ancestry(k)[i]) < self.rank(k)
                    &&& self.ancestry(self.ancestry(k)[i]) == self.ancestry(k).skip(i + 1)
                },
        decreases self.rank(k),
    {
        self.lemma_ancestry_step(k);
        if self.parent_of(k) is Some {
            let p = self.parent_of(k)->Some_0;
            self.lemma_ancestry_facts(p);
            let anc = self.ancestry(k);
            assert forall|i: int| 0 <= i < anc.len() implies {
                &&& self.live(#[trigger] anc[i])
                &&& self.rank(anc[i]) < self.rank(k)
                &&& self.ancestry(anc[i]) == anc.skip(i + 1)
            } by {
                if i == 0 {
                    assert(anc.skip(1) =~= self.ancestry(p));
                } else {
                    assert(anc[i] == self.ancestry(p)[i - 1]);
                    assert(anc.skip(i + 1) =~= self.ancestry(p).skip(i));
                }
            }
        }
    }

    /// A node lies above none of its ancestors, and an ancestor of an ancestor is an
    /// ancestor.
    pub proof fn lemma_ancestry_order(&self, a: RSGNodeKey, b: RSGNodeKey, c: RSGNodeKey)
        requires
            self.wf(),
            self.live(c),
        ensures
            self.ancestry(c).contains(b) ==> self.live(b) && self.rank(b) < self.rank(c),
            self.ancestry(c).contains(b) && self.ancestry(b).contains(a) ==> self.ancestry(
                c,
            ).contains(a),
            !self.ancestry(c).contains(c),
    {
        self.lemma_ancestry_facts(c);
        let anc = self.ancestry(c);
        if anc.contains(b) {
            let i = choose|i: int| 0 <= i < anc.len() && anc[i] == b;
            assert(self.live(anc[i]));
            if self.ancestry(b).contains(a) {
                let j = choose|j: int| 0 <= j < self.ancestry(b).len() && self.ancestry(b)[j] == a;
                assert(anc[i + 1 + j] == a);
            }
        }
        if anc.contains(c) {
            let i = choose|i: int| 0 <= i < anc.len() && anc[i] == c;
            assert(self.rank(anc[i]) < self.rank(c));
        }
    }

    /// `k` appears among the nodes of `s`.
    pub open spec fn listed(s: Seq<(RSGNodeKey, usize)>, k: RSGNodeKey) -> bool {
        exists|j: int| 0 <= j < s.len() && (#[trigger] s[j]).0 == k
    }

    /// No node appears twice in `s`.
    pub open spec fn distinct_nodes(s: Seq<(RSGNodeKey, usize)>) -> bool {
        forall|i: int, j: int| 0 <= i < s.len() && 0 <= j < s.len() && i != j ==> (#[trigger] s[i]).0
            != (#[trigger] s[j]).0
    }

    /// `n` is `start` or lies below it.
    pub open spec fn in_subtree(&self, n: RSGNodeKey, start: RSGNodeKey) -> bool {
        n == start || self.ancestry(n).contains(start)
    }

    proof fn lemma_listed_below(
        &self,
        out: Seq<(RSGNodeKey, usize)>,
        start: RSGNodeKey,
        x: RSGNodeKey,
    )
        requires
            self.wf(),
            self.live(x),
            out.len() > 0,
            out[0].0 == start,
            forall|i: int, m: int|
                0 <= i < out.len() && 0 <= m < self.children_of(out[i].0).len() ==> Self::listed(
                    out,
                    #[trigger] self.children_of(out[i].0)[m],
                ),
            forall|i: int| 0 <= i < out.len() ==> self.live(#[trigger] out[i].0),
            self.ancestry(x).contains(start),
        ensures
            Self::listed(out, x),
        decreases self.rank(x),
    {
        self.lemma_ancestry_step(x);
        let p = self.parent_of(x)->Some_0;
        assert(self.children_of(p).contains(x));
        if p != start {
            assert(self.ancestry(x) == seq![p] + self.ancestry(p));
            assert(self.ancestry(p).contains(start));
            self.lemma_listed_below(out, start, p);
        } else {
            assert(out[0].0 == p);
        }
        let i = choose|i: int| 0 <= i < out.len() && (#[trigger] out[i]).0 == p;
        let m = choose|m: int| 0 <= m < self.children_of(p).len() && self.children_of(p)[m] == x;
        assert(self.children_of(out[i].0)[m] == x);
    }

    proof fn lemma_ancestors_first(
        &self,
        out: Seq<(RSGNodeKey, usize)>,
        opar: Seq<int>,
        start: RSGNodeKey,
        i: int,
        j: int,
    )
        requires
            self.wf(),
            Self::distinct_nodes(out),
            out.len() > 0,
            out[0].0 == start,
            opar.len() == out.len(),
            forall|q: int| 0 <= q < out.len() ==> self.live(#[trigger] out[q].0),
            forall|q: int| 0 <= q < out.len() ==> self.in_subtree(#[trigger] out[q].0, start),
            forall|q: int|
                #![trigger out[q]]
                0 < q < out.len() ==> 0 <= opar[q] < q && self.parent_of(out[q].0) == Some(
                    out[opar[q]].0,
                ),
            0 <= i < out.len(),
            0 <= j < out.len(),
            self.ancestry(out[j].0).contains(out[i].0),
        ensures
            i < j,
        decreases j,
    {
        let x = out[j].0;
        let a = out[i].0;
        self.lemma_ancestry_order(start, a, x);
        if j == 0 {
            self.lemma_ancestry_order(start, a, a);
            assert(self.in_subtree(a, start));
            if a != start {
                self.lemma_ancestry_order(a, start, a);
                self.lemma_ancestry_facts(a);
                assert(self.rank(start) < self.rank(a));
            }
            assert(false);
        } else {
            let pj = opar[j];
            let p = out[pj].0;
            self.lemma_ancestry_step(x);
            if p == a {
                assert(out[i].0 == out[pj].0);
            } else {
                assert(self.ancestry(x) == seq![p] + self.ancestry(p));
                let w = choose|w: int| 0 <= w < self.ancestry(x).len() && self.ancestry(x)[w] == a;
                assert(self.ancestry(p)[w - 1] == a);
                self.lemma_ancestors_first(out, opar, start, i, pj);
            }
        }
    }

    /// The subtree of `start` in pre-order, each node with its depth below `start`:
    /// `start` first at depth 0, every node of the subtree exactly once, every other
    /// node after its parent and one deeper, and ancestors before descendants.
    #[verifier::rlimit(80)]
    pub fn traverse(&self, start: RSGNodeKey) -> (r: Vec<(RSGNodeKey, usize)>)
        requires
            self.wf(),
            self.live(start),
        ensures
            r@.len() >= 1,
            r@[0] == (start, 0usize),
            forall|i: int| 0 <= i < r@.len() ==> self.live(#[trigger] r@[i].0),
            forall|i: int| 0 <= i < r@.len() ==> self.in_subtree(#[trigger] r@[i].0, start),
            forall|x: RSGNodeKey|
                self.live(x) && #[trigger] self.ancestry(x).contains(start) ==> Self::listed(r@, x),
            Self::distinct_nodes(r@),
            forall|i: int|
                #![trigger r@[i]]
                0 < i < r@.len() ==> exists|j: int|
                    0 <= j < i && self.parent_of(r@[i].0) == Some(#[trigger] r@[j].0) && r@[i].1
                        == r@[j].1 + 1,
            forall|i: int, j: int|
                0 <= i < r@.len() && 0 <= j < r@.len() && self.ancestry(
                    (#[trigger] r@[j]).0,
                ).contains((#[trigger] r@[i]).0) ==> i < j,
    {
        let limit = self.nodes.len();
        proof {
            self.nodes.lemma_nonempty(start);
        }
        let mut out: Vec<(RSGNodeKey, usize)> = Vec::new();
        let mut stack: Vec<(RSGNodeKey, usize)> = Vec::new();
        stack.push((start, 0));
        let ghost mut opar: Seq<int> = Seq::empty();
        let ghost mut spar: Seq<int> = seq![0int];
        while stack.len() > 0 && out.len() < limit
            invariant
                self.wf(),
                limit == self.count(),
                limit >= 1,
                out@.len() <= limit,
                out@.len() == 0 ==> stack@ == seq![(start, 0usize)],
                out@.len() > 0 ==> out@[0] == (start, 0usize),
                opar.len() == out@.len(),
                spar.len() == stack@.len(),
                forall|i: int|
                    0 <= i < out@.len() ==> self.live(#[trigger] out@[i].0) && self.in_subtree(
                        out@[i].0,
                        start,
                    ),
                forall|i: int| 0 <= i < out@.len() ==> #[trigger] out@[i].1 <= i,
                forall|i: int|
                    #![trigger out@[i]]
                    0 < i < out@.len() ==> {
                        &&& 0 <= opar[i] < i
                        &&& self.parent_of(out@[i].0) == Some(out@[opar[i]].0)
                        &&& out@[i].1 == out@[opar[i]].1 + 1
                    },
                forall|i: int|
                    0 <= i < stack@.len() ==> self.live(#[trigger] stack@[i].0) && self.in_subtree(
                        stack@[i].0,
                        start,
                    ),
                forall|i: int|
                    #![trigger stack@[i]]
                    0 <= i < stack@.len() && out@.len() > 0 ==> {
                        &&& 0 <= spar[i] < out@.len()
                        &&& self.parent_of(stack@[i].0) == Some(out@[spar[i]].0)
                        &&& stack@[i].1 == out@[spar[i]].1 + 1
                    },
                Self::distinct_nodes(out@),
                Self::distinct_nodes(stack@),
                forall|i: int, j: int|
                    0 <= i < out@.len() && 0 <= j < stack@.len() ==> (#[trigger] out@[i]).0 != (
                    #[trigger] stack@[j]).0,
                forall|i: int, m: int|
                    0 <= i < out@.len() && 0 <= m < self.children_of(out@[i].0).len() ==> Self::listed(
                        out@,
                        #[trigger] self.children_of(out@[i].0)[m],
                    ) || Self::listed(stack@, self.children_of(out@[i].0)[m]),
            decreases limit - out@.len(),
        {
            let ghost s_before = stack@;
            let (k, d) = stack.pop().unwrap();
            let ghost before = out@;
            let ghost s_mid = stack@;
            let ghost pk = spar.last();
            proof {
                spar = spar.drop_last();
                assert(s_mid =~= s_before.drop_last());
                assert(s_before[s_before.len() - 1] == (k, d));
                assert(self.live(k) && self.in_subtree(k, start));
                if before.len() > 0 {
                    assert(0 <= pk < before.len());
                    assert(d == before[pk].1 + 1);
                    assert(before[pk].1 <= pk);
                } else {
                    assert(d == 0);
                }
            }
            out.push((k, d));
            proof {
                opar = opar.push(pk);
                assert(d < out@.len());
            }
            self.push_children(&mut stack, k, d);
            proof {
                let n = stack@.len() - spar.len();
                let bl = before.len() as int;
                let kids = self.children_of(k);
                spar = spar + Seq::new(n as nat, |x: int| bl);
                assert forall|i: int| 0 <= i < s_mid.len() implies #[trigger] stack@[i] == s_mid[i] by {
                    assert(stack@.subrange(0, s_mid.len() as int)[i] == stack@[i]);
                }
                assert forall|i: int| s_mid.len() <= i < stack@.len() implies #[trigger] stack@[i]
                    == (kids[kids.len() - 1 - (i - s_mid.len())], (d + 1) as usize) by {
                    let m = i - s_mid.len();
                    assert(stack@[s_mid.len() + m] == stack@[i]);
                }
                // The children of `k` are new: their parent was not visited before.
                assert forall|m: int| 0 <= m < kids.len() implies !Self::listed(before, #[trigger] kids[m])
                    && !Self::listed(s_mid, kids[m]) && kids[m] != k && self.live(kids[m])
                    && self.parent_of(kids[m]) == Some(k) by {
                    let c = kids[m];
                    assert(self.live(c) && self.parent_of(c) == Some(k));
                    self.lemma_ancestry_step(c);
                    self.lemma_ancestry_facts(c);
                    assert(self.ancestry(c)[0] == k);
                    if Self::listed(before, c) {
                        let q = choose|q: int| 0 <= q < before.len() && (#[trigger] before[q]).0 == c;
                        if q == 0 {
                            if k != start {
                                self.lemma_ancestry_order(start, k, c);
                                self.lemma_ancestry_order(k, start, k);
                                assert(self.ancestry(c).contains(k));
                            }
                            self.lemma_ancestry_order(c, c, c);
                            assert(self.ancestry(c).contains(start));
                        } else {
                            assert(before[opar[q]].0 == k);
                            assert(s_before[s_before.len() - 1].0 == k);
                        }
                    }
                    if Self::listed(s_mid, c) {
                        let q = choose|q: int| 0 <= q < s_mid.len() && (#[trigger] s_mid[q]).0 == c;
                        if before.len() > 0 {
                            assert(s_before[q] == s_mid[q]);
                            assert(before[spar[q]].0 == k);
                            assert(s_before[s_before.len() - 1].0 == k);
                        } else {
                            assert(s_mid.len() == 0);
                        }
                    }
                    self.lemma_ancestry_order(c, c, c);
                }
                assert forall|i: int, j: int|
                    0 <= i < stack@.len() && 0 <= j < stack@.len() && i != j implies (
                    #[trigger] stack@[i]).0 != (#[trigger] stack@[j]).0 by {
                    if i < s_mid.len() && j < s_mid.len() {
                        assert(s_mid[i] == s_before[i] && s_mid[j] == s_before[j]);
                    } else if i >= s_mid.len() && j >= s_mid.len() {
                        let mi = kids.len() - 1 - (i - s_mid.len());
                        let mj = kids.len() - 1 - (j - s_mid.len());
                        assert(self.children_of(k).no_duplicates());
                        assert(kids[mi] != kids[mj]);
                    } else if i < s_mid.len() {
                        let mj = kids.len() - 1 - (j - s_mid.len());
                        assert(!Self::listed(s_mid, kids[mj]));
                        assert(s_mid[i].0 != kids[mj]);
                    } else {
                        let mi = kids.len() - 1 - (i - s_mid.len());
                        assert(!Self::listed(s_mid, kids[mi]));
                        assert(s_mid[j].0 != kids[mi]);
                    }
                }
                assert forall|i: int, j: int| 0 <= i < out@.len() && 0 <= j < out@.len() && i != j implies (
                    #[trigger] out@[i]).0 != (#[trigger] out@[j]).0 by {
                    if i < before.len() && j < before.len() {
                        assert(out@[i] == before[i] && out@[j] == before[j]);
                    } else if i < before.len() {
                        assert(s_before[s_before.len() - 1].0 == k);
                        assert(before[i].0 != s_before[s_before.len() - 1].0);
                        assert(out@[i] == before[i]);
                    } else {
                        assert(s_before[s_before.len() - 1].0 == k);
                        assert(before[j].0 != s_before[s_before.len() - 1].0);
                        assert(out@[j] == before[j]);
                    }
                }
                assert forall|i: int, j: int| 0 <= i < out@.len() && 0 <= j < stack@.len() implies (
                    #[trigger] out@[i]).0 != (#[trigger] stack@[j]).0 by {
                    if j < s_mid.len() {
                        assert(stack@[j] == s_before[j]);
                        if i < before.len() {
                            assert(out@[i] == before[i]);
                        } else {
                            assert(s_before[s_before.len() - 1].0 == k);
                            assert(s_before[j].0 != s_before[s_before.len() - 1].0);
                        }
                    } else {
                        let m = kids.len() - 1 - (j - s_mid.len());
                        assert(stack@[j].0 == kids[m]);
                        if i < before.len() {
                            assert(out@[i] == before[i]);
                            assert(!Self::listed(before, kids[m]));
                        } else {
                            assert(kids[m] != k);
                        }
                    }
                }
                assert forall|i: int, m: int|
                    0 <= i < out@.len() && 0 <= m < self.children_of(out@[i].0).len() implies Self::listed(
                        out@,
                        #[trigger] self.children_of(out@[i].0)[m],
                    ) || Self::listed(stack@, self.children_of(out@[i].0)[m]) by {
                    let c = self.children_of(out@[i].0)[m];
                    if i < before.len() {
                        assert(out@[i] == before[i]);
                        if Self::listed(before, c) {
                            let q = choose|q: int| 0 <= q < before.len() && (#[trigger] before[q]).0 == c;
                            assert(out@[q] == before[q]);
                        } else {
                            let q = choose|q: int| 0 <= q < s_before.len() && (#[trigger] s_before[q]).0 == c;
                            if q == s_before.len() - 1 {
                                assert(out@[before.len() as int].0 == c);
                            } else {
                                assert(stack@[q] == s_before[q]);
                            }
                        }
                    } else {
                        let q = s_mid.len() + (kids.len() - 1 - m);
                        assert(stack@[q].0 == kids[m]);
                    }
                }
                assert forall|i: int| 0 <= i < out@.len() implies #[trigger] out@[i].1 <= i by {
                    if i < before.len() {
                        assert(out@[i] == before[i]);
                    }
                }
                assert forall|i: int|
                    #![trigger out@[i]]
                    0 < i < out@.len() implies {
                        &&& 0 <= opar[i] < i
                        &&& self.parent_of(out@[i].0) == Some(out@[opar[i]].0)
                        &&& out@[i].1 == out@[opar[i]].1 + 1
                    } by {
                    if i < before.len() {
                        assert(out@[i] == before[i]);
                        assert(out@[opar[i]] == before[opar[i]]);
                    } else {
                        assert(out@[opar[i]] == before[pk]);
                    }
                }
                assert forall|i: int|
                    #![trigger stack@[i]]
                    0 <= i < stack@.len() && out@.len() > 0 implies {
                        &&& 0 <= spar[i] < out@.len()
                        &&& self.parent_of(stack@[i].0) == Some(out@[spar[i]].0)
                        &&& stack@[i].1 == out@[spar[i]].1 + 1
                    } by {
                    if i < s_mid.len() {
                        assert(s_mid[i] == s_before[i]);
                        assert(before.len() > 0);
                        assert(out@[spar[i]] == before[spar[i]]);
                    } else {
                        assert(spar[i] == bl);
                        assert(out@[bl] == (k, d));
                    }
                }
                assert forall|i: int| 0 <= i < stack@.len() implies self.live(#[trigger] stack@[i].0)
                    && self.in_subtree(stack@[i].0, start) by {
                    if i < s_mid.len() {
                        assert(s_mid[i] == s_before[i]);
                    } else {
                        let m = kids.len() - 1 - (i - s_mid.len());
                        let c = kids[m];
                        self.lemma_ancestry_step(c);
                        if k != start {
                            let w = choose|w: int|
                                0 <= w < self.ancestry(k).len() && self.ancestry(k)[w] == start;
                            assert(self.ancestry(c)[w + 1] == start);
                        } else {
                            assert(self.ancestry(c)[0] == start);
                        }
                    }
                }
                assert forall|i: int| 0 <= i < out@.len() implies self.live(#[trigger] out@[i].0)
                    && self.in_subtree(out@[i].0, start) by {
                    if i < before.len() {
                        assert(out@[i] == before[i]);
                    }
                }
            }
        }
        proof {
            if stack@.len() > 0 {
                let ks = Seq::new(out@.len() + 1, |i: int| if i < out@.len() { out@[i].0 } else { stack@[0].0 });
                assert(ks.no_duplicates()) by {
                    assert forall|i: int, j: int| 0 <= i < ks.len() && 0 <= j < ks.len() && i != j implies ks[i]
                        != ks[j] by {
                        if i < out@.len() && j < out@.len() {
                            assert(out@[i].0 != out@[j].0);
                        } else if i < out@.len() {
                            assert(out@[i].0 != stack@[0].0);
                        } else {
                            assert(out@[j].0 != stack@[0].0);
                        }
                    }
                }
                ks.unique_seq_to_set();
                assert forall|x: RSGNodeKey| ks.to_set().contains(x) implies self.nodes@.dom().contains(x) by {
                    let i = choose|i: int| 0 <= i < ks.len() && ks[i] == x;
                    if i < out@.len() {
                        assert(self.live(out@[i].0));
                    } else {
                        assert(self.live(stack@[0].0));
                    }
                }
                self.nodes.lemma_finite();
                vstd::set_lib::lemma_len_subset(ks.to_set(), self.nodes@.dom());
                assert(false);
            }
            assert forall|x: RSGNodeKey|
                self.live(x) && #[trigger] self.ancestry(x).contains(start) implies Self::listed(out@, x) by {
                assert forall|i: int, m: int|
                    0 <= i < out@.len() && 0 <= m < self.children_of(out@[i].0).len() implies Self::listed(
                        out@,
                        #[trigger] self.children_of(out@[i].0)[m],
                    ) by {
                    assert(Self::listed(out@, self.children_of(out@[i].0)[m]) || Self::listed(
                        stack@,
                        self.children_of(out@[i].0)[m],
                    ));
                }
                self.lemma_listed_below(out@, start, x);
            }
            assert forall|i: int|
                #![trigger out@[i]]
                0 < i < out@.len() implies exists|j: int|
                    0 <= j < i && self.parent_of(out@[i].0) == Some(#[trigger] out@[j].0)
                        && out@[i].1 == out@[j].1 + 1 by {
                let j = opar[i];
                assert(out@[j] == out@[opar[i]]);
            }
            assert forall|i: int, j: int|
                0 <= i < out@.len() && 0 <= j < out@.len() && self.ancestry(
                    (#[trigger] out@[j]).0,
                ).contains((#[trigger] out@[i]).0) implies i < j by {
                self.lemma_ancestors_first(out@, opar, start, i, j);
            }
        }
        out
    }

    /// Removes node `k` but not its descendants: the children of `k` take, in order,
    /// the place `k` held among its parent's children, and each is reported as
    /// reattached. Returns the links of `k`, whose components the caller releases.
    /// The root cannot be removed this way.
    pub fn remove_without_children(&mut self, k: RSGNodeKey) -> (r: RSGComponentLinks)
        requires
            old(self).wf(),
            old(self).live(k),
            old(self).root_key() != Some(k),
        ensures
            final(self).wf(),
            r == old(self).links_of(k),
            final(self).root_key() == old(self).root_key(),
            final(self).count() + 1 == old(self).count(),
            forall|q: RSGNodeKey| #[trigger] final(self).live(q) <==> (old(self).live(q) && q != k),
            old(self).parent_of(k) is Some,
            ({
                let p = old(self).parent_of(k)->Some_0;
                let cs = old(self).children_of(k);
                &&& final(self).children_of(p) == splice(old(self).children_of(p), k, cs)
                &&& final(self).parent_of(p) == old(self).parent_of(p)
                &&& final(self).links_of(p) == old(self).links_of(p)
                &&& forall|c: RSGNodeKey| #[trigger]
                    cs.contains(c) ==> {
                        &&& final(self).parent_of(c) == Some(p)
                        &&& final(self).children_of(c) == old(self).children_of(c)
                        &&& final(self).links_of(c) == old(self).links_of(c)
                    }
                &&& forall|q: RSGNodeKey| #[trigger]
                    final(self).live(q) && q != p && !cs.contains(q) ==> final(self).same_node(
                        old(self),
                        q,
                    )
                &&& final(self).observer_state() == observed_reattached(
                    observed(old(self).observer_state(), RSGEvent::SubtreeAboutToBeRemoved(k)),
                    cs,
                )
            }),
    {
        let ghost m0 = self.nodes@;
        let ghost cs = m0[k].children@;
        let ghost pk = m0[k].parent->Some_0;
        self.emit(RSGEvent::SubtreeAboutToBeRemoved(k));
        let ghost obs1 = self.observer_state();
        let e = self.nodes.remove(k);
        let links = e.links;
        let p = e.parent.unwrap();
        proof {
            assert(m0[p].children@.contains(k));
            assert forall|c: RSGNodeKey| #[trigger] cs.contains(c) implies m0.contains_key(c)
                && m0[c].parent == Some(k) && c != k && c != p && m0[k].rank@ < m0[c].rank@ by {
                let j = choose|j: int| 0 <= j < cs.len() && cs[j] == c;
                assert(m0[k].children@[j] == c);
            }
        }
        let mut i: usize = 0;
        while i < e.children.len()
            invariant
                self.nodes.wf(),
                self.root == old(self).root,
                e.children@ == cs,
                cs == m0[k].children@,
                cs.no_duplicates(),
                p == pk,
                i <= cs.len(),
                self.nodes@.dom() == m0.dom().remove(k),
                forall|c: RSGNodeKey| #[trigger]
                    cs.contains(c) ==> m0.contains_key(c) && m0[c].parent == Some(k) && c != k
                        && c != p,
                forall|q: RSGNodeKey| #[trigger]
                    self.nodes@.contains_key(q) ==> {
                        &&& self.nodes@[q].children == m0[q].children
                        &&& self.nodes@[q].links == m0[q].links
                        &&& self.nodes@[q].rank == m0[q].rank
                        &&& self.nodes@[q].parent == if cs.take(i as int).contains(q) {
                            Some(p)
                        } else {
                            m0[q].parent
                        }
                    },
                self.observer_state() == observed_reattached(obs1, cs.take(i as int)),
            decreases cs.len() - i,
        {
            let c = e.children[i];
            assert(cs.contains(c));
            let ghost before = self.nodes@;
            let mut ce = self.nodes.replace(c, Entry::placeholder());
            ce.parent = Some(p);
            self.nodes.replace(c, ce);
            let ghost mid = self.nodes@;
            self.emit(RSGEvent::SubtreeAddedOrReattached(c));
            proof {
                let t0 = cs.take(i as int);
                let t1 = cs.take(i + 1);
                assert(t1.drop_last() =~= t0);
                assert(t1.last() == c);
                assert forall|q: RSGNodeKey| #[trigger] t1.contains(q) <==> (t0.contains(q) || q == c) by {
                    if t1.contains(q) {
                        let j = choose|j: int| 0 <= j < t1.len() && t1[j] == q;
                        if j < i {
                            assert(t0[j] == q);
                        }
                    }
                    if t0.contains(q) {
                        let j = choose|j: int| 0 <= j < t0.len() && t0[j] == q;
                        assert(t1[j] == q);
                    }
                    if q == c {
                        assert(t1[i as int] == q);
                    }
                }
                assert forall|q: RSGNodeKey| #[trigger] self.nodes@.contains_key(q) implies {
                    &&& self.nodes@[q].children == m0[q].children
                    &&& self.nodes@[q].links == m0[q].links
                    &&& self.nodes@[q].rank == m0[q].rank
                    &&& self.nodes@[q].parent == if t1.contains(q) {
                        Some(p)
                    } else {
                        m0[q].parent
                    }
                } by {
                    assert(before.contains_key(q));
                    if q != c {
                        assert(self.nodes@[q] == before[q]);
                    }
                }
            }
            i = i + 1;
        }
        proof {
            assert(cs.take(cs.len() as int) =~= cs);
        }
        let mut pe = self.nodes.replace(p, Entry::placeholder());
        let ghost pc = pe.children@;
        let mut pos: usize = 0;
        while pos < pe.children.len() && pe.children[pos] != k
            invariant
                pe.children@ == pc,
                pos <= pc.len(),
                pc.contains(k),
                forall|j: int| 0 <= j < pos ==> pc[j] != k,
            decreases pc.len() - pos,
        {
            pos = pos + 1;
        }
        proof {
            if pos == pc.len() {
                let j = choose|j: int| 0 <= j < pc.len() && pc[j] == k;
                assert(pc[j] != k);
            }
            assert(pc.index_of(k) == pos);
        }
        let mut tail = pe.children.split_off(pos);
        tail.remove(0);
        let mut moved = e.children;
        pe.children.append(&mut moved);
        pe.children.append(&mut tail);
        let ghost nc = pe.children@;
        proof {
            assert(nc =~= splice(pc, k, cs));
        }
        self.nodes.replace(p, pe);
        proof {
            let m = self.nodes@;
            assert(m.dom() =~= m0.dom().remove(k));
            let pre = pc.take(pos as int);
            let suf = pc.skip(pos + 1);
            assert(nc =~= pre + cs + suf);
            // Where each listed child of `p` comes from.
            assert forall|j: int| 0 <= j < nc.len() implies {
                ||| (j < pos && nc[j] == pc[j])
                ||| (pos <= j < pos + cs.len() && nc[j] == cs[j - pos])
                ||| (pos + cs.len() <= j && nc[j] == pc[j - cs.len() + 1])
            } by {}
            assert forall|j: int| 0 <= j < pc.len() && j != pos implies (m0[pc[j]].parent == Some(p)
                && pc[j] != k && m0.contains_key(pc[j])) by {
                assert(m0[p].children@[j] == pc[j]);
            }
            assert forall|a: int, b: int| 0 <= a < nc.len() && 0 <= b < nc.len() && a != b implies nc[a]
                != nc[b] by {
                let ia = if a < pos { a } else if a < pos + cs.len() { -1 } else { a - cs.len() + 1 };
                let ib = if b < pos { b } else if b < pos + cs.len() { -1 } else { b - cs.len() + 1 };
                if ia >= 0 && ib >= 0 {
                    assert(pc[ia] != pc[ib]);
                } else if ia < 0 && ib < 0 {
                    assert(cs[a - pos] != cs[b - pos]);
                } else if ia < 0 {
                    assert(cs.contains(nc[a]));
                    assert(m0[nc[b]].parent == Some(p));
                } else {
                    assert(cs.contains(nc[b]));
                    assert(m0[nc[a]].parent == Some(p));
                }
            }
            assert forall|q: RSGNodeKey| #[trigger] m.contains_key(q) implies {
                &&& m[q].parent is None ==> self.root == Some(q)
                &&& m[q].parent is Some ==> {
                    let pp = m[q].parent->Some_0;
                    &&& m.contains_key(pp)
                    &&& m[pp].rank@ < m[q].rank@
                    &&& m[pp].children@.contains(q)
                }
                &&& m[q].children@.no_duplicates()
            } by {
                assert(m0.contains_key(q));
                if cs.contains(q) {
                    let j = choose|j: int| 0 <= j < cs.len() && cs[j] == q;
                    assert(nc[pos + j] == q);
                    assert(m0[p].rank@ < m0[k].rank@);
                } else if m[q].parent is Some {
                    let pp = m0[q].parent->Some_0;
                    if pp == k {
                        assert(m0[k].children@.contains(q));
                    }
                    if pp == p {
                        let j = choose|j: int| 0 <= j < pc.len() && pc[j] == q;
                        if j < pos {
                            assert(nc[j] == q);
                        } else {
                            assert(j != pos);
                            assert(nc[j + cs.len() - 1] == q);
                        }
                    }
                }
            }
            assert forall|q: RSGNodeKey, j: int|
                m.contains_key(q) && 0 <= j < m[q].children@.len() implies {
                &&& m.contains_key(#[trigger] m[q].children@[j])
                &&& m[m[q].children@[j]].parent == Some(q)
            } by {
                let c = m[q].children@[j];
                if q == p {
                    if pos <= j < pos + cs.len() {
                        assert(cs.contains(c));
                    } else {
                        let oj = if j < pos { j } else { j - cs.len() + 1 };
                        assert(pc[oj] == c);
                        if cs.contains(c) {
                            assert(m0[c].parent == Some(k));
                        }
                    }
                } else {
                    assert(m0[q].children@[j] == c);
                    assert(m0[c].parent == Some(q));
                    if cs.contains(c) {
                        assert(m0[c].parent == Some(k));
                    }
                }
            }
        }
        links
    }

    /// One step of the search for the nearest owning ancestor: the parent, if it owns
    /// a component of `kind`, else the parent's own nearest owner.
    pub proof fn lemma_nearest_owner_step(&self, k: RSGNodeKey, kind: RSGComponentKind)
        requires
            self.wf(),
            self.live(k),
        ensures
            self.nearest_owner(k, kind) == match self.parent_of(k) {
                None => None,
                Some(p) => if self.links_of(p).key_of(kind) is Some {
                    Some(p)
                } else {
                    self.nearest_owner(p, kind)
                },
            },
            self.parent_of(k) matches Some(p) ==> self.live(p),
            self.nearest_owner(k, kind) matches Some(a) ==> self.live(a) && self.links_of(
                a,
            ).key_of(kind) is Some,
        decreases self.rank(k),
    {
        reveal(RSGScene::nearest_owner);
        if self.parent_of(k) is Some {
            let p = self.parent_of(k)->Some_0;
            if self.links_of(p).key_of(kind) is None {
                self.lemma_nearest_owner_step(p, kind);
            }
        }
    }

    /// The root is the one node without a parent.
    pub proof fn lemma_root_has_no_parent(&self)
        requires
            self.wf(),
        ensures
            self.root_key() matches Some(r) ==> self.live(r) && self.parent_of(r) is None,
            forall|k: RSGNodeKey| #[trigger]
                self.live(k) && self.parent_of(k) is None ==> self.root_key() == Some(k),
    {
    }

    /// The ancestry of a node with a parent is that parent followed by its ancestry.
    pub proof fn lemma_ancestry_step(&self, k: RSGNodeKey)
        requires
            self.wf(),
            self.live(k),
        ensures
            self.ancestry(k) == match self.parent_of(k) {
                None => Seq::<RSGNodeKey>::empty(),
                Some(p) => seq![p] + self.ancestry(p),
            },
    {
        reveal(RSGScene::ancestry);
    }

    /// The nearest owning ancestor is an ancestor.
    pub proof fn lemma_nearest_owner_is_ancestor(&self, k: RSGNodeKey, kind: RSGComponentKind)
        requires
            self.wf(),
            self.live(k),
        ensures
            self.nearest_owner(k, kind) matches Some(a) ==> self.ancestry(k).contains(a),
        decreases self.rank(k),
    {
        self.lemma_nearest_owner_step(k, kind);
        self.lemma_ancestry_step(k);
        if self.parent_of(k) is Some {
            let p = self.parent_of(k)->Some_0;
            assert(self.ancestry(k)[0] == p);
            if self.links_of(p).key_of(kind) is None {
                self.lemma_nearest_owner_is_ancestor(p, kind);
                if self.nearest_owner(p, kind) is Some {
                    let a = self.nearest_owner(p, kind)->Some_0;
                    let w = choose|w: int| 0 <= w < self.ancestry(p).len() && self.ancestry(p)[w] == a;
                    assert(self.ancestry(k)[w + 1] == a);
                }
            }
        }
    }
}

} // verus!
