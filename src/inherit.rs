use vstd::prelude::*;
use crate::arena::{Arena, Key};
use crate::links::{RSGComponentKind, RSGNodeKey};
use crate::scene::RSGScene;

verus! {

/// A value a node owns, and the value it ends with once composed with the value of
/// its nearest ancestor that owns one of the same kind: a local and a world
/// transform, or an opacity and an inherited opacity.
#[derive(Clone, Copy)]
pub struct RSGInherited<V> {
    pub local: V,
    pub world: V,
}

impl<V: Copy> RSGInherited<V> {
    /// A component whose world value starts as its local value.
    pub fn new(local: V) -> (r: Self)
        ensures
            r.local == local,
            r.world == local,
    {
        RSGInherited { local, world: local }
    }
}

/// Every node's link of `kind`, when present, addresses a component of `store`.
pub open spec fn links_valid<V>(
    scene: &RSGScene,
    store: Map<Key, RSGInherited<V>>,
    kind: RSGComponentKind,
) -> bool {
    forall|n: RSGNodeKey| #[trigger]
        scene.live(n) && scene.links_of(n).key_of(kind) is Some ==> store.contains_key(
            scene.links_of(n).key_of(kind)->Some_0,
        )
}

/// `compose` accepts every pair of values.
pub open spec fn total<V, F: Fn(&V, &V) -> V>(compose: &F) -> bool {
    forall|a: V, b: V| #[trigger] compose.requires((&a, &b))
}

/// `compose` gives one result for each pair of values.
pub open spec fn deterministic<V, F: Fn(&V, &V) -> V>(compose: &F) -> bool {
    forall|a: V, b: V, r: V, s: V|
        #[trigger] compose.ensures((&a, &b), r) && #[trigger] compose.ensures((&a, &b), s) ==> r
            == s
}

/// `w` is the world value of node `n` given the values in `store`: its local value
/// composed with the world value of its nearest ancestor owning a component of
/// `kind`, or its local value alone when there is no such ancestor.
pub open spec fn world_of<V, F: Fn(&V, &V) -> V>(
    scene: &RSGScene,
    store: Map<Key, RSGInherited<V>>,
    kind: RSGComponentKind,
    compose: &F,
    n: RSGNodeKey,
    w: V,
) -> bool {
    let local = store[scene.links_of(n).key_of(kind)->Some_0].local;
    match scene.nearest_owner(n, kind) {
        None => w == local,
        Some(a) => compose.ensures(
            (&local, &store[scene.links_of(a).key_of(kind)->Some_0].world),
            w,
        ),
    }
}

/// Recomputes the world value of node `n` from its local value and the world value
/// of its nearest owning ancestor. A node that owns no component of `kind` is left
/// alone.
pub fn resolve_node<V: Copy, F: Fn(&V, &V) -> V>(
    scene: &RSGScene,
    store: &mut Arena<RSGInherited<V>>,
    kind: RSGComponentKind,
    n: RSGNodeKey,
    compose: &F,
)
    requires
        scene.wf(),
        old(store).wf(),
        scene.live(n),
        links_valid(scene, old(store)@, kind),
        total(compose),
    ensures
        final(store).wf(),
        final(store)@.dom() == old(store)@.dom(),
        match scene.links_of(n).key_of(kind) {
            None => final(store)@ == old(store)@,
            Some(t) => {
                &&& forall|u: Key| #[trigger] final(store)@.contains_key(u) && u != t ==> final(store)@[u]
                    == old(store)@[u]
                &&& final(store)@[t].local == old(store)@[t].local
                &&& world_of(scene, old(store)@, kind, compose, n, final(store)@[t].world)
            },
        },
{
    let links = scene.get_component_links(n);
    match links.key(kind) {
        None => {},
        Some(t) => {
            let local = store.get(t).local;
            let w = match scene.nearest_ancestor_with(n, kind) {
                None => local,
                Some(a) => {
                    let ta = scene.get_component_links(a).key(kind).unwrap();
                    let aw = store.get(ta).world;
                    compose(&local, &aw)
                },
            };
            store.replace(t, RSGInherited { local, world: w });
            assert(store@.dom() =~= old(store)@.dom());
        },
    }
}

/// Distinct nodes own distinct components of `kind`.
pub open spec fn links_injective(scene: &RSGScene, kind: RSGComponentKind) -> bool {
    forall|a: RSGNodeKey, b: RSGNodeKey|
        #![trigger scene.links_of(a).key_of(kind), scene.links_of(b).key_of(kind)]
        scene.live(a) && scene.live(b) && a != b && scene.links_of(a).key_of(kind) is Some
            ==> scene.links_of(a).key_of(kind) != scene.links_of(b).key_of(kind)
}

/// Node `x` owns a component of `kind`.
pub open spec fn owns(scene: &RSGScene, kind: RSGComponentKind, x: RSGNodeKey) -> bool {
    scene.live(x) && scene.links_of(x).key_of(kind) is Some
}

/// The component of `kind` that node `x` owns.
pub open spec fn owned(scene: &RSGScene, kind: RSGComponentKind, x: RSGNodeKey) -> Key {
    scene.links_of(x).key_of(kind)->Some_0
}

/// Node `x` holds its world value in `store`.
pub open spec fn consistent_at<V, F: Fn(&V, &V) -> V>(
    scene: &RSGScene,
    store: Map<Key, RSGInherited<V>>,
    kind: RSGComponentKind,
    compose: &F,
    x: RSGNodeKey,
) -> bool {
    world_of(scene, store, kind, compose, x, store[owned(scene, kind, x)].world)
}

/// Node `x` lies in the subtree of one of the first `n` roots.
pub open spec fn covered(scene: &RSGScene, roots: Seq<RSGNodeKey>, n: int, x: RSGNodeKey) -> bool {
    exists|j: int| 0 <= j < n && scene.in_subtree(x, #[trigger] roots[j])
}

/// What a pass below `roots` leaves: the same components with the same local values;
/// every node of the subtrees of `roots` holding its world value; a component changed
/// only where its owner lies in one of those subtrees; and, for a `compose` that
/// gives one result per pair, nothing changed at all when every node of those
/// subtrees already held its world value.
pub open spec fn pass_result<V, F: Fn(&V, &V) -> V>(
    scene: &RSGScene,
    kind: RSGComponentKind,
    compose: &F,
    roots: Seq<RSGNodeKey>,
    before: Map<Key, RSGInherited<V>>,
    after: Map<Key, RSGInherited<V>>,
) -> bool {
    &&& after.dom() == before.dom()
    &&& forall|u: Key| #[trigger] after.contains_key(u) ==> after[u].local == before[u].local
    &&& all_consistent(scene, kind, compose, roots, after)
    &&& forall|u: Key|
        #[trigger] after.contains_key(u) && after[u] != before[u] ==> exists|x: RSGNodeKey|
            #[trigger] owns(scene, kind, x) && owned(scene, kind, x) == u && covered(
                scene,
                roots,
                roots.len() as int,
                x,
            )
    &&& all_consistent(scene, kind, compose, roots, before) && deterministic(compose) ==> after
        == before
}

/// Every node of the subtrees of `roots` holds its world value in `store`.
pub open spec fn all_consistent<V, F: Fn(&V, &V) -> V>(
    scene: &RSGScene,
    kind: RSGComponentKind,
    compose: &F,
    roots: Seq<RSGNodeKey>,
    store: Map<Key, RSGInherited<V>>,
) -> bool {
    forall|x: RSGNodeKey|
        #[trigger] owns(scene, kind, x) && covered(scene, roots, roots.len() as int, x)
            ==> consistent_at(scene, store, kind, compose, x)
}

/// Recomputes world values below each of `roots`: every node of each subtree, in
/// pre-order, takes its local value composed with the world value of its nearest
/// owning ancestor. Roots may repeat or overlap.
#[verifier::rlimit(60)]
pub fn update_inherited<V: Copy, F: Fn(&V, &V) -> V>(
    scene: &RSGScene,
    store: &mut Arena<RSGInherited<V>>,
    kind: RSGComponentKind,
    roots: &Vec<RSGNodeKey>,
    compose: &F,
)
    requires
        scene.wf(),
        old(store).wf(),
        links_valid(scene, old(store)@, kind),
        links_injective(scene, kind),
        total(compose),
        forall|i: int| 0 <= i < roots@.len() ==> scene.live(#[trigger] roots@[i]),
    ensures
        final(store).wf(),
        pass_result(scene, kind, compose, roots@, old(store)@, final(store)@),
{
    let ghost s0 = store@;
    let ghost rs = roots@;
    let ghost settled = all_consistent(scene, kind, compose, rs, s0);
    let mut r: usize = 0;
    while r < roots.len()
        invariant
            scene.wf(),
            store.wf(),
            total(compose),
            links_injective(scene, kind),
            rs == roots@,
            r <= rs.len(),
            forall|i: int| 0 <= i < rs.len() ==> scene.live(#[trigger] rs[i]),
            store@.dom() == s0.dom(),
            links_valid(scene, s0, kind),
            forall|u: Key| #[trigger] store@.contains_key(u) ==> store@[u].local == s0[u].local,
            forall|x: RSGNodeKey|
                #[trigger] owns(scene, kind, x) && covered(scene, rs, r as int, x)
                    ==> consistent_at(scene, store@, kind, compose, x),
            forall|u: Key|
                #[trigger] store@.contains_key(u) && store@[u] != s0[u] ==> exists|x: RSGNodeKey|
                    #[trigger] owns(scene, kind, x) && owned(scene, kind, x) == u && covered(
                        scene,
                        rs,
                        r as int,
                        x,
                    ),
            settled == all_consistent(scene, kind, compose, rs, s0),
            settled && deterministic(compose) ==> store@ == s0,
        decreases rs.len() - r,
    {
        let root = roots[r];
        let order = scene.traverse(root);
        let ghost lst = order@;
        let mut i: usize = 0;
        while i < order.len()
            invariant
                scene.wf(),
                store.wf(),
                total(compose),
                links_injective(scene, kind),
                rs == roots@,
                r < rs.len(),
                root == rs[r as int],
                lst == order@,
                forall|i: int| 0 <= i < rs.len() ==> scene.live(#[trigger] rs[i]),
                i <= lst.len(),
                lst.len() >= 1,
                lst[0].0 == root,
                forall|j: int| 0 <= j < lst.len() ==> scene.live(#[trigger] lst[j].0),
                forall|j: int| 0 <= j < lst.len() ==> scene.in_subtree(#[trigger] lst[j].0, root),
                forall|x: RSGNodeKey|
                    scene.live(x) && #[trigger] scene.ancestry(x).contains(root) ==> RSGScene::listed(
                        lst,
                        x,
                    ),
                RSGScene::distinct_nodes(lst),
                forall|a: int, b: int|
                    0 <= a < lst.len() && 0 <= b < lst.len() && scene.ancestry(
                        (#[trigger] lst[b]).0,
                    ).contains((#[trigger] lst[a]).0) ==> a < b,
                store@.dom() == s0.dom(),
                links_valid(scene, s0, kind),
                forall|u: Key| #[trigger] store@.contains_key(u) ==> store@[u].local == s0[u].local,
                forall|x: RSGNodeKey|
                    #[trigger] owns(scene, kind, x) && (covered(scene, rs, r as int, x) || exists|q: int|
                        0 <= q < i && (#[trigger] lst[q]).0 == x) && !(exists|q: int|
                        i <= q < lst.len() && (#[trigger] lst[q]).0 == x) ==> consistent_at(
                        scene,
                        store@,
                        kind,
                        compose,
                        x,
                    ),
                forall|u: Key|
                    #[trigger] store@.contains_key(u) && store@[u] != s0[u] ==> exists|x: RSGNodeKey|
                        #[trigger] owns(scene, kind, x) && owned(scene, kind, x) == u && (covered(
                            scene,
                            rs,
                            r as int,
                            x,
                        ) || exists|q: int| 0 <= q < i && (#[trigger] lst[q]).0 == x),
                settled == all_consistent(scene, kind, compose, rs, s0),
                settled && deterministic(compose) ==> store@ == s0,
            decreases lst.len() - i,
        {
            let n = order[i].0;
            let ghost before = store@;
            assert(scene.live(lst[i as int].0));
            resolve_node(scene, store, kind, n, compose);
            proof {
                assert(lst[i as int].0 == n);
                if owns(scene, kind, n) {
                    let t = owned(scene, kind, n);
                    scene.lemma_nearest_owner_is_ancestor(n, kind);
                    scene.lemma_ancestry_order(n, n, n);
                    if scene.nearest_owner(n, kind) is Some {
                        let a = scene.nearest_owner(n, kind)->Some_0;
                        scene.lemma_nearest_owner_step(n, kind);
                        assert(owns(scene, kind, a));
                        assert(a != n);
                        assert(owned(scene, kind, a) != t);
                    }
                    assert(consistent_at(scene, store@, kind, compose, n));
                    assert forall|x: RSGNodeKey|
                        #[trigger] owns(scene, kind, x) && (covered(scene, rs, r as int, x) || exists|q: int|
                            0 <= q < i + 1 && (#[trigger] lst[q]).0 == x) && !(exists|q: int|
                            i + 1 <= q < lst.len() && (#[trigger] lst[q]).0 == x) implies consistent_at(
                            scene,
                            store@,
                            kind,
                            compose,
                            x,
                        ) by {
                        if x != n {
                            assert(!(exists|q: int| i <= q < lst.len() && (#[trigger] lst[q]).0 == x)) by {
                                if exists|q: int| i <= q < lst.len() && (#[trigger] lst[q]).0 == x {
                                    let q = choose|q: int| i <= q < lst.len() && (#[trigger] lst[q]).0 == x;
                                    assert(q != i);
                                }
                            }
                            assert(covered(scene, rs, r as int, x) || exists|q: int|
                                0 <= q < i && (#[trigger] lst[q]).0 == x) by {
                                if !covered(scene, rs, r as int, x) {
                                    let q = choose|q: int| 0 <= q < i + 1 && (#[trigger] lst[q]).0 == x;
                                    assert(q != i);
                                }
                            }
                            assert(consistent_at(scene, before, kind, compose, x));
                            assert(owned(scene, kind, x) != t);
                            scene.lemma_nearest_owner_is_ancestor(x, kind);
                            if scene.nearest_owner(x, kind) is Some {
                                let a = scene.nearest_owner(x, kind)->Some_0;
                                scene.lemma_nearest_owner_step(x, kind);
                                if a == n {
                                    // `n` is an ancestor of `x`, so `x` is in this subtree and
                                    // comes after `n`: it has not been visited yet.
                                    assert(scene.in_subtree(lst[i as int].0, root));
                                    if n != root {
                                        scene.lemma_ancestry_order(root, n, x);
                                    }
                                    assert(scene.ancestry(x).contains(root));
                                    assert(RSGScene::listed(lst, x));
                                    let q = choose|q: int| 0 <= q < lst.len() && (#[trigger] lst[q]).0 == x;
                                    assert(scene.ancestry(lst[q].0).contains(lst[i as int].0));
                                    assert(i < q);
                                    assert(false);
                                }
                                assert(owned(scene, kind, a) != t);
                            }
                        }
                    }
                    assert forall|u: Key|
                        #[trigger] store@.contains_key(u) && store@[u] != s0[u] implies exists|x: RSGNodeKey|
                            #[trigger] owns(scene, kind, x) && owned(scene, kind, x) == u && (covered(
                                scene,
                                rs,
                                r as int,
                                x,
                            ) || exists|q: int| 0 <= q < i + 1 && (#[trigger] lst[q]).0 == x) by {
                        if u == t {
                            assert(lst[i as int].0 == n);
                            assert(owns(scene, kind, n) && owned(scene, kind, n) == u);
                        } else {
                            assert(before.contains_key(u) && before[u] != s0[u]);
                            let x = choose|x: RSGNodeKey|
                                #[trigger] owns(scene, kind, x) && owned(scene, kind, x) == u && (covered(
                                    scene,
                                    rs,
                                    r as int,
                                    x,
                                ) || exists|q: int| 0 <= q < i && (#[trigger] lst[q]).0 == x);
                            if !covered(scene, rs, r as int, x) {
                                let q = choose|q: int| 0 <= q < i && (#[trigger] lst[q]).0 == x;
                                assert(0 <= q < i + 1 && lst[q].0 == x);
                            }
                        }
                    }
                    if settled && deterministic(compose) {
                        assert(before == s0);
                        assert(scene.in_subtree(lst[i as int].0, root));
                        assert(scene.in_subtree(n, rs[r as int]));
                        assert(covered(scene, rs, rs.len() as int, n));
                        assert(owns(scene, kind, n));
                        assert(consistent_at(scene, s0, kind, compose, n));
                        assert(store@ =~= s0);
                    }
                } else {
                    assert forall|x: RSGNodeKey|
                        #[trigger] owns(scene, kind, x) && (covered(scene, rs, r as int, x) || exists|q: int|
                            0 <= q < i + 1 && (#[trigger] lst[q]).0 == x) && !(exists|q: int|
                            i + 1 <= q < lst.len() && (#[trigger] lst[q]).0 == x) implies consistent_at(
                            scene,
                            store@,
                            kind,
                            compose,
                            x,
                        ) by {
                        assert(x != n);
                        if !covered(scene, rs, r as int, x) {
                            let q = choose|q: int| 0 <= q < i + 1 && (#[trigger] lst[q]).0 == x;
                            assert(q != i);
                        }
                        if exists|q: int| i <= q < lst.len() && (#[trigger] lst[q]).0 == x {
                            let q = choose|q: int| i <= q < lst.len() && (#[trigger] lst[q]).0 == x;
                            assert(q != i);
                        }
                    }
                    assert forall|u: Key|
                        #[trigger] store@.contains_key(u) && store@[u] != s0[u] implies exists|x: RSGNodeKey|
                            #[trigger] owns(scene, kind, x) && owned(scene, kind, x) == u && (covered(
                                scene,
                                rs,
                                r as int,
                                x,
                            ) || exists|q: int| 0 <= q < i + 1 && (#[trigger] lst[q]).0 == x) by {
                        let x = choose|x: RSGNodeKey|
                            #[trigger] owns(scene, kind, x) && owned(scene, kind, x) == u && (covered(
                                scene,
                                rs,
                                r as int,
                                x,
                            ) || exists|q: int| 0 <= q < i && (#[trigger] lst[q]).0 == x);
                        if !covered(scene, rs, r as int, x) {
                            let q = choose|q: int| 0 <= q < i && (#[trigger] lst[q]).0 == x;
                            assert(0 <= q < i + 1 && lst[q].0 == x);
                        }
                    }
                }
            }
            i = i + 1;
        }
        proof {
            assert forall|x: RSGNodeKey|
                #[trigger] owns(scene, kind, x) && covered(scene, rs, r + 1, x) implies consistent_at(
                scene,
                store@,
                kind,
                compose,
                x,
            ) by {
                if !covered(scene, rs, r as int, x) {
                    let j = choose|j: int| 0 <= j < r + 1 && scene.in_subtree(x, #[trigger] rs[j]);
                    assert(j == r);
                    if x == root {
                        assert(lst[0].0 == x);
                    } else {
                        assert(RSGScene::listed(lst, x));
                    }
                }
            }
            assert forall|u: Key|
                #[trigger] store@.contains_key(u) && store@[u] != s0[u] implies exists|x: RSGNodeKey|
                    #[trigger] owns(scene, kind, x) && owned(scene, kind, x) == u && covered(
                        scene,
                        rs,
                        r + 1,
                        x,
                    ) by {
                let x = choose|x: RSGNodeKey|
                    #[trigger] owns(scene, kind, x) && owned(scene, kind, x) == u && (covered(
                        scene,
                        rs,
                        r as int,
                        x,
                    ) || exists|q: int| 0 <= q < lst.len() && (#[trigger] lst[q]).0 == x);
                if covered(scene, rs, r as int, x) {
                    let j = choose|j: int| 0 <= j < r && scene.in_subtree(x, #[trigger] rs[j]);
                    assert(0 <= j < r + 1);
                } else {
                    let q = choose|q: int| 0 <= q < lst.len() && (#[trigger] lst[q]).0 == x;
                    assert(scene.in_subtree(x, rs[r as int]));
                }
            }
        }
        r = r + 1;
    }
}

/// Running the pass a second time on the same roots, with nothing changed in
/// between, changes nothing: the first pass leaves every node of the subtrees
/// holding its world value.
pub proof fn lemma_second_pass_changes_nothing<V, F: Fn(&V, &V) -> V>(
    scene: &RSGScene,
    kind: RSGComponentKind,
    compose: &F,
    roots: Seq<RSGNodeKey>,
    s0: Map<Key, RSGInherited<V>>,
    s1: Map<Key, RSGInherited<V>>,
    s2: Map<Key, RSGInherited<V>>,
)
    requires
        pass_result(scene, kind, compose, roots, s0, s1),
        pass_result(scene, kind, compose, roots, s1, s2),
        deterministic(compose),
    ensures
        s2 == s1,
{
}

/// At the root, the world value is the local value.
pub proof fn lemma_root_world_is_local<V, F: Fn(&V, &V) -> V>(
    scene: &RSGScene,
    store: Map<Key, RSGInherited<V>>,
    kind: RSGComponentKind,
    compose: &F,
    w: V,
)
    requires
        scene.wf(),
        scene.root_key() is Some,
        scene.links_of(scene.root_key()->Some_0).key_of(kind) is Some,
    ensures
        world_of(scene, store, kind, compose, scene.root_key()->Some_0, w) <==> w == store[scene.links_of(
            scene.root_key()->Some_0,
        ).key_of(kind)->Some_0].local,
{
    scene.lemma_root_has_no_parent();
    scene.lemma_nearest_owner_step(scene.root_key()->Some_0, kind);
}

/// In a chain `a` → `b` → `c` where `b` owns no component of `kind` and `a` does,
/// the world value of `c` is its local value composed with the world value of `a`:
/// `b` is skipped.
pub proof fn lemma_inherits_past_non_owner<V, F: Fn(&V, &V) -> V>(
    scene: &RSGScene,
    store: Map<Key, RSGInherited<V>>,
    kind: RSGComponentKind,
    compose: &F,
    a: RSGNodeKey,
    b: RSGNodeKey,
    c: RSGNodeKey,
    w: V,
)
    requires
        scene.wf(),
        scene.live(c),
        scene.parent_of(c) == Some(b),
        scene.parent_of(b) == Some(a),
        scene.links_of(a).key_of(kind) is Some,
        scene.links_of(b).key_of(kind) is None,
        scene.links_of(c).key_of(kind) is Some,
    ensures
        world_of(scene, store, kind, compose, c, w) <==> compose.ensures(
            (
                &store[scene.links_of(c).key_of(kind)->Some_0].local,
                &store[scene.links_of(a).key_of(kind)->Some_0].world,
            ),
            w,
        ),
{
    scene.lemma_nearest_owner_step(c, kind);
    scene.lemma_nearest_owner_step(b, kind);
}

/// Component `kind` of node `x` is what `derive` makes of some earlier value of it
/// and of the world value of `x`.
pub open spec fn derived_from<V, C, G: Fn(&V, &C) -> C>(
    scene: &RSGScene,
    store: Map<Key, RSGInherited<V>>,
    store_kind: RSGComponentKind,
    derived: Map<Key, C>,
    kind: RSGComponentKind,
    derive: &G,
    x: RSGNodeKey,
) -> bool {
    exists|p: C|
        #[trigger] derive.ensures(
            (&store[owned(scene, store_kind, x)].world, &p),
            derived[owned(scene, kind, x)],
        )
}

/// Recomputes, below each of `roots`, the state that a node's component of `kind`
/// derives from its world value (a camera's world position and direction from its
/// world transform). Afterwards every node of those subtrees that owns both has its
/// component of `kind` made by `derive` from its world value; no other component of
/// `derived` changes.
pub fn update_derived<V: Copy, C, G: Fn(&V, &C) -> C>(
    scene: &RSGScene,
    store: &Arena<RSGInherited<V>>,
    store_kind: RSGComponentKind,
    derived: &mut Arena<C>,
    kind: RSGComponentKind,
    roots: &Vec<RSGNodeKey>,
    derive: &G,
)
    requires
        scene.wf(),
        store.wf(),
        old(derived).wf(),
        links_valid(scene, store@, store_kind),
        links_injective(scene, kind),
        forall|n: RSGNodeKey| #[trigger]
            scene.live(n) && scene.links_of(n).key_of(kind) is Some ==> old(derived)@.contains_key(
                scene.links_of(n).key_of(kind)->Some_0,
            ),
        forall|v: V, c: C| #[trigger] derive.requires((&v, &c)),
        forall|i: int| 0 <= i < roots@.len() ==> scene.live(#[trigger] roots@[i]),
    ensures
        final(derived).wf(),
        final(derived)@.dom() == old(derived)@.dom(),
        forall|x: RSGNodeKey|
            #[trigger] owns(scene, kind, x) && owns(scene, store_kind, x) && covered(
                scene,
                roots@,
                roots@.len() as int,
                x,
            ) ==> derived_from(scene, store@, store_kind, final(derived)@, kind, derive, x),
        forall|u: Key|
            #[trigger] final(derived)@.contains_key(u) && final(derived)@[u] != old(derived)@[u]
                ==> exists|x: RSGNodeKey|
                #[trigger] owns(scene, kind, x) && owned(scene, kind, x) == u && owns(
                    scene,
                    store_kind,
                    x,
                ) && covered(scene, roots@, roots@.len() as int, x),
{
    let ghost d0 = derived@;
    let ghost rs = roots@;
    let mut r: usize = 0;
    while r < roots.len()
        invariant
            scene.wf(),
            store.wf(),
            derived.wf(),
            links_valid(scene, store@, store_kind),
            links_injective(scene, kind),
            forall|n: RSGNodeKey| #[trigger]
                scene.live(n) && scene.links_of(n).key_of(kind) is Some ==> d0.contains_key(
                    scene.links_of(n).key_of(kind)->Some_0,
                ),
            forall|v: V, c: C| #[trigger] derive.requires((&v, &c)),
            rs == roots@,
            r <= rs.len(),
            forall|i: int| 0 <= i < rs.len() ==> scene.live(#[trigger] rs[i]),
            derived@.dom() == d0.dom(),
            forall|x: RSGNodeKey|
                #[trigger] owns(scene, kind, x) && owns(scene, store_kind, x) && covered(
                    scene,
                    rs,
                    r as int,
                    x,
                ) ==> derived_from(scene, store@, store_kind, derived@, kind, derive, x),
            forall|u: Key|
                #[trigger] derived@.contains_key(u) && derived@[u] != d0[u] ==> exists|x: RSGNodeKey|
                    #[trigger] owns(scene, kind, x) && owned(scene, kind, x) == u && owns(
                        scene,
                        store_kind,
                        x,
                    ) && covered(scene, rs, r as int, x),
        decreases rs.len() - r,
    {
        let root = roots[r];
        let order = scene.traverse(root);
        let ghost lst = order@;
        let mut i: usize = 0;
        while i < order.len()
            invariant
                scene.wf(),
                store.wf(),
                derived.wf(),
                links_valid(scene, store@, store_kind),
                links_injective(scene, kind),
                forall|n: RSGNodeKey| #[trigger]
                    scene.live(n) && scene.links_of(n).key_of(kind) is Some ==> d0.contains_key(
                        scene.links_of(n).key_of(kind)->Some_0,
                    ),
                forall|v: V, c: C| #[trigger] derive.requires((&v, &c)),
                rs == roots@,
                r < rs.len(),
                root == rs[r as int],
                lst == order@,
                i <= lst.len(),
                lst.len() >= 1,
                lst[0].0 == root,
                forall|j: int| 0 <= j < lst.len() ==> scene.live(#[trigger] lst[j].0),
                forall|j: int| 0 <= j < lst.len() ==> scene.in_subtree(#[trigger] lst[j].0, root),
                forall|x: RSGNodeKey|
                    scene.live(x) && #[trigger] scene.ancestry(x).contains(root) ==> RSGScene::listed(
                        lst,
                        x,
                    ),
                derived@.dom() == d0.dom(),
                forall|x: RSGNodeKey|
                    #[trigger] owns(scene, kind, x) && owns(scene, store_kind, x) && (covered(
                        scene,
                        rs,
                        r as int,
                        x,
                    ) || exists|q: int| 0 <= q < i && (#[trigger] lst[q]).0 == x) ==> derived_from(
                        scene,
                        store@,
                        store_kind,
                        derived@,
                        kind,
                        derive,
                        x,
                    ),
                forall|u: Key|
                    #[trigger] derived@.contains_key(u) && derived@[u] != d0[u] ==> exists|x: RSGNodeKey|
                        #[trigger] owns(scene, kind, x) && owned(scene, kind, x) == u && owns(
                            scene,
                            store_kind,
                            x,
                        ) && (covered(scene, rs, r as int, x) || exists|q: int|
                            0 <= q < i && (#[trigger] lst[q]).0 == x),
            decreases lst.len() - i,
        {
            let n = order[i].0;
            assert(scene.live(lst[i as int].0));
            let links = scene.get_component_links(n);
            let ghost before = derived@;
            match (links.key(store_kind), links.key(kind)) {
                (Some(t), Some(c)) => {
                    let ghost prev = derived@[c];
                    let value = derive(&store.get(t).world, derived.get(c));
                    derived.replace(c, value);
                    proof {
                        assert(derived@.dom() =~= before.dom());
                        assert(lst[i as int].0 == n);
                        assert(derive.ensures((&store@[owned(scene, store_kind, n)].world, &prev), derived@[c]));
                        assert forall|x: RSGNodeKey|
                            #[trigger] owns(scene, kind, x) && owns(scene, store_kind, x) && (covered(
                                scene,
                                rs,
                                r as int,
                                x,
                            ) || exists|q: int| 0 <= q < i + 1 && (#[trigger] lst[q]).0 == x)
                                implies derived_from(scene, store@, store_kind, derived@, kind, derive, x) by {
                            if x != n {
                                assert(owned(scene, kind, x) != c);
                                if !covered(scene, rs, r as int, x) {
                                    let q = choose|q: int| 0 <= q < i + 1 && (#[trigger] lst[q]).0 == x;
                                    assert(q != i);
                                    assert(0 <= q < i);
                                }
                                assert(derived_from(scene, store@, store_kind, before, kind, derive, x));
                                let p = choose|p: C| #[trigger] derive.ensures(
                                    (&store@[owned(scene, store_kind, x)].world, &p),
                                    before[owned(scene, kind, x)],
                                );
                                assert(derived@[owned(scene, kind, x)] == before[owned(scene, kind, x)]);
                            }
                        }
                        assert forall|u: Key|
                            #[trigger] derived@.contains_key(u) && derived@[u] != d0[u] implies exists|x: RSGNodeKey|
                                #[trigger] owns(scene, kind, x) && owned(scene, kind, x) == u && owns(
                                    scene,
                                    store_kind,
                                    x,
                                ) && (covered(scene, rs, r as int, x) || exists|q: int|
                                    0 <= q < i + 1 && (#[trigger] lst[q]).0 == x) by {
                            if u == c {
                                assert(owns(scene, kind, n) && owned(scene, kind, n) == u);
                            } else {
                                assert(before.contains_key(u) && before[u] != d0[u]);
                                let x = choose|x: RSGNodeKey|
                                    #[trigger] owns(scene, kind, x) && owned(scene, kind, x) == u && owns(
                                        scene,
                                        store_kind,
                                        x,
                                    ) && (covered(scene, rs, r as int, x) || exists|q: int|
                                        0 <= q < i && (#[trigger] lst[q]).0 == x);
                                if !covered(scene, rs, r as int, x) {
                                    let q = choose|q: int| 0 <= q < i && (#[trigger] lst[q]).0 == x;
                                    assert(0 <= q < i + 1 && lst[q].0 == x);
                                }
                            }
                        }
                    }
                },
                _ => {
                    proof {
                        assert forall|x: RSGNodeKey|
                            #[trigger] owns(scene, kind, x) && owns(scene, store_kind, x) && (covered(
                                scene,
                                rs,
                                r as int,
                                x,
                            ) || exists|q: int| 0 <= q < i + 1 && (#[trigger] lst[q]).0 == x)
                                implies derived_from(scene, store@, store_kind, derived@, kind, derive, x) by {
                            assert(lst[i as int].0 == n);
                            if !covered(scene, rs, r as int, x) {
                                let q = choose|q: int| 0 <= q < i + 1 && (#[trigger] lst[q]).0 == x;
                                assert(q != i);
                            }
                        }
                        assert forall|u: Key|
                            #[trigger] derived@.contains_key(u) && derived@[u] != d0[u] implies exists|x: RSGNodeKey|
                                #[trigger] owns(scene, kind, x) && owned(scene, kind, x) == u && owns(
                                    scene,
                                    store_kind,
                                    x,
                                ) && (covered(scene, rs, r as int, x) || exists|q: int|
                                    0 <= q < i + 1 && (#[trigger] lst[q]).0 == x) by {
                            let x = choose|x: RSGNodeKey|
                                #[trigger] owns(scene, kind, x) && owned(scene, kind, x) == u && owns(
                                    scene,
                                    store_kind,
                                    x,
                                ) && (covered(scene, rs, r as int, x) || exists|q: int|
                                    0 <= q < i && (#[trigger] lst[q]).0 == x);
                            if !covered(scene, rs, r as int, x) {
                                let q = choose|q: int| 0 <= q < i && (#[trigger] lst[q]).0 == x;
                                assert(0 <= q < i + 1 && lst[q].0 == x);
                            }
                        }
                    }
                },
            }
            i = i + 1;
        }
        proof {
            assert forall|x: RSGNodeKey|
                #[trigger] owns(scene, kind, x) && owns(scene, store_kind, x) && covered(
                    scene,
                    rs,
                    r + 1,
                    x,
                ) implies derived_from(scene, store@, store_kind, derived@, kind, derive, x) by {
                if !covered(scene, rs, r as int, x) {
                    let j = choose|j: int| 0 <= j < r + 1 && scene.in_subtree(x, #[trigger] rs[j]);
                    assert(j == r);
                    if x == root {
                        assert(lst[0].0 == x);
                    } else {
                        assert(RSGScene::listed(lst, x));
                    }
                }
            }
            assert forall|u: Key|
                #[trigger] derived@.contains_key(u) && derived@[u] != d0[u] implies exists|x: RSGNodeKey|
                    #[trigger] owns(scene, kind, x) && owned(scene, kind, x) == u && owns(
                        scene,
                        store_kind,
                        x,
                    ) && covered(scene, rs, r + 1, x) by {
                let x = choose|x: RSGNodeKey|
                    #[trigger] owns(scene, kind, x) && owned(scene, kind, x) == u && owns(
                        scene,
                        store_kind,
                        x,
                    ) && (covered(scene, rs, r as int, x) || exists|q: int|
                        0 <= q < lst.len() && (#[trigger] lst[q]).0 == x);
                if covered(scene, rs, r as int, x) {
                    let j = choose|j: int| 0 <= j < r && scene.in_subtree(x, #[trigger] rs[j]);
                    assert(0 <= j < r + 1);
                } else {
                    let q = choose|q: int| 0 <= q < lst.len() && (#[trigger] lst[q]).0 == x;
                    assert(scene.in_subtree(x, rs[r as int]));
                }
            }
        }
        r = r + 1;
    }
}

} // verus!
