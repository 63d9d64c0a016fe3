use vstd::prelude::*;
use crate::arena::Arena;
use crate::links::{RSGComponentKind, RSGNodeKey};
use crate::scene::RSGScene;
use crate::viewport::RSGViewportComponent;

verus! {

/// Why a scene cannot be prepared for rendering.
#[derive(Clone, Copy, PartialEq, Eq, Structural, Debug)]
pub enum RSGSceneError {
    /// The given viewport node lies in the subtree of another viewport node.
    NestedViewport(RSGNodeKey),
}

/// The nodes to draw, grouped by viewport: `viewports` lists each viewport node with
/// the number of its candidates, and `nodes` holds the candidates of the first
/// viewport, then those of the second, and so on.
pub struct RSGRenderCandidates {
    pub nodes: Vec<RSGNodeKey>,
    pub viewports: Vec<(RSGNodeKey, usize)>,
}

/// The number of candidates of the first `j` viewports.
pub open spec fn count_before(vps: Seq<(RSGNodeKey, usize)>, j: int) -> int
    decreases j,
{
    if j <= 0 {
        0
    } else {
        count_before(vps, j - 1) + vps[j - 1].1
    }
}

/// Whether node `n` owns a mesh and a transform.
pub open spec fn renderable(scene: &RSGScene, n: RSGNodeKey) -> bool {
    &&& scene.links_of(n).key_of(RSGComponentKind::Mesh) is Some
    &&& scene.links_of(n).key_of(RSGComponentKind::Transform) is Some
}

/// Whether node `n` owns a viewport.
pub open spec fn is_viewport(scene: &RSGScene, n: RSGNodeKey) -> bool {
    scene.links_of(n).key_of(RSGComponentKind::Viewport) is Some
}

impl RSGRenderCandidates {
    /// Every candidate is a renderable node below its viewport, every viewport node
    /// of the tree is listed, and the counts add up to the number of candidates.
    pub open spec fn describes(&self, scene: &RSGScene) -> bool {
        let vps = self.viewports@;
        let nodes = self.nodes@;
        &&& count_before(vps, vps.len() as int) == nodes.len()
        &&& forall|i: int|
            0 <= i < nodes.len() ==> scene.live(#[trigger] nodes[i]) && renderable(scene, nodes[i])
        &&& forall|j: int|
            0 <= j < vps.len() ==> scene.live(#[trigger] vps[j].0) && is_viewport(scene, vps[j].0)
        &&& forall|n: RSGNodeKey|
            scene.live(n) && #[trigger] is_viewport(scene, n) ==> exists|j: int|
                0 <= j < vps.len() && #[trigger] vps[j].0 == n
        &&& forall|j: int, i: int|
            0 <= j < vps.len() && count_before(vps, j) <= i < count_before(vps, j + 1)
                ==> scene.in_subtree(#[trigger] nodes[i], #[trigger] vps[j].0)
        &&& forall|j: int, x: RSGNodeKey|
            #![trigger scene.in_subtree(x, vps[j].0)]
            0 <= j < vps.len() && scene.live(x) && renderable(scene, x) && scene.in_subtree(
                x,
                vps[j].0,
            ) ==> exists|i: int|
                count_before(vps, j) <= i < count_before(vps, j + 1) && #[trigger] nodes[i] == x
    }
}

/// No viewport node lies below another one.
pub open spec fn viewports_apart(scene: &RSGScene) -> bool {
    forall|v: RSGNodeKey, x: RSGNodeKey|
        #![trigger scene.in_subtree(x, v)]
        scene.live(v) && is_viewport(scene, v) && scene.live(x) && is_viewport(scene, x) && x != v
            ==> !scene.in_subtree(x, v)
}

proof fn lemma_count_before_monotone(vps: Seq<(RSGNodeKey, usize)>, a: int, b: int)
    requires
        0 <= a <= b,
    ensures
        count_before(vps, a) <= count_before(vps, b),
    decreases b - a,
{
    if a < b {
        lemma_count_before_monotone(vps, a, b - 1);
    }
}

proof fn lemma_count_before_prefix(a: Seq<(RSGNodeKey, usize)>, b: Seq<(RSGNodeKey, usize)>, j: int)
    requires
        0 <= j <= a.len(),
        a.len() <= b.len(),
        forall|q: int| 0 <= q < a.len() ==> a[q] == b[q],
    ensures
        count_before(a, j) == count_before(b, j),
    decreases j,
{
    if j > 0 {
        lemma_count_before_prefix(a, b, j - 1);
    }
}

/// Scans the whole tree for viewport nodes and collects, for each, the renderable
/// nodes of its subtree in pre-order. Fails on a viewport node inside the subtree of
/// another one.
pub fn collect_render_candidates(scene: &RSGScene) -> (r: Result<RSGRenderCandidates, RSGSceneError>)
    requires
        scene.wf(),
    ensures
        r matches Ok(c) ==> c.describes(scene) && viewports_apart(scene),
        r matches Err(RSGSceneError::NestedViewport(n)) ==> {
            &&& scene.live(n)
            &&& is_viewport(scene, n)
            &&& exists|v: RSGNodeKey|
                #![trigger is_viewport(scene, v)]
                v != n && scene.live(v) && is_viewport(scene, v) && scene.in_subtree(n, v)
        },
{
    let keys = scene.node_keys();
    let mut nodes: Vec<RSGNodeKey> = Vec::new();
    let mut vps: Vec<(RSGNodeKey, usize)> = Vec::new();
    let mut k: usize = 0;
    while k < keys.len()
        invariant
            scene.wf(),
            forall|i: int| 0 <= i < keys@.len() ==> scene.live(#[trigger] keys@[i]),
            forall|n: RSGNodeKey| #[trigger] scene.live(n) ==> keys@.contains(n),
            k <= keys@.len(),
            count_before(vps@, vps@.len() as int) == nodes@.len(),
            forall|i: int|
                0 <= i < nodes@.len() ==> scene.live(#[trigger] nodes@[i]) && renderable(
                    scene,
                    nodes@[i],
                ),
            forall|j: int|
                0 <= j < vps@.len() ==> scene.live(#[trigger] vps@[j].0) && is_viewport(
                    scene,
                    vps@[j].0,
                ),
            forall|i: int|
                0 <= i < k && is_viewport(scene, #[trigger] keys@[i]) ==> exists|j: int|
                    0 <= j < vps@.len() && #[trigger] vps@[j].0 == keys@[i],
            forall|j: int, i: int|
                0 <= j < vps@.len() && count_before(vps@, j) <= i < count_before(vps@, j + 1)
                    ==> scene.in_subtree(#[trigger] nodes@[i], #[trigger] vps@[j].0),
            forall|j: int, x: RSGNodeKey|
                #![trigger scene.in_subtree(x, vps@[j].0)]
                0 <= j < vps@.len() && scene.live(x) && renderable(scene, x) && scene.in_subtree(
                    x,
                    vps@[j].0,
                ) ==> exists|i: int|
                    count_before(vps@, j) <= i < count_before(vps@, j + 1) && #[trigger] nodes@[i] == x,
            forall|j: int, x: RSGNodeKey|
                #![trigger scene.in_subtree(x, vps@[j].0)]
                0 <= j < vps@.len() && scene.live(x) && is_viewport(scene, x) && x != vps@[j].0
                    ==> !scene.in_subtree(x, vps@[j].0),
        decreases keys@.len() - k,
    {
        let v = keys[k];
        assert(scene.live(keys@[k as int]));
        if scene.get_component_links(v).viewport_key.is_some() {
            let order = scene.traverse(v);
            let ghost n0 = nodes@;
            let ghost vs = vps@;
            let mut count: usize = 0;
            let mut i: usize = 0;
            while i < order.len()
                invariant
                    scene.wf(),
                    scene.live(v),
                    is_viewport(scene, v),
                    vps@ == vs,
                    count_before(vs, vs.len() as int) == n0.len(),
                    forall|q: int| 0 <= q < order@.len() ==> scene.live(#[trigger] order@[q].0),
                    forall|q: int| 0 <= q < order@.len() ==> scene.in_subtree(#[trigger] order@[q].0, v),
                    i <= order@.len(),
                    count <= i,
                    nodes@.len() == n0.len() + count,
                    nodes@.subrange(0, n0.len() as int) == n0,
                    forall|q: int|
                        0 <= q < nodes@.len() ==> scene.live(#[trigger] nodes@[q]) && renderable(
                            scene,
                            nodes@[q],
                        ),
                    forall|q: int|
                        n0.len() <= q < nodes@.len() ==> scene.in_subtree(#[trigger] nodes@[q], v),
                    order@.len() >= 1,
                    order@[0].0 == v,
                    forall|x: RSGNodeKey|
                        scene.live(x) && #[trigger] scene.ancestry(x).contains(v) ==> RSGScene::listed(
                            order@,
                            x,
                        ),
                    forall|q: int|
                        0 <= q < i && renderable(scene, #[trigger] order@[q].0) ==> exists|p: int|
                            n0.len() <= p < nodes@.len() && #[trigger] nodes@[p] == order@[q].0,
                    forall|q: int|
                        0 <= q < i ==> #[trigger] order@[q].0 == v || !is_viewport(scene, order@[q].0),
                decreases order@.len() - i,
            {
                let c = order[i].0;
                assert(scene.live(order@[i as int].0));
                assert(scene.in_subtree(order@[i as int].0, v));
                let cl = scene.get_component_links(c);
                if cl.viewport_key.is_some() && c != v {
                    assert(is_viewport(scene, v));
                    return Err(RSGSceneError::NestedViewport(c));
                }
                let ghost before = nodes@;
                if cl.mesh_key.is_some() && cl.transform_key.is_some() {
                    nodes.push(c);
                    count = count + 1;
                    assert(nodes@.subrange(0, n0.len() as int) =~= before.subrange(0, n0.len() as int));
                }
                proof {
                    assert forall|q: int|
                        0 <= q < i + 1 && renderable(scene, #[trigger] order@[q].0) implies exists|p: int|
                            n0.len() <= p < nodes@.len() && #[trigger] nodes@[p] == order@[q].0 by {
                        if q < i {
                            let p = choose|p: int| n0.len() <= p < before.len() && #[trigger] before[p] == order@[q].0;
                            assert(nodes@[p] == before[p]);
                        } else {
                            assert(nodes@[nodes@.len() - 1] == c);
                        }
                    }
                }
                i = i + 1;
            }
            let ghost v0 = vps@;
            vps.push((v, count));
            proof {
                assert(v0 =~= vps@.drop_last());
                assert forall|j: int| 0 <= j <= v0.len() implies count_before(vps@, j) == count_before(
                    v0,
                    j,
                ) by {
                    lemma_count_before_prefix(v0, vps@, j);
                }
                assert forall|j: int, i: int|
                    0 <= j < vps@.len() && count_before(vps@, j) <= i < count_before(vps@, j + 1)
                        implies scene.in_subtree(#[trigger] nodes@[i], #[trigger] vps@[j].0) by {
                    if j < v0.len() {
                        lemma_count_before_monotone(v0, j + 1, v0.len() as int);
                        lemma_count_before_monotone(v0, 0, j);
                        assert(count_before(vps@, j) == count_before(v0, j));
                        assert(count_before(vps@, j + 1) == count_before(v0, j + 1));
                        assert(nodes@.subrange(0, n0.len() as int)[i] == nodes@[i]);
                        assert(nodes@[i] == n0[i]);
                        assert(vps@[j] == v0[j]);
                    }
                }
                assert forall|j: int, x: RSGNodeKey|
                    #![trigger scene.in_subtree(x, vps@[j].0)]
                    0 <= j < vps@.len() && scene.live(x) && renderable(scene, x) && scene.in_subtree(
                        x,
                        vps@[j].0,
                    ) implies exists|i: int|
                        count_before(vps@, j) <= i < count_before(vps@, j + 1) && #[trigger] nodes@[i] == x by {
                    if j < v0.len() {
                        assert(vps@[j] == v0[j]);
                        let p = choose|i: int|
                            count_before(v0, j) <= i < count_before(v0, j + 1) && #[trigger] n0[i] == x;
                        lemma_count_before_monotone(v0, j + 1, v0.len() as int);
                        lemma_count_before_monotone(v0, 0, j);
                        assert(nodes@.subrange(0, n0.len() as int)[p] == nodes@[p]);
                    } else {
                        assert(vps@[j].0 == v);
                        let q = if x == v {
                            0int
                        } else {
                            choose|q: int| 0 <= q < order@.len() && (#[trigger] order@[q]).0 == x
                        };
                        assert(order@[q].0 == x);
                        assert(renderable(scene, order@[q].0));
                        let p = choose|p: int| n0.len() <= p < nodes@.len() && #[trigger] nodes@[p] == order@[q].0;
                        assert(count_before(vps@, j) == n0.len());
                    }
                }
                assert forall|j: int, x: RSGNodeKey|
                    #![trigger scene.in_subtree(x, vps@[j].0)]
                    0 <= j < vps@.len() && scene.live(x) && is_viewport(scene, x) && x != vps@[j].0
                        implies !scene.in_subtree(x, vps@[j].0) by {
                    if j < v0.len() {
                        assert(vps@[j] == v0[j]);
                    } else {
                        assert(vps@[j].0 == v);
                        if scene.in_subtree(x, v) {
                            let q = choose|q: int| 0 <= q < order@.len() && (#[trigger] order@[q]).0 == x;
                            assert(order@[q].0 == v || !is_viewport(scene, order@[q].0));
                        }
                    }
                }
                assert forall|q: int|
                    0 <= q < k + 1 && is_viewport(scene, #[trigger] keys@[q]) implies exists|j: int|
                        0 <= j < vps@.len() && #[trigger] vps@[j].0 == keys@[q] by {
                    if q < k {
                        let j = choose|j: int| 0 <= j < v0.len() && #[trigger] v0[j].0 == keys@[q];
                        assert(vps@[j] == v0[j]);
                    } else {
                        assert(vps@[v0.len() as int].0 == keys@[q]);
                    }
                }
            }
        }
        k = k + 1;
    }
    proof {
        assert forall|n: RSGNodeKey| scene.live(n) && #[trigger] is_viewport(scene, n) implies exists|j: int|
            0 <= j < vps@.len() && #[trigger] vps@[j].0 == n by {
            let q = choose|q: int| 0 <= q < keys@.len() && keys@[q] == n;
            assert(is_viewport(scene, keys@[q]));
        }
    }
    let r = RSGRenderCandidates { nodes, viewports: vps };
    assert(r.describes(scene));
    assert forall|v: RSGNodeKey, x: RSGNodeKey|
        #![trigger scene.in_subtree(x, v)]
        scene.live(v) && is_viewport(scene, v) && scene.live(x) && is_viewport(scene, x) && x != v
            implies !scene.in_subtree(x, v) by {
        let j = choose|j: int| 0 <= j < vps@.len() && #[trigger] vps@[j].0 == v;
        assert(scene.in_subtree(x, vps@[j].0) == scene.in_subtree(x, v));
    }
    Ok(r)
}

/// A node to draw and its signed distance along the camera's view axis, as an
/// integer that orders like the distance.
#[derive(Clone, Copy, PartialEq, Eq, Structural, Debug)]
pub struct RSGRenderItem {
    pub node: RSGNodeKey,
    pub distance: i64,
}

/// Distances never decrease along `s`.
pub open spec fn front_to_back(s: Seq<RSGRenderItem>) -> bool {
    forall|a: int, b: int| 0 <= a < b < s.len() ==> #[trigger] s[a].distance <= #[trigger] s[b].distance
}

/// Distances never increase along `s`.
pub open spec fn back_to_front(s: Seq<RSGRenderItem>) -> bool {
    forall|a: int, b: int| 0 <= a < b < s.len() ==> #[trigger] s[a].distance >= #[trigger] s[b].distance
}

/// The two lists handed to a renderer: opaque nodes nearest first, transparent
/// nodes farthest first.
pub struct RSGRenderLists {
    pub opaque: Vec<RSGRenderItem>,
    pub alpha: Vec<RSGRenderItem>,
}

impl RSGRenderLists {
    /// Both lists are in their drawing order.
    pub open spec fn wf(&self) -> bool {
        front_to_back(self.opaque@) && back_to_front(self.alpha@)
    }

    /// Two empty lists.
    pub fn new() -> (r: Self)
        ensures
            r.wf(),
            r.opaque@.len() == 0,
            r.alpha@.len() == 0,
    {
        RSGRenderLists { opaque: Vec::new(), alpha: Vec::new() }
    }

    /// Empties both lists.
    pub fn clear(&mut self)
        ensures
            final(self).wf(),
            final(self).opaque@.len() == 0,
            final(self).alpha@.len() == 0,
    {
        self.opaque.clear();
        self.alpha.clear();
    }

    /// Adds `item` to the opaque list or to the alpha list, at the place that keeps
    /// that list in order: after the items it does not come before. Returns that place.
    pub fn insert(&mut self, item: RSGRenderItem, opaque: bool) -> (pos: usize)
        requires
            old(self).wf(),
        ensures
            final(self).wf(),
            opaque ==> pos <= old(self).opaque@.len() && final(self).opaque@ == old(
                self,
            ).opaque@.insert(pos as int, item) && final(self).alpha@ == old(self).alpha@,
            !opaque ==> pos <= old(self).alpha@.len() && final(self).alpha@ == old(
                self,
            ).alpha@.insert(pos as int, item) && final(self).opaque@ == old(self).opaque@,
    {
        if opaque {
            let pos = insert_front_to_back(&mut self.opaque, item);
            pos
        } else {
            let pos = insert_back_to_front(&mut self.alpha, item);
            pos
        }
    }
}

/// Inserts `item` into a list ordered nearest first, after every item that is not
/// farther, and returns where.
pub fn insert_front_to_back(list: &mut Vec<RSGRenderItem>, item: RSGRenderItem) -> (pos: usize)
    requires
        front_to_back(old(list)@),
    ensures
        front_to_back(final(list)@),
        pos <= old(list)@.len(),
        final(list)@ == old(list)@.insert(pos as int, item),
        forall|i: int| 0 <= i < pos ==> #[trigger] old(list)@[i].distance <= item.distance,
        forall|i: int|
            pos <= i < old(list)@.len() ==> #[trigger] old(list)@[i].distance > item.distance,
{
    let mut lo: usize = 0;
    let mut hi: usize = list.len();
    while lo < hi
        invariant
            lo <= hi <= list@.len(),
            front_to_back(list@),
            forall|i: int| 0 <= i < lo ==> #[trigger] list@[i].distance <= item.distance,
            forall|i: int| hi <= i < list@.len() ==> #[trigger] list@[i].distance > item.distance,
        decreases hi - lo,
    {
        let mid = lo + (hi - lo) / 2;
        if list[mid].distance <= item.distance {
            lo = mid + 1;
        } else {
            hi = mid;
        }
    }
    let ghost l0 = list@;
    list.insert(lo, item);
    proof {
        assert forall|a: int, b: int| 0 <= a < b < list@.len() implies #[trigger] list@[a].distance
            <= #[trigger] list@[b].distance by {
            let ia = if a < lo { a } else if a == lo { -1 } else { a - 1 };
            let ib = if b < lo { b } else if b == lo { -1 } else { b - 1 };
            if ia >= 0 && ib >= 0 {
                assert(l0[ia].distance <= l0[ib].distance);
            } else if ia < 0 {
                assert(l0[ib].distance > item.distance);
            } else {
                assert(l0[ia].distance <= item.distance);
            }
        }
    }
    lo
}

/// Inserts `item` into a list ordered farthest first, after every item that is not
/// nearer, and returns where.
pub fn insert_back_to_front(list: &mut Vec<RSGRenderItem>, item: RSGRenderItem) -> (pos: usize)
    requires
        back_to_front(old(list)@),
    ensures
        back_to_front(final(list)@),
        pos <= old(list)@.len(),
        final(list)@ == old(list)@.insert(pos as int, item),
        forall|i: int| 0 <= i < pos ==> #[trigger] old(list)@[i].distance >= item.distance,
        forall|i: int|
            pos <= i < old(list)@.len() ==> #[trigger] old(list)@[i].distance < item.distance,
{
    let mut lo: usize = 0;
    let mut hi: usize = list.len();
    while lo < hi
        invariant
            lo <= hi <= list@.len(),
            back_to_front(list@),
            forall|i: int| 0 <= i < lo ==> #[trigger] list@[i].distance >= item.distance,
            forall|i: int| hi <= i < list@.len() ==> #[trigger] list@[i].distance < item.distance,
        decreases hi - lo,
    {
        let mid = lo + (hi - lo) / 2;
        if list[mid].distance >= item.distance {
            lo = mid + 1;
        } else {
            hi = mid;
        }
    }
    let ghost l0 = list@;
    list.insert(lo, item);
    proof {
        assert forall|a: int, b: int| 0 <= a < b < list@.len() implies #[trigger] list@[a].distance
            >= #[trigger] list@[b].distance by {
            let ia = if a < lo { a } else if a == lo { -1 } else { a - 1 };
            let ib = if b < lo { b } else if b == lo { -1 } else { b - 1 };
            if ia >= 0 && ib >= 0 {
                assert(l0[ia].distance >= l0[ib].distance);
            } else if ia < 0 {
                assert(l0[ib].distance < item.distance);
            } else {
                assert(l0[ia].distance >= item.distance);
            }
        }
    }
    lo
}

/// Adjacent items of a nearest-first list are in order, and those of a farthest-first
/// list too.
pub proof fn lemma_adjacent_order(lists: &RSGRenderLists, i: int, j: int)
    requires
        lists.wf(),
        0 <= i < lists.opaque@.len() - 1,
        0 <= j < lists.alpha@.len() - 1,
    ensures
        lists.opaque@[i].distance <= lists.opaque@[i + 1].distance,
        lists.alpha@[j].distance >= lists.alpha@[j + 1].distance,
{
}

/// Where one candidate is drawn: its viewport node and that viewport's camera node,
/// or neither when the viewport has no camera.
#[derive(Clone, Copy, PartialEq, Eq, Structural, Debug)]
pub struct RSGAssignment {
    pub node: RSGNodeKey,
    pub viewport_node_key: Option<RSGNodeKey>,
    pub camera_node_key: Option<RSGNodeKey>,
}

fn push_assignments(
    r: &mut Vec<RSGAssignment>,
    nodes: &Vec<RSGNodeKey>,
    count: usize,
    viewport_node_key: Option<RSGNodeKey>,
    camera_node_key: Option<RSGNodeKey>,
)
    requires
        old(r)@.len() + count <= nodes@.len(),
    ensures
        final(r)@.len() == old(r)@.len() + count,
        forall|q: int| 0 <= q < old(r)@.len() ==> #[trigger] final(r)@[q] == old(r)@[q],
        forall|q: int|
            old(r)@.len() <= q < final(r)@.len() ==> (#[trigger] final(r)@[q]).node == nodes@[q]
                && final(r)@[q].viewport_node_key == viewport_node_key
                && final(r)@[q].camera_node_key == camera_node_key,
{
    let start = r.len();
    let total = nodes.len();
    let mut i: usize = 0;
    while i < count
        invariant
            total == nodes@.len(),
            start == old(r)@.len(),
            start + count <= nodes@.len(),
            i <= count,
            r@.len() == start + i,
            forall|q: int| 0 <= q < start ==> #[trigger] r@[q] == old(r)@[q],
            forall|q: int|
                start <= q < start + i ==> (#[trigger] r@[q]).node == nodes@[q]
                    && r@[q].viewport_node_key == viewport_node_key && r@[q].camera_node_key
                    == camera_node_key,
        decreases count - i,
    {
        r.push(RSGAssignment { node: nodes[start + i], viewport_node_key, camera_node_key });
        i = i + 1;
    }
}

/// The viewport component of viewport node `v`.
pub open spec fn viewport_of(
    scene: &RSGScene,
    viewports: &Arena<RSGViewportComponent>,
    v: RSGNodeKey,
) -> RSGViewportComponent {
    viewports@[scene.links_of(v).key_of(RSGComponentKind::Viewport)->Some_0]
}

/// Assigns each candidate to its viewport and that viewport's camera; candidates of
/// a viewport without a camera get neither, and are not to be drawn.
#[verifier::rlimit(40)]
pub fn assign_viewports(
    scene: &RSGScene,
    viewports: &Arena<RSGViewportComponent>,
    candidates: &RSGRenderCandidates,
) -> (r: Vec<RSGAssignment>)
    requires
        scene.wf(),
        viewports.wf(),
        candidates.describes(scene),
        forall|n: RSGNodeKey| #[trigger]
            scene.live(n) && is_viewport(scene, n) ==> viewports@.contains_key(
                scene.links_of(n).key_of(RSGComponentKind::Viewport)->Some_0,
            ),
    ensures
        r@.len() == candidates.nodes@.len(),
        forall|j: int, i: int|
            #![trigger r@[i], candidates.viewports@[j]]
            0 <= j < candidates.viewports@.len() && count_before(candidates.viewports@, j) <= i
                < count_before(candidates.viewports@, j + 1) ==> {
                let v = candidates.viewports@[j].0;
                let cam = viewport_of(scene, viewports, v).camera_node_key;
                &&& r@[i].node == candidates.nodes@[i]
                &&& r@[i].viewport_node_key == if cam is Some {
                    Some(v)
                } else {
                    None
                }
                &&& r@[i].camera_node_key == cam
            },
{
    let vps = &candidates.viewports;
    let nodes = &candidates.nodes;
    let mut r: Vec<RSGAssignment> = Vec::new();
    let mut j: usize = 0;
    while j < vps.len()
        invariant
            scene.wf(),
            viewports.wf(),
            vps@ == candidates.viewports@,
            nodes@ == candidates.nodes@,
            count_before(vps@, vps@.len() as int) == nodes@.len(),
            forall|jj: int|
                0 <= jj < vps@.len() ==> scene.live(#[trigger] vps@[jj].0) && is_viewport(
                    scene,
                    vps@[jj].0,
                ),
            forall|n: RSGNodeKey| #[trigger]
                scene.live(n) && is_viewport(scene, n) ==> viewports@.contains_key(
                    scene.links_of(n).key_of(RSGComponentKind::Viewport)->Some_0,
                ),
            j <= vps@.len(),
            r@.len() == count_before(vps@, j as int),
            forall|jj: int, i: int|
                #![trigger r@[i], vps@[jj]]
                0 <= jj < j && count_before(vps@, jj) <= i < count_before(vps@, jj + 1) ==> {
                    let v = vps@[jj].0;
                    let cam = viewport_of(scene, viewports, v).camera_node_key;
                    &&& r@[i].node == nodes@[i]
                    &&& r@[i].viewport_node_key == if cam is Some {
                        Some(v)
                    } else {
                        None
                    }
                    &&& r@[i].camera_node_key == cam
                },
        decreases vps@.len() - j,
    {
        let (v, count) = vps[j];
        assert(scene.live(vps@[j as int].0));
        let vk = scene.get_component_links(v).viewport_key.unwrap();
        let cam = viewports.get(vk).camera_node_key;
        let viewport_node_key = if cam.is_some() {
            Some(v)
        } else {
            None
        };
        let start = r.len();
        let ghost r0 = r@;
        proof {
            lemma_count_before_monotone(vps@, j + 1, vps@.len() as int);
            assert(count_before(vps@, j + 1) == start + count);
        }
        push_assignments(&mut r, nodes, count, viewport_node_key, cam);
        proof {
            assert forall|jj: int, q: int|
                #![trigger r@[q], vps@[jj]]
                0 <= jj < j + 1 && count_before(vps@, jj) <= q < count_before(vps@, jj + 1) implies {
                let v = vps@[jj].0;
                let cam = viewport_of(scene, viewports, v).camera_node_key;
                &&& r@[q].node == nodes@[q]
                &&& r@[q].viewport_node_key == if cam is Some {
                    Some(v)
                } else {
                    None
                }
                &&& r@[q].camera_node_key == cam
            } by {
                lemma_count_before_monotone(vps@, 0, jj);
                if jj < j {
                    lemma_count_before_monotone(vps@, jj + 1, j as int);
                    assert(q < start);
                    assert(r@[q] == r0[q]);
                } else {
                    assert(vps@[jj] == (v, count));
                }
            }
        }
        j = j + 1;
    }
    r
}

/// The render item of assignment `i` at distance `measures[i].0`.
pub open spec fn item_of(a: Seq<RSGAssignment>, measures: Seq<(i64, bool)>, i: int) -> RSGRenderItem {
    RSGRenderItem { node: a[i].node, distance: measures[i].0 }
}

/// The render items, in order, of those of the first `n` assignments that have a
/// camera and whose opacity class `measures[i].1` is `opaque`.
pub open spec fn selected(
    a: Seq<RSGAssignment>,
    measures: Seq<(i64, bool)>,
    n: int,
    opaque: bool,
) -> Seq<RSGRenderItem>
    decreases n,
{
    if n <= 0 {
        Seq::empty()
    } else if a[n - 1].camera_node_key is Some && measures[n - 1].1 == opaque {
        selected(a, measures, n - 1, opaque).push(item_of(a, measures, n - 1))
    } else {
        selected(a, measures, n - 1, opaque)
    }
}

/// Builds the two render lists from the assigned candidates: each candidate with a
/// camera goes, at its distance `measures[i].0`, to the opaque list when
/// `measures[i].1` holds and to the alpha list otherwise; candidates without a
/// camera are left out. Each list holds exactly its items, in drawing order.
pub fn build_render_lists(assigned: &Vec<RSGAssignment>, measures: &Vec<(i64, bool)>) -> (r:
    RSGRenderLists)
    requires
        assigned@.len() == measures@.len(),
    ensures
        r.wf(),
        r.opaque@.to_multiset() == selected(
            assigned@,
            measures@,
            assigned@.len() as int,
            true,
        ).to_multiset(),
        r.alpha@.to_multiset() == selected(
            assigned@,
            measures@,
            assigned@.len() as int,
            false,
        ).to_multiset(),
{
    broadcast use vstd::seq_lib::to_multiset_build, vstd::seq_lib::to_multiset_insert;

    let mut lists = RSGRenderLists::new();
    proof {
        assert(lists.opaque@ =~= Seq::<RSGRenderItem>::empty());
        assert(lists.alpha@ =~= Seq::<RSGRenderItem>::empty());
    }
    let mut i: usize = 0;
    while i < assigned.len()
        invariant
            assigned@.len() == measures@.len(),
            i <= assigned@.len(),
            lists.wf(),
            lists.opaque@.to_multiset() == selected(assigned@, measures@, i as int, true).to_multiset(),
            lists.alpha@.to_multiset() == selected(assigned@, measures@, i as int, false).to_multiset(),
        decreases assigned@.len() - i,
    {
        let a = assigned[i];
        if a.camera_node_key.is_some() {
            let (distance, opaque) = measures[i];
            let item = RSGRenderItem { node: a.node, distance };
            let ghost o0 = lists.opaque@;
            let ghost a0 = lists.alpha@;
            let pos = lists.insert(item, opaque);
            proof {
                assert(item == item_of(assigned@, measures@, i as int));
                let so = selected(assigned@, measures@, i as int, true);
                let sa = selected(assigned@, measures@, i as int, false);
                if opaque {
                    vstd::seq_lib::to_multiset_insert(o0, pos as int, item);
                    assert(selected(assigned@, measures@, i + 1, true) == so.push(item));
                    vstd::seq_lib::to_multiset_build(so, item);
                    assert(selected(assigned@, measures@, i + 1, false) == sa);
                } else {
                    vstd::seq_lib::to_multiset_insert(a0, pos as int, item);
                    assert(selected(assigned@, measures@, i + 1, false) == sa.push(item));
                    vstd::seq_lib::to_multiset_build(sa, item);
                    assert(selected(assigned@, measures@, i + 1, true) == so);
                }
            }
        } else {
            assert(selected(assigned@, measures@, i + 1, true) == selected(
                assigned@,
                measures@,
                i as int,
                true,
            ));
            assert(selected(assigned@, measures@, i + 1, false) == selected(
                assigned@,
                measures@,
                i as int,
                false,
            ));
        }
        i = i + 1;
    }
    lists
}

} // verus!
