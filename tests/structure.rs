use rsg::arena::Arena;
use rsg::components::{RSGComponentBuilder, RSGComponentContainer};
use rsg::inherit::{update_derived, RSGInherited};
use rsg::links::{RSGComponentKind, RSGComponentLinks};
use rsg::material::{
    is_opaque, RSGMaterialBlend, RSGMaterialBlendFactor, RSGMaterialBlendOp, RSGMaterialComponent,
    RSGMaterialCompareOp, RSGMaterialCullMode, RSGMaterialFrontFace, RSGMaterialGraphicsState,
};
use rsg::observer::{RSGDirtyFlags, RSGEvent, RSGSceneObserver};
use rsg::render::{
    assign_viewports, build_render_lists, collect_render_candidates, RSGAssignment, insert_back_to_front, insert_front_to_back, RSGRenderItem,
    RSGRenderLists, RSGSceneError,
};
use rsg::scene::{RSGNode, RSGScene};
use rsg::viewport::{RSGViewportComponent, RSGViewportRect};

type Container = RSGComponentContainer<i64, i64, RSGMaterialGraphicsState, u32, (i64, i64)>;

#[test]
fn arena_reuses_slots_with_a_new_generation() {
    let mut a: Arena<u32> = Arena::new();
    let k1 = a.insert(10);
    let k2 = a.insert(20);
    assert_eq!(a.len(), 2);
    assert_eq!(a.remove(k1), 10);
    assert!(!a.contains(k1));
    let k3 = a.insert(30);
    assert_eq!(k3.index, k1.index);
    assert_ne!(k3.generation, k1.generation);
    assert!(!a.contains(k1));
    assert_eq!(*a.get(k3), 30);
    assert_eq!(a.replace(k2, 21), 20);
    assert_eq!(*a.get(k2), 21);
    assert_eq!(a.keys(), vec![k3, k2]);
}

#[test]
fn observer_routes_each_flag() {
    let mut o = RSGSceneObserver::new();
    let mut a: Arena<u8> = Arena::new();
    let k = a.insert(0);
    let m = a.insert(0);
    o.notify(RSGEvent::Dirty(k, RSGDirtyFlags::transform().union(RSGDirtyFlags::mesh())));
    assert!(o.changed && !o.hierarchy_changed);
    assert_eq!(o.dirty_world_roots, vec![k]);
    assert_eq!(o.dirty_mesh_roots, vec![k]);
    assert!(o.dirty_opacity_roots.is_empty());
    o.notify(RSGEvent::SubtreeAboutToBeRemoved(m));
    assert!(o.hierarchy_changed);
    assert_eq!(o.dirty_world_roots, vec![k]);
    o.notify(RSGEvent::SubtreeAddedOrReattached(m));
    assert_eq!(o.dirty_world_roots, vec![k, m]);
    assert_eq!(o.dirty_opacity_roots, vec![m]);
    assert_eq!(o.dirty_material_roots, vec![m]);
    assert_eq!(o.dirty_material_value_roots, vec![m]);
    assert_eq!(o.dirty_mesh_roots, vec![k, m]);
    o.notify(RSGEvent::Dirty(m, RSGDirtyFlags::material_values()));
    assert_eq!(o.dirty_material_value_roots, vec![m, m]);
    o.reset();
    assert!(!o.changed && !o.hierarchy_changed && o.dirty_mesh_roots.is_empty());
}

#[test]
fn dirty_flags_contain_their_bits() {
    let f = RSGDirtyFlags::opacity().union(RSGDirtyFlags::material());
    assert!(f.contains(RSGDirtyFlags::opacity()));
    assert!(f.contains(RSGDirtyFlags::material()));
    assert!(!f.contains(RSGDirtyFlags::transform()));
    assert_eq!(RSGDirtyFlags::from_bits(0x1f).bits, 0x1f);
}

#[test]
fn traversal_is_preorder_with_depths() {
    let mut scene = RSGScene::new();
    let root = scene.set_root(RSGNode::with_component_links(RSGComponentLinks::empty()));
    let n = RSGNode::with_component_links(RSGComponentLinks::empty());
    let a = scene.append(root, n);
    let b = scene.append(root, n);
    let a1 = scene.append(a, n);
    let a0 = scene.prepend(a, n);
    assert_eq!(scene.children(a), &vec![a0, a1]);
    assert_eq!(scene.traverse(root), vec![(root, 0), (a, 1), (a0, 2), (a1, 2), (b, 1)]);
    assert_eq!(scene.traverse(a), vec![(a, 0), (a0, 1), (a1, 1)]);
    assert_eq!(scene.ancestors(a1), vec![a, root]);
    assert!(scene.ancestors(root).is_empty());
    assert_eq!(scene.node_count(), 5);
    assert_eq!(scene.root(), Some(root));
}

#[test]
fn removal_moves_children_into_place() {
    let mut scene = RSGScene::new();
    let root = scene.set_root(RSGNode::with_component_links(RSGComponentLinks::empty()));
    let n = RSGNode::with_component_links(RSGComponentLinks::empty());
    let a = scene.append(root, n);
    let b = scene.append(root, n);
    let c = scene.append(root, n);
    let b1 = scene.append(b, n);
    let b2 = scene.append(b, n);
    scene.set_observer(RSGSceneObserver::new());
    scene.remove_without_children(b);
    let obs = scene.take_observer().unwrap();
    assert_eq!(scene.children(root), &vec![a, b1, b2, c]);
    assert_eq!(scene.parent(b1), Some(root));
    assert_eq!(scene.node_count(), 5);
    assert!(obs.hierarchy_changed);
    assert_eq!(obs.dirty_world_roots, vec![b1, b2]);
}

#[test]
fn render_lists_stay_sorted() {
    let mut scene = RSGScene::new();
    let root = scene.set_root(RSGNode::with_component_links(RSGComponentLinks::empty()));
    let mut lists = RSGRenderLists::new();
    let distances: [i64; 8] = [5, -3, 12, 0, 5, 7, -20, 3];
    for (i, d) in distances.iter().enumerate() {
        lists.insert(RSGRenderItem { node: root, distance: *d }, i % 3 != 0);
    }
    assert_eq!(lists.opaque.len() + lists.alpha.len(), 8);
    for w in lists.opaque.windows(2) {
        assert!(w[0].distance <= w[1].distance);
    }
    for w in lists.alpha.windows(2) {
        assert!(w[0].distance >= w[1].distance);
    }
    let opaque: Vec<i64> = lists.opaque.iter().map(|e| e.distance).collect();
    assert_eq!(opaque, vec![-3, 3, 5, 7, 12]);
    let alpha: Vec<i64> = lists.alpha.iter().map(|e| e.distance).collect();
    assert_eq!(alpha, vec![5, 0, -20]);
    lists.clear();
    assert!(lists.opaque.is_empty() && lists.alpha.is_empty());
}

#[test]
fn equal_distances_keep_insertion_order() {
    let mut a: Arena<u8> = Arena::new();
    let k1 = a.insert(0);
    let k2 = a.insert(0);
    let mut front = Vec::new();
    assert_eq!(insert_front_to_back(&mut front, RSGRenderItem { node: k1, distance: 4 }), 0);
    assert_eq!(insert_front_to_back(&mut front, RSGRenderItem { node: k2, distance: 4 }), 1);
    assert_eq!(insert_front_to_back(&mut front, RSGRenderItem { node: k2, distance: 1 }), 0);
    let mut back = Vec::new();
    assert_eq!(insert_back_to_front(&mut back, RSGRenderItem { node: k1, distance: 4 }), 0);
    assert_eq!(insert_back_to_front(&mut back, RSGRenderItem { node: k2, distance: 9 }), 0);
    assert_eq!(insert_back_to_front(&mut back, RSGRenderItem { node: k2, distance: 4 }), 2);
}

fn renderable(c: &mut Container, scene: &mut RSGScene, parent: rsg::arena::Key, z: i64) -> rsg::arena::Key {
    let b = RSGComponentBuilder::new().transform(c, z).mesh(c, 1).material(c, RSGMaterialGraphicsState::default());
    scene.append(parent, RSGNode::with_component_links(b.links()))
}

#[test]
fn candidates_are_grouped_by_viewport() {
    let mut c = Container::new();
    let mut scene = RSGScene::new();
    let root = c.add_default_root(&mut scene, 0, 1);
    let cam = scene.append(root, RSGNode::with_component_links(RSGComponentBuilder::new().transform(&mut c, 600).camera(&mut c, (0, 0)).links()));
    let rect = RSGViewportRect { x: 0, y: 0, w: 800, h: 600 };
    let vp1 = scene.append(root, RSGNode::with_component_links(RSGComponentBuilder::new().viewport(&mut c, Some(rect), Some(cam)).links()));
    let vp2 = scene.append(root, RSGNode::with_component_links(RSGComponentBuilder::new().viewport(&mut c, None, None).links()));
    let t1 = renderable(&mut c, &mut scene, vp1, -10);
    let t2 = renderable(&mut c, &mut scene, t1, -2);
    let t3 = renderable(&mut c, &mut scene, vp2, -5);
    let cands = match collect_render_candidates(&scene) {
        Ok(x) => x,
        Err(_) => panic!("viewports do not nest here"),
    };
    assert_eq!(cands.viewports, vec![(vp1, 2), (vp2, 1)]);
    assert_eq!(cands.nodes, vec![t1, t2, t3]);
    let assigned = assign_viewports(&scene, &c.viewports, &cands);
    assert_eq!(assigned.len(), 3);
    assert_eq!((assigned[0].node, assigned[0].viewport_node_key, assigned[0].camera_node_key), (t1, Some(vp1), Some(cam)));
    assert_eq!((assigned[1].node, assigned[1].viewport_node_key, assigned[1].camera_node_key), (t2, Some(vp1), Some(cam)));
    assert_eq!((assigned[2].node, assigned[2].viewport_node_key, assigned[2].camera_node_key), (t3, None, None));
    assert_eq!(*c.viewports.get(scene.get_component_links(vp1).viewport_key.unwrap()), RSGViewportComponent::new(Some(rect), Some(cam)));
}

#[test]
fn nested_viewport_is_refused() {
    let mut c = Container::new();
    let mut scene = RSGScene::new();
    let root = c.add_default_root(&mut scene, 0, 1);
    let outer = scene.append(root, RSGNode::with_component_links(RSGComponentBuilder::new().viewport(&mut c, None, None).links()));
    let inner = scene.append(outer, RSGNode::with_component_links(RSGComponentBuilder::new().viewport(&mut c, None, None).links()));
    match collect_render_candidates(&scene) {
        Err(RSGSceneError::NestedViewport(k)) => assert_eq!(k, inner),
        Ok(_) => panic!("nested viewports must be refused"),
    }
}

#[test]
fn camera_state_follows_world_transform() {
    let mut c = Container::new();
    let mut scene = RSGScene::new();
    let root = c.add_default_root(&mut scene, 0, 1);
    let cam = scene.append(root, RSGNode::with_component_links(RSGComponentBuilder::new().transform(&mut c, 7).camera(&mut c, (0, 0)).links()));
    let t = scene.get_component_links(cam).transform_key.unwrap();
    c.transforms.replace(t, RSGInherited { local: 7, world: 107 });
    let mut cameras = std::mem::replace(&mut c.cameras, Arena::new());
    update_derived(&scene, &c.transforms, RSGComponentKind::Transform, &mut cameras, RSGComponentKind::Camera, &vec![root], &|w: &i64, prev: &(i64, i64)| (*w, prev.1 - *w));
    let ck = scene.get_component_links(cam).camera_key.unwrap();
    assert_eq!(*cameras.get(ck), (107, -107));
    assert_eq!(cameras.len(), 1);
}

#[test]
fn removing_a_node_releases_its_components() {
    let mut c = Container::new();
    let mut scene = RSGScene::new();
    let root = c.add_default_root(&mut scene, 0, 1);
    let n = renderable(&mut c, &mut scene, root, 3);
    let links = scene.remove_without_children(n);
    assert_eq!((c.transforms.len(), c.meshes.len(), c.materials.len()), (2, 1, 1));
    c.remove(links);
    assert_eq!((c.transforms.len(), c.meshes.len(), c.materials.len()), (1, 0, 0));
    assert!(!c.transforms.contains(links.transform_key.unwrap()));
}

#[test]
fn translucency_forces_premultiplied_blending() {
    let base = RSGMaterialGraphicsState::default();
    assert!(base.depth_test && base.depth_write);
    assert_eq!(base.depth_op, RSGMaterialCompareOp::Less);
    assert_eq!(base.cull_mode, RSGMaterialCullMode::Back);
    assert_eq!(base.front_face, RSGMaterialFrontFace::CCW);
    assert_eq!(base.effective(false), base);
    let t = base.effective(true);
    assert!(!t.depth_write && t.blend.blend_enable);
    assert_eq!(t.blend.src_color, RSGMaterialBlendFactor::One);
    assert_eq!(t.blend.dst_color, RSGMaterialBlendFactor::OneMinusSrcAlpha);
    assert_eq!(t.blend.op_alpha, RSGMaterialBlendOp::Add);
    assert_eq!(t.blend.color_write.bits, 0x0f);
    let mut blending = base;
    blending.blend = RSGMaterialBlend { blend_enable: true, src_color: RSGMaterialBlendFactor::SrcAlpha, ..RSGMaterialBlend::default() };
    let e = blending.effective(false);
    assert!(!e.depth_write);
    assert_eq!(e.blend, blending.blend);
    assert!(is_opaque(false, Some(&base)));
    assert!(is_opaque(false, None));
    assert!(!is_opaque(true, Some(&base)));
    assert!(!is_opaque(false, Some(&blending)));
    assert_eq!(RSGMaterialComponent::new(), RSGMaterialComponent {});
}

#[test]
fn lists_are_built_from_assignments_with_a_camera() {
    let mut a: Arena<u8> = Arena::new();
    let n1 = a.insert(0);
    let n2 = a.insert(0);
    let n3 = a.insert(0);
    let n4 = a.insert(0);
    let cam = a.insert(0);
    let vp = a.insert(0);
    let with_cam = |node| RSGAssignment { node, viewport_node_key: Some(vp), camera_node_key: Some(cam) };
    let assigned = vec![
        with_cam(n1),
        RSGAssignment { node: n2, viewport_node_key: None, camera_node_key: None },
        with_cam(n3),
        with_cam(n4),
    ];
    let measures = vec![(8, true), (1, true), (-2, true), (5, false)];
    let lists = build_render_lists(&assigned, &measures);
    assert_eq!(lists.opaque, vec![RSGRenderItem { node: n3, distance: -2 }, RSGRenderItem { node: n1, distance: 8 }]);
    assert_eq!(lists.alpha, vec![RSGRenderItem { node: n4, distance: 5 }]);
}
