use nalgebra_glm as glm;
use rsg::arena::Key;
use rsg::components::{RSGComponentBuilder, RSGComponentContainer};
use rsg::inherit::{update_inherited, RSGInherited};
use rsg::links::RSGComponentKind;
use rsg::observer::{RSGDirtyFlags, RSGSceneObserver};
use rsg::scene::{RSGNode, RSGScene, RSGSubtreeAddTransaction};

type Container = RSGComponentContainer<glm::Mat4, f32, (), (), ()>;

fn compose_transform(local: &glm::Mat4, ancestor: &glm::Mat4) -> glm::Mat4 {
    local * ancestor
}

fn compose_opacity(own: &f32, ancestor: &f32) -> f32 {
    own * ancestor
}

fn add_node(c: &mut Container, scene: &mut RSGScene, parent: Key, t: glm::Vec3, opacity: f32) -> Key {
    let b = RSGComponentBuilder::new().transform(c, glm::translation(&t)).opacity(c, opacity);
    scene.append(parent, RSGNode::with_component_links(b.links()))
}

fn world_translation(c: &Container, scene: &RSGScene, k: Key) -> (f32, f32, f32) {
    let t = scene.get_component_links(k).transform_key.unwrap();
    let w = c.transforms.get(t).world;
    (w[12], w[13], w[14])
}

fn inherited_opacity(c: &Container, scene: &RSGScene, k: Key) -> f32 {
    let o = scene.get_component_links(k).opacity_key.unwrap();
    c.opacities.get(o).world
}

fn resolve(c: &mut Container, scene: &RSGScene, obs: &RSGSceneObserver) {
    update_inherited(scene, &mut c.transforms, RSGComponentKind::Transform, &obs.dirty_world_roots, &compose_transform);
    update_inherited(scene, &mut c.opacities, RSGComponentKind::Opacity, &obs.dirty_opacity_roots, &compose_opacity);
}

struct Chain {
    c: Container,
    scene: RSGScene,
    root: Key,
    node1: Key,
    node11: Key,
    node111: Key,
    node112: Key,
}

fn build_chain() -> Chain {
    let mut c = Container::new();
    let mut scene = RSGScene::new();
    scene.set_observer(RSGSceneObserver::new());
    let root = c.add_default_root(&mut scene, glm::identity(), 1.0);
    let node1 = add_node(&mut c, &mut scene, root, glm::vec3(-100.0, 200.0, 0.0), 0.5);
    let node11 = add_node(&mut c, &mut scene, node1, glm::vec3(10.0, -20.0, 0.0), 1.0);
    let b = RSGComponentBuilder::new().transform(&mut c, glm::identity()).opacity(&mut c, 1.0);
    let node112 = scene.prepend(node11, RSGNode::with_component_links(b.links()));
    let b = RSGComponentBuilder::new().transform(&mut c, glm::identity()).opacity(&mut c, 0.2);
    let node111 = scene.prepend(node11, RSGNode::with_component_links(b.links()));
    let obs = scene.take_observer().unwrap();
    resolve(&mut c, &scene, &obs);
    Chain { c, scene, root, node1, node11, node111, node112 }
}

#[test]
fn translation_chain_then_removal() {
    let mut ch = build_chain();
    assert_eq!(world_translation(&ch.c, &ch.scene, ch.node11), (-90.0, 180.0, 0.0));
    assert_eq!(world_translation(&ch.c, &ch.scene, ch.node111), (-90.0, 180.0, 0.0));

    ch.scene.set_observer(RSGSceneObserver::new());
    let before = ch.scene.node_count();
    let links = ch.scene.remove_without_children(ch.node1);
    ch.c.remove(links);
    assert_eq!(ch.scene.node_count(), before - 1);
    assert_eq!(ch.c.transforms.len(), before - 1);
    assert_eq!(ch.c.opacities.len(), before - 1);
    assert!(!ch.scene.contains(ch.node1));
    assert_eq!(ch.scene.parent(ch.node11), Some(ch.root));
    ch.scene.mark_dirty(ch.node11, RSGDirtyFlags::transform());
    let obs = ch.scene.take_observer().unwrap();
    resolve(&mut ch.c, &ch.scene, &obs);
    assert_eq!(world_translation(&ch.c, &ch.scene, ch.node11), (10.0, -20.0, 0.0));
    assert_eq!(world_translation(&ch.c, &ch.scene, ch.node112), (10.0, -20.0, 0.0));

    let t = ch.scene.get_component_links(ch.node11).transform_key.unwrap();
    let old = *ch.c.transforms.get(t);
    ch.c.transforms.replace(t, RSGInherited { local: glm::translation(&glm::vec3(15.0, -10.0, 0.0)), world: old.world });
    ch.scene.set_observer(RSGSceneObserver::new());
    ch.scene.mark_dirty(ch.node11, RSGDirtyFlags::transform());
    let obs = ch.scene.take_observer().unwrap();
    resolve(&mut ch.c, &ch.scene, &obs);
    for k in [ch.node11, ch.node111, ch.node112] {
        assert_eq!(world_translation(&ch.c, &ch.scene, k), (15.0, -10.0, 0.0));
    }
}

#[test]
fn opacity_chain_then_removal() {
    let mut ch = build_chain();
    assert_eq!(inherited_opacity(&ch.c, &ch.scene, ch.node11), 0.5);
    assert_eq!(inherited_opacity(&ch.c, &ch.scene, ch.node111), 0.1);
    assert_eq!(inherited_opacity(&ch.c, &ch.scene, ch.node112), 0.5);

    ch.scene.set_observer(RSGSceneObserver::new());
    let links = ch.scene.remove_without_children(ch.node1);
    ch.c.remove(links);
    ch.scene.mark_dirty(ch.node11, RSGDirtyFlags::opacity());
    let obs = ch.scene.take_observer().unwrap();
    resolve(&mut ch.c, &ch.scene, &obs);
    assert_eq!(inherited_opacity(&ch.c, &ch.scene, ch.node111), 0.2);
    assert_eq!(inherited_opacity(&ch.c, &ch.scene, ch.node112), 1.0);

    let o = ch.scene.get_component_links(ch.node11).opacity_key.unwrap();
    let old = *ch.c.opacities.get(o);
    ch.c.opacities.replace(o, RSGInherited { local: 0.75, world: old.world });
    ch.scene.set_observer(RSGSceneObserver::new());
    ch.scene.mark_dirty(ch.node11, RSGDirtyFlags::opacity());
    let obs = ch.scene.take_observer().unwrap();
    resolve(&mut ch.c, &ch.scene, &obs);
    assert_eq!(inherited_opacity(&ch.c, &ch.scene, ch.node111), 0.2 * 0.75);
    assert_eq!(inherited_opacity(&ch.c, &ch.scene, ch.node111), 0.15);
    assert_eq!(inherited_opacity(&ch.c, &ch.scene, ch.node112), 0.75);
}

#[test]
fn root_keeps_its_local_values() {
    let mut c = Container::new();
    let mut scene = RSGScene::new();
    let b = RSGComponentBuilder::new()
        .transform(&mut c, glm::translation(&glm::vec3(3.0, 4.0, 5.0)))
        .opacity(&mut c, 0.25);
    let root = scene.set_root(RSGNode::with_component_links(b.links()));
    let roots = vec![root];
    update_inherited(&scene, &mut c.transforms, RSGComponentKind::Transform, &roots, &compose_transform);
    update_inherited(&scene, &mut c.opacities, RSGComponentKind::Opacity, &roots, &compose_opacity);
    let t = scene.get_component_links(root).transform_key.unwrap();
    assert_eq!(c.transforms.get(t).world, c.transforms.get(t).local);
    assert_eq!(inherited_opacity(&c, &scene, root), 0.25);
}

#[test]
fn ancestor_without_opacity_is_skipped() {
    let mut c = Container::new();
    let mut scene = RSGScene::new();
    let root = c.add_default_root(&mut scene, glm::identity(), 0.5);
    let b = RSGComponentBuilder::new().transform(&mut c, glm::identity());
    let middle = scene.append(root, RSGNode::with_component_links(b.links()));
    let b = RSGComponentBuilder::new().opacity(&mut c, 0.2);
    let leaf = scene.append(middle, RSGNode::with_component_links(b.links()));
    assert_eq!(scene.nearest_ancestor_with(leaf, RSGComponentKind::Opacity), Some(root));
    assert_eq!(scene.nearest_ancestor_with(leaf, RSGComponentKind::Transform), Some(middle));
    update_inherited(&scene, &mut c.opacities, RSGComponentKind::Opacity, &vec![root], &compose_opacity);
    assert_eq!(inherited_opacity(&c, &scene, leaf), 0.2 * 0.5);
}

#[test]
fn resolving_twice_gives_identical_values() {
    let mut ch = build_chain();
    let roots = vec![ch.root, ch.node11, ch.root];
    update_inherited(&ch.scene, &mut ch.c.transforms, RSGComponentKind::Transform, &roots, &compose_transform);
    update_inherited(&ch.scene, &mut ch.c.opacities, RSGComponentKind::Opacity, &roots, &compose_opacity);
    let keys = ch.scene.node_keys();
    let first: Vec<(glm::Mat4, u32)> = keys
        .iter()
        .map(|k| {
            let l = ch.scene.get_component_links(*k);
            (ch.c.transforms.get(l.transform_key.unwrap()).world, ch.c.opacities.get(l.opacity_key.unwrap()).world.to_bits())
        })
        .collect();
    update_inherited(&ch.scene, &mut ch.c.transforms, RSGComponentKind::Transform, &roots, &compose_transform);
    update_inherited(&ch.scene, &mut ch.c.opacities, RSGComponentKind::Opacity, &roots, &compose_opacity);
    for (i, k) in keys.iter().enumerate() {
        let l = ch.scene.get_component_links(*k);
        assert_eq!(ch.c.transforms.get(l.transform_key.unwrap()).world, first[i].0);
        assert_eq!(ch.c.opacities.get(l.opacity_key.unwrap()).world.to_bits(), first[i].1);
    }
}

#[test]
fn transaction_of_many_nodes_reports_once() {
    let mut c = Container::new();
    let mut scene = RSGScene::new();
    let root = c.add_default_root(&mut scene, glm::identity(), 1.0);
    scene.set_observer(RSGSceneObserver::new());
    let mut tx = RSGSubtreeAddTransaction::new();
    let mut k = root;
    let mut first = None;
    for _ in 0..100000 {
        let b = RSGComponentBuilder::new()
            .transform(&mut c, glm::translation(&glm::vec3(1.0, 0.0, 0.0)))
            .opacity(&mut c, 1.0);
        k = scene.append_with_transaction(k, RSGNode::with_component_links(b.links()), &mut tx);
        if first.is_none() {
            first = Some(k);
        }
    }
    assert!(scene.take_observer().unwrap().dirty_world_roots.is_empty());
    scene.set_observer(RSGSceneObserver::new());
    scene.commit(tx);
    let obs = scene.take_observer().unwrap();
    assert_eq!(obs.dirty_world_roots, vec![first.unwrap()]);
    assert_eq!(obs.dirty_opacity_roots, vec![first.unwrap()]);
    assert!(obs.hierarchy_changed);
    assert_eq!(scene.node_count(), 100001);
    update_inherited(&scene, &mut c.transforms, RSGComponentKind::Transform, &obs.dirty_world_roots, &compose_transform);
    assert_eq!(world_translation(&c, &scene, k), (100000.0, 0.0, 0.0));
    assert_eq!(world_translation(&c, &scene, first.unwrap()), (1.0, 0.0, 0.0));
}

#[test]
fn empty_transaction_reports_nothing() {
    let mut c = Container::new();
    let mut scene = RSGScene::new();
    c.add_default_root(&mut scene, glm::identity(), 1.0);
    scene.set_observer(RSGSceneObserver::new());
    scene.commit(RSGSubtreeAddTransaction::new());
    let obs = scene.take_observer().unwrap();
    assert!(!obs.changed);
    assert!(obs.dirty_world_roots.is_empty());
}
