use covey_of_worlds::load_spec::LoadSpec;
use covey_of_worlds::scene::Scene;

fn iids(list: &[&str]) -> Vec<String> {
    list.iter().map(|s| s.to_string()).collect()
}

fn under(scene: &Scene, parent: u64) -> Vec<(u64, String)> {
    scene.children_of(parent).into_iter().map(|m| (m.node, m.iid)).collect()
}

fn tagged(list: &[(u64, &str)]) -> Vec<(u64, String)> {
    list.iter().map(|(node, iid)| (*node, iid.to_string())).collect()
}

#[test]
fn nodes_get_rising_identities() {
    let mut scene = Scene::new();
    assert_eq!(scene.next_identity(), 0);
    assert_eq!(scene.spawn(None, "project".to_string()), Some(0));
    assert_eq!(scene.spawn(Some(0), "world".to_string()), Some(1));
    assert_eq!(scene.spawn(Some(7), "orphan".to_string()), None);
    assert_eq!(scene.spawn(Some(1), "level".to_string()), Some(2));
    assert_eq!(scene.next_identity(), 3);
    assert!(scene.contains(2));
    assert!(!scene.contains(3));
    assert_eq!(under(&scene, 0), tagged(&[(1, "world")]));
    assert_eq!(under(&scene, 1), tagged(&[(2, "level")]));
    assert!(under(&scene, 2).is_empty());
}

#[test]
fn a_removed_node_takes_everything_beneath_it() {
    let mut scene = Scene::new();
    let root = scene.spawn(None, "level".to_string()).unwrap();
    let a = scene.spawn(Some(root), "layer-a".to_string()).unwrap();
    let b = scene.spawn(Some(root), "layer-b".to_string()).unwrap();
    let a1 = scene.spawn(Some(a), "entity-a1".to_string()).unwrap();
    let b1 = scene.spawn(Some(b), "entity-b1".to_string()).unwrap();
    let a2 = scene.spawn(Some(a), "entity-a2".to_string()).unwrap();
    let a1x = scene.spawn(Some(a1), "below-a1".to_string()).unwrap();
    assert_eq!(scene.despawn_recursive(a), vec![a, a1, a2, a1x]);
    assert!(scene.contains(root) && scene.contains(b) && scene.contains(b1));
    assert!(!scene.contains(a) && !scene.contains(a1) && !scene.contains(a2));
    assert!(!scene.contains(a1x));
    assert_eq!(under(&scene, root), tagged(&[(b, "layer-b")]));
    assert_eq!(under(&scene, b), tagged(&[(b1, "entity-b1")]));
    assert_eq!(scene.despawn_recursive(a), Vec::<u64>::new());
    assert_eq!(scene.next_identity(), 7);
    assert_eq!(scene.spawn(Some(a), "late".to_string()), None);
    assert_eq!(scene.spawn(Some(b), "late".to_string()), Some(7));
}

#[test]
fn reconciling_twice_does_nothing_the_second_time() {
    let mut scene = Scene::new();
    let layer = scene.spawn(None, "layer".to_string()).unwrap();
    let children = iids(&["e1", "e2", "e3"]);
    let first = scene.reconcile(layer, &children, &LoadSpec::All).unwrap();
    assert_eq!(first.diff.spawn, children);
    assert!(first.diff.despawn.is_empty());
    assert_eq!(first.spawned, vec![1, 2, 3]);
    assert_eq!(under(&scene, layer), tagged(&[(1, "e1"), (2, "e2"), (3, "e3")]));
    let second = scene.reconcile(layer, &children, &LoadSpec::All).unwrap();
    assert!(second.diff.spawn.is_empty());
    assert!(second.diff.despawn.is_empty());
    assert!(second.spawned.is_empty());
    assert_eq!(under(&scene, layer), tagged(&[(1, "e1"), (2, "e2"), (3, "e3")]));
    assert_eq!(scene.next_identity(), 4);
}

#[test]
fn a_removed_entity_goes_alone_and_returns_under_a_new_identity() {
    let mut scene = Scene::new();
    let layer = scene.spawn(None, "layer".to_string()).unwrap();
    scene.reconcile(layer, &iids(&["e1", "e2", "e3"]), &LoadSpec::All).unwrap();
    let removal = scene.reconcile(layer, &iids(&["e1", "e3"]), &LoadSpec::All).unwrap();
    assert!(removal.diff.spawn.is_empty());
    assert_eq!(removal.diff.despawn, vec![2]);
    assert_eq!(under(&scene, layer), tagged(&[(1, "e1"), (3, "e3")]));
    let back = scene.reconcile(layer, &iids(&["e1", "e2", "e3"]), &LoadSpec::All).unwrap();
    assert_eq!(back.diff.spawn, iids(&["e2"]));
    assert!(back.diff.despawn.is_empty());
    assert_eq!(back.spawned, vec![4]);
    assert_eq!(under(&scene, layer), tagged(&[(1, "e1"), (3, "e3"), (4, "e2")]));
    assert!(!scene.contains(2));
}

#[test]
fn reconciling_a_level_takes_the_entities_of_a_removed_layer_along() {
    let mut scene = Scene::new();
    let level = scene.spawn(None, "level".to_string()).unwrap();
    let layers = scene.reconcile(level, &iids(&["ground", "sky"]), &LoadSpec::All).unwrap();
    let ground = layers.spawned[0];
    let sky = layers.spawned[1];
    scene.reconcile(ground, &iids(&["rock", "tree"]), &LoadSpec::All).unwrap();
    scene.reconcile(sky, &iids(&["cloud"]), &LoadSpec::All).unwrap();
    let only_sky = LoadSpec::ByIid(vec![("sky".to_string(), LoadSpec::All)]);
    let pass = scene.reconcile(level, &iids(&["ground", "sky"]), &only_sky).unwrap();
    assert_eq!(pass.diff.despawn, vec![ground]);
    assert!(pass.diff.spawn.is_empty());
    assert!(!scene.contains(ground));
    assert!(under(&scene, ground).is_empty());
    assert_eq!(under(&scene, level), tagged(&[(sky, "sky")]));
    assert_eq!(under(&scene, sky), tagged(&[(5, "cloud")]));
    let nothing = scene.reconcile(level, &iids(&["ground", "sky"]), &LoadSpec::Nothing).unwrap();
    assert_eq!(nothing.diff.despawn, vec![sky]);
    assert!(under(&scene, level).is_empty());
    assert!(scene.contains(level));
    assert!(!scene.contains(5));
}

#[test]
fn reconciling_under_a_node_that_is_not_there_does_nothing() {
    let mut scene = Scene::new();
    let root = scene.spawn(None, "root".to_string()).unwrap();
    assert!(scene.reconcile(9, &iids(&["a"]), &LoadSpec::All).is_none());
    assert_eq!(scene.next_identity(), 1);
    assert!(under(&scene, root).is_empty());
}
