use covey_of_worlds::load_spec::{
    filter_children, load_children_system, reconcile_children, LdtkAssetChildLoaderError, LoadSpec,
};
use covey_of_worlds::reconcile::{diff_children, is_materialized, Materialized};
use covey_of_worlds::scene_model::apply_diff;
use covey_of_worlds::util::{add_text, clone_numbers, clone_strings, clone_text, has_number, has_text};
use covey_of_worlds::traits::{on_create_system, on_modified_system, Bound, LdtkAssetLoadEvent};

fn iids(list: &[&str]) -> Vec<String> {
    list.iter().map(|s| s.to_string()).collect()
}

fn nodes(list: &[(u64, &str)]) -> Vec<Materialized> {
    list.iter().map(|(node, iid)| Materialized { node: *node, iid: iid.to_string() }).collect()
}

fn pairs(list: &[Materialized]) -> Vec<(u64, String)> {
    list.iter().map(|m| (m.node, m.iid.clone())).collect()
}

#[test]
fn first_pass_spawns_every_declared_child_in_order() {
    let declared = iids(&["a", "b", "c"]);
    let diff = diff_children(&declared, &vec![]);
    assert_eq!(diff.spawn, declared);
    assert!(diff.despawn.is_empty());
}

#[test]
fn second_pass_over_unchanged_declaration_is_idle() {
    let declared = iids(&["a", "b", "c"]);
    let first = diff_children(&declared, &vec![]);
    let scene = apply_diff(&vec![], &first, &vec![10, 11, 12]);
    assert_eq!(
        pairs(&scene),
        vec![(10, "a".to_string()), (11, "b".to_string()), (12, "c".to_string())]
    );
    let second = diff_children(&declared, &scene);
    assert!(second.spawn.is_empty());
    assert!(second.despawn.is_empty());
    let again = apply_diff(&scene, &second, &vec![]);
    assert_eq!(pairs(&again), pairs(&scene));
}

#[test]
fn pass_leaves_exactly_the_declared_children() {
    let scene = nodes(&[(1, "old"), (2, "b"), (3, "gone"), (4, "a")]);
    let declared = iids(&["a", "b", "c", "d"]);
    let diff = diff_children(&declared, &scene);
    assert_eq!(diff.spawn, iids(&["c", "d"]));
    assert_eq!(diff.despawn, vec![1, 3]);
    let after = apply_diff(&scene, &diff, &vec![7, 8]);
    assert_eq!(
        pairs(&after),
        vec![
            (2, "b".to_string()),
            (4, "a".to_string()),
            (7, "c".to_string()),
            (8, "d".to_string())
        ]
    );
    let mut got: Vec<String> = after.iter().map(|m| m.iid.clone()).collect();
    got.sort();
    assert_eq!(got, declared);
}

#[test]
fn kept_children_keep_their_scene_nodes() {
    let scene = nodes(&[(41, "a"), (42, "b")]);
    let diff = diff_children(&iids(&["b", "a", "c"]), &scene);
    assert_eq!(diff.spawn, iids(&["c"]));
    assert!(diff.despawn.is_empty());
    let after = apply_diff(&scene, &diff, &vec![43]);
    assert_eq!(after[0].node, 41);
    assert_eq!(after[1].node, 42);
}

#[test]
fn removed_entity_goes_alone_and_comes_back_as_a_new_node() {
    let declared = iids(&["e1", "e2", "e3"]);
    let scene = apply_diff(&vec![], &diff_children(&declared, &vec![]), &vec![1, 2, 3]);
    let shrunk = iids(&["e1", "e3"]);
    let removal = diff_children(&shrunk, &scene);
    assert!(removal.spawn.is_empty());
    assert_eq!(removal.despawn, vec![2]);
    let between = apply_diff(&scene, &removal, &vec![]);
    assert_eq!(pairs(&between), vec![(1, "e1".to_string()), (3, "e3".to_string())]);
    let readd = diff_children(&declared, &between);
    assert_eq!(readd.spawn, iids(&["e2"]));
    assert!(readd.despawn.is_empty());
    let after = apply_diff(&between, &readd, &vec![4]);
    assert_eq!(
        pairs(&after),
        vec![(1, "e1".to_string()), (3, "e3".to_string()), (4, "e2".to_string())]
    );
    assert!(after.iter().all(|m| m.node != 2));
}

#[test]
fn a_child_declared_twice_is_spawned_once() {
    let diff = diff_children(&iids(&["a", "b", "a"]), &nodes(&[(1, "b")]));
    assert_eq!(diff.spawn, iids(&["a"]));
    assert!(diff.despawn.is_empty());
}

#[test]
fn every_node_of_an_undeclared_identifier_is_despawned() {
    let diff = diff_children(&iids(&["a"]), &nodes(&[(1, "x"), (2, "a"), (3, "x")]));
    assert!(diff.spawn.is_empty());
    assert_eq!(diff.despawn, vec![1, 3]);
}

#[test]
fn empty_declaration_clears_the_parent() {
    let scene = nodes(&[(1, "a"), (2, "b")]);
    let diff = diff_children(&vec![], &scene);
    assert!(diff.spawn.is_empty());
    assert_eq!(diff.despawn, vec![1, 2]);
    assert!(apply_diff(&scene, &diff, &vec![]).is_empty());
}

#[test]
fn membership_helpers() {
    let mut list = iids(&["a", "b"]);
    assert!(has_text(&list, &"b".to_string()));
    assert!(!has_text(&list, &"c".to_string()));
    assert!(!has_text(&vec![], &"a".to_string()));
    add_text(&mut list, &"a".to_string());
    assert_eq!(list, iids(&["a", "b"]));
    add_text(&mut list, &"c".to_string());
    assert_eq!(list, iids(&["a", "b", "c"]));
    assert_eq!(clone_strings(&list), list);
    assert_eq!(clone_numbers(&vec![3, -1]), vec![3, -1]);
    assert_eq!(clone_text(&Some("x".to_string())), Some("x".to_string()));
    assert_eq!(clone_text(&None), None);
    let scene = nodes(&[(1, "a")]);
    assert!(is_materialized(&scene, &"a".to_string()));
    assert!(!is_materialized(&scene, &"b".to_string()));
    assert!(has_number(&vec![3, 4], 4));
    assert!(!has_number(&vec![3, 4], 5));
}

#[test]
fn load_spec_selects_children() {
    let children = iids(&["a", "b", "c"]);
    assert!(filter_children(&children, &LoadSpec::Nothing).is_empty());
    assert_eq!(filter_children(&children, &LoadSpec::All), children);
    let some = LoadSpec::ByIid(vec![
        ("c".to_string(), LoadSpec::All),
        ("a".to_string(), LoadSpec::Nothing),
        ("z".to_string(), LoadSpec::All),
    ]);
    assert_eq!(filter_children(&children, &some), iids(&["a", "c"]));
    assert!(some.selects(&"a".to_string()));
    assert!(!some.selects(&"b".to_string()));
    assert!(LoadSpec::All.selects(&"b".to_string()));
    assert!(!LoadSpec::Nothing.selects(&"b".to_string()));
    assert!(!LoadSpec::ByIid(vec![]).selects(&"a".to_string()));
}

#[test]
fn load_spec_nests() {
    let inner = LoadSpec::ByIid(vec![("level".to_string(), LoadSpec::Nothing)]);
    let spec = LoadSpec::ByIid(vec![
        ("w1".to_string(), inner),
        ("w2".to_string(), LoadSpec::All),
        ("w1".to_string(), LoadSpec::All),
    ]);
    let below = spec.below(&"w1".to_string()).unwrap();
    assert!(below.selects(&"level".to_string()));
    assert!(!below.selects(&"other".to_string()));
    assert!(below.below(&"level".to_string()).unwrap().below(&"layer".to_string()).is_none());
    assert!(spec.below(&"w2".to_string()).unwrap().selects(&"anything".to_string()));
    assert!(spec.below(&"w3".to_string()).is_none());
    assert!(LoadSpec::Nothing.below(&"w1".to_string()).is_none());
    let all = LoadSpec::All;
    assert!(all.below(&"w".to_string()).unwrap().below(&"l".to_string()).is_some());
}

#[test]
fn reconciliation_goes_by_the_selected_children() {
    let children = iids(&["a", "b", "c"]);
    let scene = nodes(&[(1, "a"), (2, "b")]);
    let spec = LoadSpec::ByIid(vec![
        ("b".to_string(), LoadSpec::All),
        ("c".to_string(), LoadSpec::All),
    ]);
    let diff = reconcile_children(&children, &spec, &scene);
    assert_eq!(diff.spawn, iids(&["c"]));
    assert_eq!(diff.despawn, vec![1]);
    let none = reconcile_children(&children, &LoadSpec::Nothing, &scene);
    assert!(none.spawn.is_empty());
    assert_eq!(none.despawn, vec![1, 2]);
    let all = load_children_system(Some(&children), &LoadSpec::All, &scene).unwrap();
    assert_eq!(all.spawn, iids(&["c"]));
    assert!(all.despawn.is_empty());
    assert_eq!(
        load_children_system(None, &LoadSpec::All, &scene).err(),
        Some(LdtkAssetChildLoaderError::BadHandle)
    );
}

fn bound(entity: u64, handle: u64, tagged: bool) -> Bound {
    Bound { entity, handle, tagged }
}

#[test]
fn pending_nodes_are_notified_once_when_loaded() {
    let mut scene = vec![bound(1, 100, false), bound(2, 200, false), bound(3, 100, true)];
    let events = on_create_system(&mut scene, &vec![100]);
    assert_eq!(events, vec![LdtkAssetLoadEvent { entity: 1, handle: 100 }]);
    assert_eq!(scene, vec![bound(1, 100, true), bound(2, 200, false), bound(3, 100, true)]);
    let again = on_create_system(&mut scene, &vec![100]);
    assert!(again.is_empty());
    assert_eq!(scene, vec![bound(1, 100, true), bound(2, 200, false), bound(3, 100, true)]);
    let later = on_create_system(&mut scene, &vec![200, 100]);
    assert_eq!(later, vec![LdtkAssetLoadEvent { entity: 2, handle: 200 }]);
    assert!(on_create_system(&mut scene, &vec![]).is_empty());
}

#[test]
fn reload_notifies_every_node_bound_to_the_reference() {
    let scene = vec![bound(1, 100, true), bound(2, 200, true), bound(3, 100, false)];
    assert_eq!(
        on_modified_system(&scene, 100),
        vec![
            LdtkAssetLoadEvent { entity: 1, handle: 100 },
            LdtkAssetLoadEvent { entity: 3, handle: 100 }
        ]
    );
    assert_eq!(
        on_modified_system(&scene, 200),
        vec![LdtkAssetLoadEvent { entity: 2, handle: 200 }]
    );
    assert!(on_modified_system(&scene, 300).is_empty());
}
