use glam::Vec3;
use roboview_core::scene::Scene;

/// Test payload: whatever box the test supplies (`None` simulates an
/// object without finite extent).
#[derive(Debug, Clone, Copy, PartialEq)]
struct Payload(Option<(Vec3, Vec3)>);

fn box_from(min: Vec3, max: Vec3) -> (Vec3, Vec3) {
    (min, max)
}

fn scene_of(payloads: &[(Option<(Vec3, Vec3)>, &str)]) -> Scene<Payload, ()> {
    let mut scene = Scene::new(());
    for (bounds, name) in payloads {
        scene.add(Payload(*bounds), name.to_string());
    }
    scene
}

#[test]
fn add_assigns_ids_in_add_order_and_stores_the_name() {
    let mut scene: Scene<Payload, ()> = Scene::new(());
    assert!(scene.is_empty());

    let a = scene.add(Payload(None), "first".to_string());
    let b = scene.add(Payload(None), "second".to_string());
    let c = scene.add(Payload(None), "third".to_string());

    assert_eq!((a, b, c), (1, 2, 3));
    assert!(!scene.is_empty());

    let names: Vec<&str> = scene.iter().iter().map(|o| o.name.as_str()).collect();
    assert_eq!(names, ["first", "second", "third"]);
    assert_eq!(scene.get(b).unwrap().name, "second");
    assert!(scene.get(b).unwrap().visible);
}

#[test]
fn remove_drops_only_the_target_and_ids_are_never_reused() {
    let mut scene = scene_of(&[
        (Some(box_from(Vec3::ZERO, Vec3::ONE)), "a"),
        (Some(box_from(Vec3::splat(2.0), Vec3::splat(3.0))), "b"),
        (None, "c"),
    ]);

    assert!(scene.remove(2).is_some());
    assert_eq!(scene.remove(2), None);
    let rest: Vec<u64> = scene.iter().iter().map(|o| o.id).collect();
    assert_eq!(rest, [1, 3]);

    let fresh = scene.add(Payload(None), "d".to_string());
    assert_eq!(fresh, 4);
    assert!(scene.get(2).is_none());
    assert_eq!(scene.remove(99), None);
}

#[test]
fn toggle_visible_flips_the_state_and_unknown_ids_are_no_ops() {
    let mut scene = scene_of(&[(None, "a"), (None, "b")]);

    assert!(!scene.toggle_visible(1));
    assert!(!scene.get(1).unwrap().visible);
    assert!(scene.toggle_visible(1));
    assert!(scene.get(1).unwrap().visible);

    let before: Vec<u64> = scene.iter().iter().map(|o| o.id).collect();
    assert!(!scene.toggle_visible(42));
    let after: Vec<u64> = scene.iter().iter().map(|o| o.id).collect();
    assert_eq!(before, after);
}

#[test]
fn iter_visible_filters_hidden_objects_but_iter_keeps_everyone() {
    let mut scene = scene_of(&[(None, "a"), (None, "b"), (None, "c")]);
    scene.toggle_visible(2);

    let all: Vec<u64> = scene.iter().iter().map(|o| o.id).collect();
    assert_eq!(all, [1, 2, 3]);
    let visible: Vec<u64> = scene.iter_visible().iter().map(|o| o.id).collect();
    assert_eq!(visible, [1, 3]);
    assert_eq!(scene.last().unwrap().id, 3);
}

#[test]
fn get_mut_grants_mutable_access_to_the_matching_object() {
    let mut scene = scene_of(&[(None, "a"), (None, "b")]);
    scene.get_mut(1).unwrap().name = "renamed".to_owned();
    assert_eq!(scene.get(1).unwrap().name, "renamed");
    assert!(scene.get_mut(42).is_none());
}

#[test]
fn add_then_remove_gives_back_the_payload_and_the_scene() {
    let mut scene = scene_of(&[(None, "a"), (None, "b")]);
    let id = scene.add(Payload(Some(box_from(Vec3::ZERO, Vec3::X))), "c".to_string());
    assert_eq!(scene.remove(id), Some(Payload(Some(box_from(Vec3::ZERO, Vec3::X)))));
    let ids: Vec<u64> = scene.iter().iter().map(|o| o.id).collect();
    assert_eq!(ids, [1, 2]);
    // The removed id is never handed out again.
    assert_eq!(scene.add(Payload(None), "d".to_string()), 4);
}

#[test]
fn toggling_twice_restores_visibility_and_keeps_the_objects() {
    let mut scene = scene_of(&[(None, "a"), (None, "b"), (None, "c")]);
    scene.toggle_visible(2);
    scene.toggle_visible(2);
    let visible: Vec<u64> = scene.iter_visible().iter().map(|o| o.id).collect();
    assert_eq!(visible, [1, 2, 3]);
    let names: Vec<&str> = scene.iter().iter().map(|o| o.name.as_str()).collect();
    assert_eq!(names, ["a", "b", "c"]);
}

#[test]
fn iter_mut_reaches_every_payload_in_add_order() {
    let mut scene = scene_of(&[(None, "a"), (None, "b")]);
    for object in scene.iter_mut().iter_mut() {
        object.object = Payload(Some(box_from(Vec3::ZERO, Vec3::ONE)));
    }
    assert!(scene
        .iter()
        .iter()
        .all(|o| o.object == Payload(Some(box_from(Vec3::ZERO, Vec3::ONE)))));
    assert!(scene.last().is_some());
    let empty: Scene<Payload, ()> = Scene::new(());
    assert!(empty.last().is_none());
    assert!(empty.iter_visible().is_empty());
}

#[test]
fn add_keeps_counting_after_an_id_is_edited_through_get_mut() {
    let mut scene: Scene<u8, ()> = Scene::new(());
    assert_eq!(scene.add(7, "a".to_string()), 1);
    scene.get_mut(1).unwrap().id = 0;
    assert_eq!(scene.add(8, "b".to_string()), 2);
    let ids: Vec<u64> = scene.iter().iter().map(|o| o.id).collect();
    assert_eq!(ids, vec![0, 2]);
}
