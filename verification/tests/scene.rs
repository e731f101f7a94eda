use dyadikos::entity::{ComponentSet, Fault};
use dyadikos::math::{Scalar, Transform};
use dyadikos::primitive::Model;
use dyadikos::scene::LoadError;
use dyadikos::{load, save};
use hecs::World;

fn rows(world: &World) -> Vec<ComponentSet> {
    let mut query = world.query::<(Option<&Transform>, Option<&Model>)>();
    query
        .iter()
        .map(|(_, (t, m))| ComponentSet { transform: t.cloned(), model: m.cloned() })
        .collect()
}

fn same_multiset(a: &[ComponentSet], b: &[ComponentSet]) -> bool {
    let mut rest: Vec<&ComponentSet> = b.iter().collect();
    for x in a {
        match rest.iter().position(|y| *y == x) {
            Some(i) => {
                rest.swap_remove(i);
            }
            None => return false,
        }
    }
    rest.is_empty()
}

fn scalar(text: &str) -> Scalar {
    Scalar::new(text).unwrap()
}

fn moved(x: &str, y: &str, z: &str) -> Transform {
    Transform { position: [scalar(x), scalar(y), scalar(z)], ..Transform::default() }
}

const QUAD_SCENE: &str = "[
\t{
\t\t\"Transform\": {
\t\t\t\"position\": [
\t\t\t\t0.0,
\t\t\t\t0.0,
\t\t\t\t0.0
\t\t\t],
\t\t\t\"rotation\": [
\t\t\t\t0.0,
\t\t\t\t0.0,
\t\t\t\t0.0,
\t\t\t\t1.0
\t\t\t],
\t\t\t\"scale\": [
\t\t\t\t1.0,
\t\t\t\t1.0,
\t\t\t\t1.0
\t\t\t]
\t\t},
\t\t\"Model\": {
\t\t\t\"texture\": null,
\t\t\t\"vertices\": [
\t\t\t\t{
\t\t\t\t\t\"pos\": [
\t\t\t\t\t\t-0.5,
\t\t\t\t\t\t-0.5,
\t\t\t\t\t\t0.0
\t\t\t\t\t],
\t\t\t\t\t\"uv\": [
\t\t\t\t\t\t0.0,
\t\t\t\t\t\t0.0
\t\t\t\t\t]
\t\t\t\t},
\t\t\t\t{
\t\t\t\t\t\"pos\": [
\t\t\t\t\t\t0.5,
\t\t\t\t\t\t-0.5,
\t\t\t\t\t\t0.0
\t\t\t\t\t],
\t\t\t\t\t\"uv\": [
\t\t\t\t\t\t1.0,
\t\t\t\t\t\t0.0
\t\t\t\t\t]
\t\t\t\t},
\t\t\t\t{
\t\t\t\t\t\"pos\": [
\t\t\t\t\t\t0.5,
\t\t\t\t\t\t0.5,
\t\t\t\t\t\t0.0
\t\t\t\t\t],
\t\t\t\t\t\"uv\": [
\t\t\t\t\t\t1.0,
\t\t\t\t\t\t1.0
\t\t\t\t\t]
\t\t\t\t},
\t\t\t\t{
\t\t\t\t\t\"pos\": [
\t\t\t\t\t\t-0.5,
\t\t\t\t\t\t0.5,
\t\t\t\t\t\t0.0
\t\t\t\t\t],
\t\t\t\t\t\"uv\": [
\t\t\t\t\t\t0.0,
\t\t\t\t\t\t1.0
\t\t\t\t\t]
\t\t\t\t}
\t\t\t],
\t\t\t\"indices\": [
\t\t\t\t0,
\t\t\t\t1,
\t\t\t\t2,
\t\t\t\t0,
\t\t\t\t2,
\t\t\t\t3
\t\t\t]
\t\t}
\t}
]";

#[test]
fn test_serialization() {
    let mut demo_world = World::default();
    demo_world.spawn((1, Transform::default(), Model::quad(None)));
    let text = save(&mut demo_world);

    let loaded_world = load(&text).unwrap();

    let mut entities = loaded_world.query::<&Transform>();
    let loaded_entity = entities.iter().next().unwrap();

    assert_eq!(&Transform::default(), loaded_entity.1);
}

#[test]
fn quad_scene_is_written_with_tabs() {
    let mut world = World::new();
    world.spawn((Transform::default(), Model::quad(None)));
    assert_eq!(save(&mut world), QUAD_SCENE);
}

#[test]
fn quad_scene_loads_as_one_entity() {
    let world = load(QUAD_SCENE).unwrap();
    assert_eq!(world.len(), 1);
    assert_eq!(
        rows(&world),
        vec![ComponentSet {
            transform: Some(Transform::default()),
            model: Some(Model::quad(None)),
        }]
    );
}

#[test]
fn round_trip_keeps_the_multiset_of_entities() {
    let mut world = World::new();
    world.spawn((moved("1.5", "-2.0", "0.25"), Model::quad(Some("wall.png".to_string()))));
    world.spawn((moved("3.0", "0.0", "0.0"),));
    world.spawn((Model::quad(None),));
    world.spawn(());
    world.spawn((moved("3.0", "0.0", "0.0"),));
    world.spawn(("a name", 12_u8));
    let before = rows(&world);
    assert_eq!(before.len(), 6);

    let text = save(&mut world);
    let loaded = load(&text).unwrap();

    assert_eq!(loaded.len(), 6);
    assert!(same_multiset(&before, &rows(&loaded)));
}

#[test]
fn saving_leaves_the_world_as_it_was() {
    let mut world = World::new();
    world.spawn((moved("1.0", "2.0", "3.0"), 5_i32));
    world.spawn((Model::quad(None),));
    let before = rows(&world);
    save(&mut world);
    assert_eq!(rows(&world), before);
    assert_eq!(world.query::<&i32>().iter().count(), 1);
}

#[test]
fn saving_twice_gives_the_same_bytes() {
    let mut world = World::new();
    world.spawn((Transform::default(), Model::quad(Some("grass.png".to_string()))));
    world.spawn(());
    world.spawn((moved("0.5", "0.5", "0.5"),));
    let first = save(&mut world);
    let second = save(&mut world);
    assert_eq!(first.as_bytes(), second.as_bytes());
}

#[test]
fn entity_without_components_is_an_empty_record() {
    let mut world = World::new();
    world.spawn(());
    assert_eq!(save(&mut world), "[\n\t{}\n]");

    let loaded = load("[\n\t{}\n]").unwrap();
    assert_eq!(rows(&loaded), vec![ComponentSet { transform: None, model: None }]);
}

#[test]
fn components_of_other_types_are_not_written() {
    let mut world = World::new();
    world.spawn((1_i32, "label"));
    assert_eq!(save(&mut world), "[\n\t{}\n]");
}

#[test]
fn empty_world_is_an_empty_array() {
    let mut world = World::new();
    assert_eq!(save(&mut world), "[]");
    assert_eq!(load("[]").unwrap().len(), 0);
    assert_eq!(load(" \n[\t ]\r\n").unwrap().len(), 0);
}

#[test]
fn records_load_in_document_order() {
    let text = "[{}, {\"Transform\": {\"position\": [1, 2, 3], \"rotation\": [0, 0, 0, 1], \"scale\": [1, 1, 1]}}, {}]";
    let world = load(text).unwrap();
    assert_eq!(world.len(), 3);
    let found = rows(&world);
    let with_transform: Vec<&ComponentSet> =
        found.iter().filter(|set| set.transform.is_some()).collect();
    assert_eq!(with_transform.len(), 1);
    let t = with_transform[0].transform.as_ref().unwrap();
    assert_eq!(t.position[0].as_str(), "1");
    assert_eq!(t.position[1].as_str(), "2");
    assert_eq!(t.position[2].as_str(), "3");
    assert_eq!(t.rotation[3].as_str(), "1");
}

#[test]
fn unknown_tag_fails_the_load() {
    let text = "[{\"Camera\": {\"fov\": 90}}]";
    assert_eq!(
        load(text).err(),
        Some(LoadError::Entity { record: 0, fault: Fault::UnknownTag, tag: "Camera".to_string() })
    );
}

#[test]
fn tags_are_case_sensitive() {
    let text = "[{\"transform\": {}}]";
    assert_eq!(
        load(text).err(),
        Some(LoadError::Entity {
            record: 0,
            fault: Fault::UnknownTag,
            tag: "transform".to_string()
        })
    );
}

#[test]
fn duplicate_tag_fails_the_load() {
    let transform = "{\"position\": [0, 0, 0], \"rotation\": [0, 0, 0, 1], \"scale\": [1, 1, 1]}";
    let text = format!("[{{\"Transform\": {}, \"Transform\": {}}}]", transform, transform);
    assert_eq!(
        load(&text).err(),
        Some(LoadError::Entity {
            record: 0,
            fault: Fault::DuplicateTag,
            tag: "Transform".to_string()
        })
    );
}

#[test]
fn duplicate_tag_is_seen_before_its_value_is_read() {
    let transform = "{\"position\": [0, 0, 0], \"rotation\": [0, 0, 0, 1], \"scale\": [1, 1, 1]}";
    let text = format!("[{{\"Transform\": {}, \"Transform\": 7}}]", transform);
    assert_eq!(
        load(&text).err(),
        Some(LoadError::Entity {
            record: 0,
            fault: Fault::DuplicateTag,
            tag: "Transform".to_string()
        })
    );
}

#[test]
fn one_bad_record_after_good_ones_fails_the_whole_load() {
    let good = "{\"Transform\": {\"position\": [0, 0, 0], \"rotation\": [0, 0, 0, 1], \"scale\": [1, 1, 1]}}";
    let bad = "{\"Transform\": {\"position\": [0, 0], \"rotation\": [0, 0, 0, 1], \"scale\": [1, 1, 1]}}";
    let text = format!("[{}, {}, {}, {}]", good, good, good, bad);
    assert_eq!(
        load(&text).err(),
        Some(LoadError::Entity { record: 3, fault: Fault::Decode, tag: "Transform".to_string() })
    );
}

#[test]
fn first_bad_record_is_the_one_reported() {
    let text = "[{}, {\"Model\": 1}, {\"Nope\": 1}]";
    assert_eq!(
        load(text).err(),
        Some(LoadError::Entity { record: 1, fault: Fault::Decode, tag: "Model".to_string() })
    );
}

#[test]
fn text_that_is_no_document_is_a_syntax_error() {
    assert_eq!(load("").err(), Some(LoadError::Syntax { offset: 0 }));
    assert_eq!(load("   ").err(), Some(LoadError::Syntax { offset: 3 }));
    assert_eq!(load("{}").err(), Some(LoadError::Syntax { offset: 0 }));
    assert_eq!(load("[").err(), Some(LoadError::Syntax { offset: 1 }));
    assert_eq!(load("[{}").err(), Some(LoadError::Syntax { offset: 3 }));
    assert_eq!(load("[{},]").err(), Some(LoadError::Syntax { offset: 4 }));
    assert_eq!(load("[{} {}]").err(), Some(LoadError::Syntax { offset: 4 }));
    assert_eq!(load("[] x").err(), Some(LoadError::Syntax { offset: 3 }));
    assert_eq!(load("[1]").err(), Some(LoadError::Syntax { offset: 1 }));
    assert_eq!(load("[{\"Transform\" 1}]").err(), Some(LoadError::Syntax { offset: 14 }));
    assert_eq!(load("[{\"Transform\": }]").err(), Some(LoadError::Syntax { offset: 14 }));
    assert_eq!(load("[{\"Transform\": 1,}]").err(), Some(LoadError::Syntax { offset: 17 }));
    assert_eq!(load("[{1: 2}]").err(), Some(LoadError::Syntax { offset: 2 }));
    assert_eq!(load("[{\"Transform\": tru}]").err(), Some(LoadError::Syntax { offset: 14 }));
}

#[test]
fn syntax_is_checked_before_any_record_is_read() {
    let text = "[{\"Camera\": 1}, {]";
    assert_eq!(load(text).err(), Some(LoadError::Syntax { offset: 17 }));
}

#[test]
fn numbers_keep_the_text_that_serde_json_gives_them() {
    let text = "[{\"Transform\": {\"position\": [1E2, 2.50, -0], \"rotation\": [0, 0, 0, 1e0], \"scale\": [1, 1, 123456789012345678901234567890.5]}}]";
    let mut world = load(text).unwrap();
    let found = rows(&world);
    let t = found[0].transform.as_ref().unwrap();
    assert_eq!(t.position[0].as_str(), "1e+2");
    assert_eq!(t.position[1].as_str(), "2.50");
    assert_eq!(t.position[2].as_str(), "-0");
    assert_eq!(t.rotation[3].as_str(), "1e+0");
    assert_eq!(t.scale[2].as_str(), "123456789012345678901234567890.5");
    let again = load(&save(&mut world)).unwrap();
    assert_eq!(rows(&again), found);
}

#[test]
fn strings_are_escaped_and_read_back() {
    let name = "dir\\tex \"one\"\n\u{e9}\u{1F600}.png";
    let mut world = World::new();
    world.spawn((Model::quad(Some(name.to_string())),));
    let text = save(&mut world);
    assert!(text.contains("\"texture\": \"dir\\\\tex \\\"one\\\"\\n\u{e9}\u{1F600}.png\""));
    let loaded = load(&text).unwrap();
    assert_eq!(rows(&loaded)[0].model.as_ref().unwrap().texture.as_deref(), Some(name));
}
