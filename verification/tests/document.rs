use dyadikos::document::{parse_document, render_document};
use dyadikos::entity::ComponentSet;
use dyadikos::math::Transform;
use dyadikos::primitive::Model;
use dyadikos::registry::create_registry;
use dyadikos::scene::{load_document, save_document, LoadError};
use dyadikos::entity::Fault;
use dyadikos::world::spawn;
use hecs::World;
use serde_json::Value;

fn json(text: &str) -> Value {
    serde_json::from_str(text).unwrap()
}

#[test]
fn records_keep_order_and_repeated_tags() {
    let text = b"[ {\"b\": 1, \"a\": [true, {\"x\": null}], \"b\": \"two\"} , {} ]";
    let doc = parse_document(text).unwrap();
    assert_eq!(
        doc,
        vec![
            vec![
                ("b".to_string(), json("1")),
                ("a".to_string(), json("[true, {\"x\": null}]")),
                ("b".to_string(), json("\"two\"")),
            ],
            vec![],
        ]
    );
}

#[test]
fn keys_are_unescaped() {
    let doc = parse_document(b"[{\"a\\n\\u0041\": 0}]").unwrap();
    assert_eq!(doc[0][0].0, "a\nA");
}

#[test]
fn bytes_that_are_no_text_are_a_syntax_error() {
    assert_eq!(parse_document(b"[{\"\xff\": 0}]"), Err(2));
    assert_eq!(parse_document(b"\xef\xbb\xbf[]"), Err(0));
}

#[test]
fn document_is_written_as_an_array_of_objects() {
    let doc = vec![
        vec![("Transform".to_string(), json("{\"k\": [1, 2]}")), ("Model".to_string(), json("null"))],
        vec![],
        vec![("Model".to_string(), json("\"m\""))],
    ];
    assert_eq!(
        render_document(doc),
        "[\n\t{\n\t\t\"Transform\": {\n\t\t\t\"k\": [\n\t\t\t\t1,\n\t\t\t\t2\n\t\t\t]\n\t\t},\n\t\t\"Model\": null\n\t},\n\t{},\n\t{\n\t\t\"Model\": \"m\"\n\t}\n]"
    );
    assert_eq!(render_document(Vec::new()), "[]");
}

#[test]
fn written_document_parses_back() {
    let doc = vec![
        vec![("Transform".to_string(), json("{\"k\": [1.50, -2e+3]}"))],
        vec![("z".to_string(), json("\"\\\"\"")), ("a".to_string(), json("{}"))],
    ];
    let text = render_document(doc.clone());
    assert_eq!(parse_document(text.as_bytes()), Ok(doc));
}

#[test]
fn world_is_saved_as_one_record_for_each_entity() {
    let registry = create_registry();
    let mut world = World::new();
    world.spawn((Transform::default(),));
    world.spawn((Transform::default(),));
    world.spawn((Transform::default(), Model::quad(None)));
    let doc = save_document(&registry, &mut world);
    assert_eq!(doc.len(), 3);
    let sizes: Vec<usize> = doc.iter().map(|record| record.len()).collect();
    assert_eq!(sizes.iter().filter(|n| **n == 1).count(), 2);
    assert_eq!(sizes.iter().filter(|n| **n == 2).count(), 1);
    assert_eq!(world.len(), 3);
}

#[test]
fn document_is_loaded_as_one_entity_for_each_record() {
    let registry = create_registry();
    let mut world = World::new();
    world.spawn((Transform::default(), Model::quad(None)));
    world.spawn(());
    let doc = save_document(&registry, &mut world);
    let loaded = load_document(&registry, &doc).unwrap();
    assert_eq!(loaded.len(), 2);
    assert_eq!(loaded.query::<&Transform>().iter().count(), 1);
    assert_eq!(loaded.query::<&Model>().iter().count(), 1);
    assert_eq!(loaded.query::<(&Transform, &Model)>().iter().count(), 1);
}

#[test]
fn document_with_a_bad_record_gives_no_world() {
    let registry = create_registry();
    let doc = vec![vec![], vec![], vec![("Transform".to_string(), json("[]"))], vec![]];
    assert_eq!(
        load_document(&registry, &doc).err(),
        Some(LoadError::Entity { record: 2, fault: Fault::Decode, tag: "Transform".to_string() })
    );
}

#[test]
fn spawn_attaches_the_components_of_a_set() {
    let mut world = World::new();
    spawn(&mut world, ComponentSet { transform: Some(Transform::default()), model: None });
    spawn(&mut world, ComponentSet { transform: None, model: Some(Model::quad(None)) });
    spawn(&mut world, ComponentSet::new());
    spawn(
        &mut world,
        ComponentSet { transform: Some(Transform::default()), model: Some(Model::quad(None)) },
    );
    assert_eq!(world.len(), 4);
    assert_eq!(world.query::<&Transform>().iter().count(), 2);
    assert_eq!(world.query::<&Model>().iter().count(), 2);
    assert_eq!(world.query::<(&Transform, &Model)>().iter().count(), 1);
    let mut query = world.query::<&Model>();
    for (_, model) in query.iter() {
        assert_eq!(model, &Model::quad(None));
    }
}
