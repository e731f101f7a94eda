use dyadikos::codec::{decode_model, decode_transform, encode_model, encode_transform};
use dyadikos::entity::{
    deserialize_entity, deserialize_for, serialize_entity, serialize_for, ComponentSet,
    EntityError, Fault,
};
use dyadikos::math::{Scalar, Transform};
use dyadikos::primitive::Model;
use dyadikos::registry::{create_registry, ComponentId, Registry};
use serde_json::Value;

fn json(text: &str) -> Value {
    serde_json::from_str(text).unwrap()
}

fn num(text: &str) -> Scalar {
    Scalar::new(text).unwrap()
}

fn both() -> ComponentSet {
    ComponentSet { transform: Some(Transform::default()), model: Some(Model::quad(None)) }
}

fn keys(record: &[(String, Value)]) -> Vec<&str> {
    record.iter().map(|entry| entry.0.as_str()).collect()
}

const IDENTITY: &str =
    "{\"position\": [0.0, 0.0, 0.0], \"rotation\": [0.0, 0.0, 0.0, 1.0], \"scale\": [1.0, 1.0, 1.0]}";

#[test]
fn transform_is_written_as_three_arrays() {
    assert_eq!(encode_transform(&Transform::default()), json(IDENTITY));
    let t = Transform {
        position: [num("1"), num("-2.5"), num("3e+2")],
        rotation: [num("0.1"), num("0.2"), num("0.3"), num("0.4")],
        scale: [num("2"), num("2"), num("2")],
    };
    let text = serde_json::to_string(&encode_transform(&t)).unwrap();
    assert_eq!(
        text,
        "{\"position\":[1,-2.5,3e+2],\"rotation\":[0.1,0.2,0.3,0.4],\"scale\":[2,2,2]}"
    );
}

#[test]
fn transform_is_read_from_its_shape() {
    assert_eq!(decode_transform(&json(IDENTITY)), Some(Transform::default()));
    let shuffled = "{\"scale\": [1.0, 1.0, 1.0], \"note\": true, \"position\": [0.0, 0.0, 0.0], \"rotation\": [0.0, 0.0, 0.0, 1.0]}";
    assert_eq!(decode_transform(&json(shuffled)), Some(Transform::default()));
}

#[test]
fn transform_of_another_shape_is_not_read() {
    let cases = [
        "null",
        "7",
        "[]",
        "{}",
        "[[0, 0, 0], [0, 0, 0, 1], [1, 1, 1]]",
        "{\"position\": [0, 0, 0], \"rotation\": [0, 0, 0, 1]}",
        "{\"position\": [0, 0], \"rotation\": [0, 0, 0, 1], \"scale\": [1, 1, 1]}",
        "{\"position\": [0, 0, 0, 0], \"rotation\": [0, 0, 0, 1], \"scale\": [1, 1, 1]}",
        "{\"position\": [0, 0, 0], \"rotation\": [0, 0, 1], \"scale\": [1, 1, 1]}",
        "{\"position\": [0, 0, \"0\"], \"rotation\": [0, 0, 0, 1], \"scale\": [1, 1, 1]}",
        "{\"position\": [0, 0, null], \"rotation\": [0, 0, 0, 1], \"scale\": [1, 1, 1]}",
        "{\"position\": {\"x\": 0}, \"rotation\": [0, 0, 0, 1], \"scale\": [1, 1, 1]}",
        "{\"Position\": [0, 0, 0], \"rotation\": [0, 0, 0, 1], \"scale\": [1, 1, 1]}",
    ];
    for case in cases {
        assert_eq!(decode_transform(&json(case)), None, "{}", case);
    }
}

#[test]
fn model_is_written_with_texture_vertices_and_indices() {
    let text = serde_json::to_string(&encode_model(&Model::quad(Some("a.png".to_string())))).unwrap();
    assert_eq!(
        text,
        "{\"texture\":\"a.png\",\"vertices\":[\
         {\"pos\":[-0.5,-0.5,0.0],\"uv\":[0.0,0.0]},\
         {\"pos\":[0.5,-0.5,0.0],\"uv\":[1.0,0.0]},\
         {\"pos\":[0.5,0.5,0.0],\"uv\":[1.0,1.0]},\
         {\"pos\":[-0.5,0.5,0.0],\"uv\":[0.0,1.0]}],\
         \"indices\":[0,1,2,0,2,3]}"
    );
    let bare = Model { texture: None, vertices: vec![], indices: vec![-32768, 32767, -1] };
    assert_eq!(
        serde_json::to_string(&encode_model(&bare)).unwrap(),
        "{\"texture\":null,\"vertices\":[],\"indices\":[-32768,32767,-1]}"
    );
}

#[test]
fn model_is_read_from_its_shape() {
    let quad = encode_model(&Model::quad(None));
    assert_eq!(decode_model(&quad), Some(Model::quad(None)));
    let no_texture = "{\"indices\": [5, -5], \"vertices\": []}";
    assert_eq!(
        decode_model(&json(no_texture)),
        Some(Model { texture: None, vertices: vec![], indices: vec![5, -5] })
    );
    let named = "{\"texture\": \"t.png\", \"vertices\": [], \"indices\": []}";
    assert_eq!(
        decode_model(&json(named)),
        Some(Model { texture: Some("t.png".to_string()), vertices: vec![], indices: vec![] })
    );
}

#[test]
fn model_of_another_shape_is_not_read() {
    let cases = [
        "null",
        "{}",
        "{\"texture\": null, \"vertices\": []}",
        "{\"texture\": null, \"indices\": []}",
        "{\"texture\": 3, \"vertices\": [], \"indices\": []}",
        "{\"texture\": [\"a\"], \"vertices\": [], \"indices\": []}",
        "{\"texture\": null, \"vertices\": {}, \"indices\": []}",
        "{\"texture\": null, \"vertices\": [], \"indices\": 0}",
        "{\"texture\": null, \"vertices\": [], \"indices\": [1.0]}",
        "{\"texture\": null, \"vertices\": [], \"indices\": [1e+1]}",
        "{\"texture\": null, \"vertices\": [], \"indices\": [-0]}",
        "{\"texture\": null, \"vertices\": [], \"indices\": [\"1\"]}",
        "{\"texture\": null, \"vertices\": [], \"indices\": [32768]}",
        "{\"texture\": null, \"vertices\": [], \"indices\": [-32769]}",
        "{\"texture\": null, \"vertices\": [], \"indices\": [99999999999999999999]}",
        "{\"texture\": null, \"vertices\": [{\"pos\": [0, 0, 0]}], \"indices\": []}",
        "{\"texture\": null, \"vertices\": [{\"pos\": [0, 0], \"uv\": [0, 0]}], \"indices\": []}",
        "{\"texture\": null, \"vertices\": [{\"pos\": [0, 0, 0], \"uv\": [0, 0, 0]}], \"indices\": []}",
        "{\"texture\": null, \"vertices\": [[0, 0, 0, 0, 0]], \"indices\": []}",
    ];
    for case in cases {
        assert_eq!(decode_model(&json(case)), None, "{}", case);
    }
}

#[test]
fn record_follows_registry_order() {
    let standard = create_registry();
    assert_eq!(keys(&serialize_entity(&standard, &both())), vec!["Transform", "Model"]);

    let mut reversed = Registry::new();
    reversed.register(ComponentId::Model);
    reversed.register(ComponentId::Transform);
    assert_eq!(keys(&serialize_entity(&reversed, &both())), vec!["Model", "Transform"]);
}

#[test]
fn record_has_no_key_for_a_missing_component() {
    let registry = create_registry();
    let only_model = ComponentSet { transform: None, model: Some(Model::quad(None)) };
    let record = serialize_entity(&registry, &only_model);
    assert_eq!(keys(&record), vec!["Model"]);
    assert_eq!(record[0].1, encode_model(&Model::quad(None)));
    assert!(serialize_entity(&registry, &ComponentSet::new()).is_empty());
}

#[test]
fn record_has_no_key_for_an_unregistered_kind() {
    let mut registry = Registry::new();
    registry.register(ComponentId::Transform);
    assert_eq!(keys(&serialize_entity(&registry, &both())), vec!["Transform"]);
    assert!(serialize_entity(&Registry::new(), &both()).is_empty());
}

#[test]
fn record_reads_back_as_the_same_components() {
    let registry = create_registry();
    let sets = [
        both(),
        ComponentSet::new(),
        ComponentSet { transform: Some(Transform::default()), model: None },
        ComponentSet { transform: None, model: Some(Model::quad(Some("x".to_string()))) },
    ];
    for set in sets {
        let record = serialize_entity(&registry, &set);
        assert_eq!(deserialize_entity(&registry, &record), Ok(set));
    }
}

#[test]
fn empty_record_reads_as_no_components() {
    let registry = create_registry();
    assert_eq!(deserialize_entity(&registry, &Vec::new()), Ok(ComponentSet::new()));
}

#[test]
fn entries_are_read_in_any_order() {
    let registry = create_registry();
    let record = vec![
        ("Model".to_string(), encode_model(&Model::quad(None))),
        ("Transform".to_string(), json(IDENTITY)),
    ];
    assert_eq!(deserialize_entity(&registry, &record), Ok(both()));
}

#[test]
fn unknown_tag_is_rejected() {
    let registry = create_registry();
    let record = vec![("Transform".to_string(), json(IDENTITY)), ("Light".to_string(), json("1"))];
    assert_eq!(
        deserialize_entity(&registry, &record),
        Err(EntityError { fault: Fault::UnknownTag, tag: "Light".to_string() })
    );
}

#[test]
fn tag_of_an_unregistered_kind_is_unknown() {
    let mut registry = Registry::new();
    registry.register(ComponentId::Transform);
    let record = vec![("Model".to_string(), encode_model(&Model::quad(None)))];
    assert_eq!(
        deserialize_entity(&registry, &record),
        Err(EntityError { fault: Fault::UnknownTag, tag: "Model".to_string() })
    );
}

#[test]
fn duplicate_tag_is_rejected() {
    let registry = create_registry();
    let record = vec![
        ("Model".to_string(), encode_model(&Model::quad(None))),
        ("Transform".to_string(), json(IDENTITY)),
        ("Model".to_string(), encode_model(&Model::quad(None))),
    ];
    assert_eq!(
        deserialize_entity(&registry, &record),
        Err(EntityError { fault: Fault::DuplicateTag, tag: "Model".to_string() })
    );
}

#[test]
fn value_of_the_wrong_shape_is_rejected() {
    let registry = create_registry();
    let record = vec![("Transform".to_string(), encode_model(&Model::quad(None)))];
    assert_eq!(
        deserialize_entity(&registry, &record),
        Err(EntityError { fault: Fault::Decode, tag: "Transform".to_string() })
    );
}

#[test]
fn first_fault_of_a_record_is_the_one_reported() {
    let registry = create_registry();
    let record = vec![
        ("Transform".to_string(), json("null")),
        ("Transform".to_string(), json(IDENTITY)),
        ("Light".to_string(), json("1")),
    ];
    assert_eq!(
        deserialize_entity(&registry, &record),
        Err(EntityError { fault: Fault::Decode, tag: "Transform".to_string() })
    );
}

#[test]
fn serialize_for_dispatches_on_the_kind() {
    let set = ComponentSet { transform: Some(Transform::default()), model: None };
    assert_eq!(serialize_for(ComponentId::Transform, &set), Some(json(IDENTITY)));
    assert_eq!(serialize_for(ComponentId::Model, &set), None);
}

#[test]
fn deserialize_for_fills_the_set_or_leaves_it() {
    let mut set = ComponentSet::new();
    assert!(deserialize_for(ComponentId::Transform, &json(IDENTITY), &mut set));
    assert_eq!(set, ComponentSet { transform: Some(Transform::default()), model: None });
    assert!(!deserialize_for(ComponentId::Model, &json(IDENTITY), &mut set));
    assert_eq!(set, ComponentSet { transform: Some(Transform::default()), model: None });
    assert!(set.has(ComponentId::Transform));
    assert!(!set.has(ComponentId::Model));
}

#[test]
fn plain_numbers_are_written_as_they_stand() {
    let texts = [
        "0", "-0", "7", "-12", "18446744073709551615", "18446744073709551616",
        "-9223372036854775808", "-9223372036854775809", "0.0", "-0.0", "12.340", "0.000001",
        "1e+0", "1e-7", "0e+0", "-3.25e+12", "1e+400", "123456789012345678901234567890.5",
    ];
    for text in texts {
        let t = Transform {
            position: [num(text), num("0"), num("0")],
            ..Transform::default()
        };
        let value = encode_transform(&t);
        let written = serde_json::to_string(&value["position"][0]).unwrap();
        assert_eq!(written, text);
        assert_eq!(decode_transform(&value), Some(t));
    }
}
