use dyadikos::registry::{create_registry, ComponentId, Registry};

#[test]
fn standard_registry_holds_transform_then_model() {
    let registry = create_registry();
    assert_eq!(registry.len(), 2);
    assert_eq!(registry.get(0), ComponentId::Transform);
    assert_eq!(registry.get(1), ComponentId::Model);
}

#[test]
fn registering_twice_changes_nothing() {
    let mut registry = Registry::new();
    assert_eq!(registry.len(), 0);
    registry.register(ComponentId::Model);
    registry.register(ComponentId::Model);
    assert_eq!(registry.len(), 1);
    registry.register(ComponentId::Transform);
    registry.register(ComponentId::Model);
    assert_eq!(registry.len(), 2);
    assert_eq!(registry.get(0), ComponentId::Model);
    assert_eq!(registry.get(1), ComponentId::Transform);
}

#[test]
fn tags_name_their_kinds() {
    assert_eq!(ComponentId::Transform.tag(), "Transform");
    assert_eq!(ComponentId::Model.tag(), "Model");
    assert_eq!(ComponentId::from_tag("Transform"), Some(ComponentId::Transform));
    assert_eq!(ComponentId::from_tag("Model"), Some(ComponentId::Model));
    assert_eq!(ComponentId::from_tag("model"), None);
    assert_eq!(ComponentId::from_tag("Transform "), None);
    assert_eq!(ComponentId::from_tag(""), None);
}

#[test]
fn lookup_finds_registered_kinds_only() {
    let mut registry = Registry::new();
    assert_eq!(registry.lookup("Transform"), None);
    assert!(!registry.contains(ComponentId::Transform));
    registry.register(ComponentId::Transform);
    assert!(registry.contains(ComponentId::Transform));
    assert!(!registry.contains(ComponentId::Model));
    assert_eq!(registry.lookup("Transform"), Some(ComponentId::Transform));
    assert_eq!(registry.lookup("Model"), None);
    assert_eq!(registry.lookup("Mesh"), None);
}
