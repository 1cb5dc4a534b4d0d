use dojigiri::model::{AnnotationKind, AnnotationSource, DataFlow, Entity, EntityType};

#[test]
fn test_entity_new() {
    let entity = Entity::new(
        "user".to_string(),
        "User".to_string(),
        EntityType::DataStore,
    );

    assert_eq!(entity.id, "user");
    assert_eq!(entity.display_name, "User");
    assert_eq!(entity.entity_type, EntityType::DataStore);
}

#[test]
fn test_entity_process() {
    let entity = Entity::new(
        "create_user".to_string(),
        "Create User".to_string(),
        EntityType::Process,
    );

    assert_eq!(entity.entity_type, EntityType::Process);
}

#[test]
fn test_entity_external_entity() {
    let entity = Entity::new(
        "external_api".to_string(),
        "External API".to_string(),
        EntityType::ExternalEntity,
    );

    assert_eq!(entity.entity_type, EntityType::ExternalEntity);
}

#[test]
fn test_entity_equality() {
    let entity1 = Entity::new(
        "user".to_string(),
        "User".to_string(),
        EntityType::DataStore,
    );
    let entity2 = Entity::new(
        "user".to_string(),
        "User".to_string(),
        EntityType::DataStore,
    );
    let entity3 = Entity::new(
        "user".to_string(),
        "User Entity".to_string(),
        EntityType::DataStore,
    );

    assert_eq!(entity1, entity2);
    assert_ne!(entity1, entity3);
}

#[test]
fn test_dataflow_new() {
    let flow = DataFlow::new(
        "User".to_string(),
        "CreateUser".to_string(),
        "user_data".to_string(),
    );

    assert_eq!(flow.from, "User");
    assert_eq!(flow.to, "CreateUser");
    assert_eq!(flow.label, "user_data");
}

#[test]
fn test_dataflow_equality() {
    let flow1 = DataFlow::new(
        "User".to_string(),
        "CreateUser".to_string(),
        "user_data".to_string(),
    );
    let flow2 = DataFlow::new(
        "User".to_string(),
        "CreateUser".to_string(),
        "user_data".to_string(),
    );
    let flow3 = DataFlow::new(
        "User".to_string(),
        "CreateUser".to_string(),
        "different_label".to_string(),
    );

    assert_eq!(flow1, flow2);
    assert_ne!(flow1, flow3);
}

#[test]
fn test_annotationsource_new() {
    let source = AnnotationSource::new("src/model.rs".to_string(), 10);

    assert_eq!(source.file_path, "src/model.rs");
    assert_eq!(source.line_number, 10);
    assert_eq!(source.column_number, None);
}

#[test]
fn test_annotationsource_with_column() {
    let source = AnnotationSource::with_column("src/model.rs".to_string(), 10, 5);

    assert_eq!(source.file_path, "src/model.rs");
    assert_eq!(source.line_number, 10);
    assert_eq!(source.column_number, Some(5));
}

#[test]
fn test_annotationsource_equality() {
    let source1 = AnnotationSource::new("src/model.rs".to_string(), 10);
    let source2 = AnnotationSource::new("src/model.rs".to_string(), 10);
    let source3 = AnnotationSource::new("src/model.rs".to_string(), 20);
    let source4 = AnnotationSource::with_column("src/model.rs".to_string(), 10, 5);

    assert_eq!(source1, source2);
    assert_ne!(source1, source3);
    assert_ne!(source1, source4);
}

#[test]
fn test_annotationkind_type() {
    let kind = AnnotationKind::Type {
        entity_type: EntityType::DataStore,
    };

    match kind {
        AnnotationKind::Type { entity_type } => assert_eq!(entity_type, EntityType::DataStore),
        _ => panic!("Expected Type variant"),
    }
}

#[test]
fn test_annotationkind_display() {
    let kind = AnnotationKind::Display {
        display_name: "User Repository".to_string(),
    };

    match kind {
        AnnotationKind::Display { display_name } => assert_eq!(display_name, "User Repository"),
        _ => panic!("Expected Display variant"),
    }
}

#[test]
fn test_annotationkind_flow() {
    let kind = AnnotationKind::Flow {
        to: "CreateUser".to_string(),
        label: "user_data".to_string(),
    };

    match kind {
        AnnotationKind::Flow { to, label } => {
            assert_eq!(to, "CreateUser");
            assert_eq!(label, "user_data");
        }
        _ => panic!("Expected Flow variant"),
    }
}

#[test]
fn test_annotationkind_process() {
    let kind = AnnotationKind::Process {
        name: "CreateUser".to_string(),
    };

    match kind {
        AnnotationKind::Process { name } => assert_eq!(name, "CreateUser"),
        _ => panic!("Expected Process variant"),
    }
}
