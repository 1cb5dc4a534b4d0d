use dojigiri::diagnostics::{Diagnostic, OverrideField};
use dojigiri::model::{Annotation, AnnotationKind, AnnotationSource, Entity, EntityType};
use dojigiri::parser::ParseError;
use dojigiri::resolver::{entity_type_name, resolve, resolve_directives, RawAnnotation};

fn src(line: usize) -> AnnotationSource {
    AnnotationSource::new("app.rs".to_string(), line)
}

fn ann(ctx: &str, line: usize, kind: AnnotationKind) -> Annotation {
    Annotation::new(ctx.to_string(), src(line), kind)
}

fn entity(id: &str, display: &str, t: EntityType) -> Entity {
    Entity::new(id.to_string(), display.to_string(), t)
}

#[test]
fn resolve_example_stream() {
    let annotations = vec![
        ann("CreateUser", 1, AnnotationKind::Process { name: "CreateUser".to_string() }),
        ann(
            "CreateUser",
            2,
            AnnotationKind::Flow { to: "User".to_string(), label: "user_data".to_string() },
        ),
        ann("User", 3, AnnotationKind::Type { entity_type: EntityType::DataStore }),
        ann("User", 4, AnnotationKind::Display { display_name: "User Repository".to_string() }),
    ];
    let r = resolve(&annotations);

    assert_eq!(
        r.graph.entities,
        vec![
            entity("CreateUser", "CreateUser", EntityType::Process),
            entity("User", "User Repository", EntityType::DataStore),
        ]
    );
    assert_eq!(r.graph.flows.len(), 1);
    assert_eq!(r.graph.flows[0].flow.from, "CreateUser");
    assert_eq!(r.graph.flows[0].flow.to, "User");
    assert_eq!(r.graph.flows[0].flow.label, "user_data");
    assert_eq!(r.diagnostics, vec![]);
}

#[test]
fn flow_target_materialized_with_defaults() {
    let annotations = vec![ann(
        "CreateUser",
        7,
        AnnotationKind::Flow { to: "User".to_string(), label: "user_data".to_string() },
    )];
    let r = resolve(&annotations);

    assert_eq!(
        r.graph.entities,
        vec![
            entity("CreateUser", "CreateUser", EntityType::Process),
            entity("User", "User", EntityType::Process),
        ]
    );
    assert_eq!(r.graph.flows.len(), 1);
    assert_eq!(r.graph.flows[0].flow.from, "CreateUser");
    assert_eq!(r.graph.flows[0].flow.to, "User");
    assert_eq!(r.graph.flows[0].flow.label, "user_data");
    assert_eq!(r.graph.flows[0].source, src(7));
    assert_eq!(r.diagnostics, vec![]);
}

#[test]
fn self_loop_kept_and_flagged() {
    let annotations = vec![ann(
        "Cache",
        9,
        AnnotationKind::Flow { to: "Cache".to_string(), label: "refresh".to_string() },
    )];
    let r = resolve(&annotations);

    assert_eq!(r.graph.entities, vec![entity("Cache", "Cache", EntityType::Process)]);
    assert_eq!(r.graph.flows.len(), 1);
    assert_eq!(r.graph.flows[0].flow.from, "Cache");
    assert_eq!(r.graph.flows[0].flow.to, "Cache");
    assert_eq!(r.graph.flows[0].flow.label, "refresh");
    assert_eq!(
        r.diagnostics,
        vec![Diagnostic::SelfLoopFlow { entity_id: "Cache".to_string(), source: src(9) }]
    );
}

#[test]
fn duplicate_display_override_reports_both_sources() {
    let annotations = vec![
        ann("User", 2, AnnotationKind::Display { display_name: "Users".to_string() }),
        ann("User", 5, AnnotationKind::Display { display_name: "User Repository".to_string() }),
    ];
    let r = resolve(&annotations);

    assert_eq!(
        r.graph.entities,
        vec![entity("User", "User Repository", EntityType::Process)]
    );
    assert_eq!(
        r.diagnostics,
        vec![Diagnostic::DuplicateOverride {
            entity_id: "User".to_string(),
            field: OverrideField::DisplayName,
            previous_value: "Users".to_string(),
            new_value: "User Repository".to_string(),
            previous_source: src(2),
            source: src(5),
        }]
    );
}

#[test]
fn duplicate_type_override_keeps_last_value() {
    let annotations = vec![
        ann("Store", 1, AnnotationKind::Type { entity_type: EntityType::DataStore }),
        ann("Store", 3, AnnotationKind::Type { entity_type: EntityType::ExternalEntity }),
    ];
    let r = resolve(&annotations);

    assert_eq!(
        r.graph.entities,
        vec![entity("Store", "Store", EntityType::ExternalEntity)]
    );
    assert_eq!(
        r.diagnostics,
        vec![Diagnostic::DuplicateOverride {
            entity_id: "Store".to_string(),
            field: OverrideField::EntityType,
            previous_value: "DataStore".to_string(),
            new_value: "ExternalEntity".to_string(),
            previous_source: src(1),
            source: src(3),
        }]
    );
}

#[test]
fn first_type_override_is_silent() {
    let annotations = vec![ann(
        "Store",
        1,
        AnnotationKind::Type { entity_type: EntityType::DataStore },
    )];
    let r = resolve(&annotations);

    assert_eq!(r.graph.entities, vec![entity("Store", "Store", EntityType::DataStore)]);
    assert_eq!(r.diagnostics, vec![]);
}

#[test]
fn duplicate_flows_are_both_kept() {
    let annotations = vec![
        ann("A", 1, AnnotationKind::Flow { to: "B".to_string(), label: "x".to_string() }),
        ann("A", 8, AnnotationKind::Flow { to: "B".to_string(), label: "x".to_string() }),
    ];
    let r = resolve(&annotations);

    assert_eq!(r.graph.flows.len(), 2);
    assert_eq!(r.graph.flows[0].flow, r.graph.flows[1].flow);
    assert_eq!(r.graph.flows[0].source, src(1));
    assert_eq!(r.graph.flows[1].source, src(8));
    assert_eq!(r.diagnostics, vec![]);
}

#[test]
fn process_declares_entity() {
    let annotations = vec![ann(
        "Billing",
        4,
        AnnotationKind::Process { name: "Billing".to_string() },
    )];
    let r = resolve(&annotations);

    assert_eq!(r.graph.entities, vec![entity("Billing", "Billing", EntityType::Process)]);
    assert_eq!(r.graph.flows.len(), 0);
    assert_eq!(r.diagnostics, vec![]);
}

#[test]
fn resolving_twice_yields_equal_results() {
    let annotations = vec![
        ann("A", 1, AnnotationKind::Flow { to: "B".to_string(), label: "x".to_string() }),
        ann("B", 2, AnnotationKind::Type { entity_type: EntityType::DataStore }),
        ann("A", 3, AnnotationKind::Display { display_name: "Alpha".to_string() }),
        ann("A", 4, AnnotationKind::Display { display_name: "Alpha Service".to_string() }),
    ];
    let r1 = resolve(&annotations);
    let r2 = resolve(&annotations);

    assert_eq!(r1.graph.entities, r2.graph.entities);
    assert_eq!(r1.graph.flows, r2.graph.flows);
    assert_eq!(r1.diagnostics, r2.diagnostics);
}

#[test]
fn independent_annotations_order_insensitive() {
    let a = ann("A", 1, AnnotationKind::Display { display_name: "Alpha".to_string() });
    let b = ann("B", 2, AnnotationKind::Flow { to: "C".to_string(), label: "y".to_string() });
    let r1 = resolve(&vec![a.clone(), b.clone()]);
    let r2 = resolve(&vec![b, a]);

    assert_eq!(r1.graph.entities.len(), r2.graph.entities.len());
    for e in &r1.graph.entities {
        assert!(r2.graph.entities.contains(e));
    }
    assert_eq!(r1.graph.flows.len(), r2.graph.flows.len());
    for f in &r1.graph.flows {
        assert!(r2.graph.flows.contains(f));
    }
    assert_eq!(r1.diagnostics.len(), r2.diagnostics.len());
    for d in &r1.diagnostics {
        assert!(r2.diagnostics.contains(d));
    }
}

fn raw(ctx: &str, line: usize, directive: &str, argument: &str) -> RawAnnotation {
    RawAnnotation {
        context_id: ctx.to_string(),
        source: src(line),
        directive: directive.to_string(),
        argument: argument.to_string(),
    }
}

#[test]
fn directives_default_mode_skips_and_reports() {
    let items = vec![
        raw("Svc", 1, "process", "Svc"),
        raw("Svc", 2, "type", "Foo"),
    ];
    let r = resolve_directives(&items, false).unwrap();

    // the malformed line is skipped: the entity keeps its default type
    assert_eq!(r.graph.entities, vec![entity("Svc", "Svc", EntityType::Process)]);
    assert_eq!(
        r.diagnostics,
        vec![Diagnostic::Parse {
            error: ParseError::UnknownEntityType("Foo".to_string()),
            source: src(2),
        }]
    );
}

#[test]
fn directives_fail_fast_aborts_with_first_error() {
    let items = vec![
        raw("Svc", 1, "process", "Svc"),
        raw("Svc", 2, "type", "Foo"),
        raw("Svc", 3, "display", "unquoted"),
    ];
    let r = resolve_directives(&items, true);

    assert_eq!(r.unwrap_err(), ParseError::UnknownEntityType("Foo".to_string()));
}

#[test]
fn directives_fail_fast_succeeds_when_all_parse() {
    let items = vec![
        raw("CreateUser", 1, "process", "CreateUser"),
        raw("CreateUser", 2, "flow", "-> User: user_data"),
        raw("User", 3, "type", "DataStore"),
        raw("User", 4, "display", "\"User Repository\""),
    ];
    let r = resolve_directives(&items, true).unwrap();

    assert_eq!(
        r.graph.entities,
        vec![
            entity("CreateUser", "CreateUser", EntityType::Process),
            entity("User", "User Repository", EntityType::DataStore),
        ]
    );
    assert_eq!(r.graph.flows.len(), 1);
    assert_eq!(r.diagnostics, vec![]);
}

#[test]
fn entity_lookup_by_id() {
    let annotations = vec![ann(
        "A",
        1,
        AnnotationKind::Flow { to: "B".to_string(), label: "x".to_string() },
    )];
    let r = resolve(&annotations);

    let found = r.graph.entity_by_id("B").unwrap();
    assert_eq!(*found, entity("B", "B", EntityType::Process));
    assert!(r.graph.entity_by_id("C").is_none());
}

#[test]
fn entity_type_names() {
    assert_eq!(entity_type_name(EntityType::Process), "Process");
    assert_eq!(entity_type_name(EntityType::DataStore), "DataStore");
    assert_eq!(entity_type_name(EntityType::ExternalEntity), "ExternalEntity");
}
