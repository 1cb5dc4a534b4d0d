use dojigiri::model::{AnnotationKind, EntityType};
use dojigiri::parser::{parse_annotation, ParseError};

#[test]
fn parse_type_process() {
    let r = parse_annotation("type", "Process");
    assert_eq!(
        r,
        Ok(AnnotationKind::Type { entity_type: EntityType::Process })
    );
}

#[test]
fn parse_type_data_store_trimmed() {
    let r = parse_annotation("type", "  DataStore ");
    assert_eq!(
        r,
        Ok(AnnotationKind::Type { entity_type: EntityType::DataStore })
    );
}

#[test]
fn parse_type_external_entity() {
    let r = parse_annotation("type", "ExternalEntity");
    assert_eq!(
        r,
        Ok(AnnotationKind::Type { entity_type: EntityType::ExternalEntity })
    );
}

#[test]
fn parse_type_unknown() {
    let r = parse_annotation("type", "Foo");
    assert_eq!(r, Err(ParseError::UnknownEntityType("Foo".to_string())));
}

#[test]
fn parse_type_case_sensitive() {
    let r = parse_annotation("type", "process");
    assert_eq!(r, Err(ParseError::UnknownEntityType("process".to_string())));
}

#[test]
fn parse_display_quoted() {
    let r = parse_annotation("display", "\"User Repository\"");
    assert_eq!(
        r,
        Ok(AnnotationKind::Display { display_name: "User Repository".to_string() })
    );
}

#[test]
fn parse_display_unquoted() {
    let r = parse_annotation("display", "User Repository");
    assert_eq!(r, Err(ParseError::MalformedDisplayName));
}

#[test]
fn parse_display_unterminated() {
    let r = parse_annotation("display", "\"User Repository");
    assert_eq!(r, Err(ParseError::MalformedDisplayName));
}

#[test]
fn parse_display_lone_quote() {
    let r = parse_annotation("display", "\"");
    assert_eq!(r, Err(ParseError::MalformedDisplayName));
}

#[test]
fn parse_flow_ok() {
    let r = parse_annotation("flow", "-> User: user_data");
    assert_eq!(
        r,
        Ok(AnnotationKind::Flow { to: "User".to_string(), label: "user_data".to_string() })
    );
}

#[test]
fn parse_flow_tight_spacing() {
    let r = parse_annotation("flow", "->Database:records written");
    assert_eq!(
        r,
        Ok(AnnotationKind::Flow {
            to: "Database".to_string(),
            label: "records written".to_string(),
        })
    );
}

#[test]
fn parse_flow_missing_arrow() {
    let r = parse_annotation("flow", "User: user_data");
    assert_eq!(r, Err(ParseError::MalformedFlowDirective));
}

#[test]
fn parse_flow_missing_colon() {
    let r = parse_annotation("flow", "-> User user_data");
    assert_eq!(r, Err(ParseError::MalformedFlowDirective));
}

#[test]
fn parse_flow_empty_target() {
    let r = parse_annotation("flow", "-> : user_data");
    assert_eq!(r, Err(ParseError::MalformedFlowDirective));
}

#[test]
fn parse_flow_empty_label() {
    let r = parse_annotation("flow", "-> User:   ");
    assert_eq!(r, Err(ParseError::MalformedFlowDirective));
}

#[test]
fn parse_process_ok() {
    let r = parse_annotation("process", "CreateUser");
    assert_eq!(
        r,
        Ok(AnnotationKind::Process { name: "CreateUser".to_string() })
    );
}

#[test]
fn parse_process_empty() {
    let r = parse_annotation("process", "   ");
    assert_eq!(r, Err(ParseError::MalformedProcessDirective));
}

#[test]
fn parse_unknown_directive() {
    let r = parse_annotation("entity", "User");
    assert_eq!(r, Err(ParseError::UnknownDirective("entity".to_string())));
}

#[test]
fn parse_is_pure() {
    let a = parse_annotation("flow", "-> Store: payload");
    let b = parse_annotation("flow", "-> Store: payload");
    assert_eq!(a, b);
}
