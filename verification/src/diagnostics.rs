//! Non-fatal findings recorded while a graph is resolved.  Diagnostics
//! never block graph construction; they are returned to the caller as data,
//! in the order they were found.

use vstd::prelude::*;

use crate::model::AnnotationSource;
use crate::model::AnnotationSourceModel;
use crate::parser::ParseError;
use crate::parser::ParseErrorModel;

verus! {

/// Which overridable entity field a diagnostic is about.
#[derive(Debug, Clone, Copy, PartialEq, Eq, Structural)]
pub enum OverrideField {
    /// The entity's type, set by a `type` directive.
    EntityType,
    /// The entity's display name, set by a `display` directive.
    DisplayName,
}

/// One non-fatal finding.
#[derive(Debug, Clone)]
pub enum Diagnostic {
    /// A field of an entity was set more than once; the later value won.
    /// Values are rendered as text: an entity type by its directive
    /// spelling, a display name as itself.
    DuplicateOverride {
        entity_id: String,
        field: OverrideField,
        previous_value: String,
        new_value: String,
        previous_source: AnnotationSource,
        source: AnnotationSource,
    },
    /// A flow whose target is its own context entity.  The flow is kept.
    SelfLoopFlow { entity_id: String, source: AnnotationSource },
    /// A directive that failed to parse and was skipped.
    Parse { error: ParseError, source: AnnotationSource },
}

/// Mathematical view of a [`Diagnostic`].
#[verifier::ext_equal]
pub enum DiagnosticModel {
    DuplicateOverride {
        entity_id: Seq<char>,
        field: OverrideField,
        previous_value: Seq<char>,
        new_value: Seq<char>,
        previous_source: AnnotationSourceModel,
        source: AnnotationSourceModel,
    },
    SelfLoopFlow { entity_id: Seq<char>, source: AnnotationSourceModel },
    Parse { error: ParseErrorModel, source: AnnotationSourceModel },
}

impl View for Diagnostic {
    type V = DiagnosticModel;

    open spec fn view(&self) -> DiagnosticModel {
        match self {
            Diagnostic::DuplicateOverride {
                entity_id,
                field,
                previous_value,
                new_value,
                previous_source,
                source,
            } => DiagnosticModel::DuplicateOverride {
                entity_id: entity_id@,
                field: *field,
                previous_value: previous_value@,
                new_value: new_value@,
                previous_source: previous_source@,
                source: source@,
            },
            Diagnostic::SelfLoopFlow { entity_id, source } => DiagnosticModel::SelfLoopFlow {
                entity_id: entity_id@,
                source: source@,
            },
            Diagnostic::Parse { error, source } => DiagnosticModel::Parse {
                error: error@,
                source: source@,
            },
        }
    }
}

impl PartialEq for Diagnostic {
    fn eq(&self, other: &Self) -> (r: bool) {
        match (self, other) {
            (
                Diagnostic::DuplicateOverride {
                    entity_id: a_id,
                    field: a_field,
                    previous_value: a_prev,
                    new_value: a_new,
                    previous_source: a_prev_src,
                    source: a_src,
                },
                Diagnostic::DuplicateOverride {
                    entity_id: b_id,
                    field: b_field,
                    previous_value: b_prev,
                    new_value: b_new,
                    previous_source: b_prev_src,
                    source: b_src,
                },
            ) => *a_id == *b_id && *a_field == *b_field && *a_prev == *b_prev && *a_new == *b_new
                && *a_prev_src == *b_prev_src && *a_src == *b_src,
            (
                Diagnostic::SelfLoopFlow { entity_id: a_id, source: a_src },
                Diagnostic::SelfLoopFlow { entity_id: b_id, source: b_src },
            ) => *a_id == *b_id && *a_src == *b_src,
            (
                Diagnostic::Parse { error: a_err, source: a_src },
                Diagnostic::Parse { error: b_err, source: b_src },
            ) => *a_err == *b_err && *a_src == *b_src,
            _ => false,
        }
    }
}

impl vstd::std_specs::cmp::PartialEqSpecImpl for Diagnostic {
    open spec fn obeys_eq_spec() -> bool {
        true
    }

    open spec fn eq_spec(&self, other: &Self) -> bool {
        self@ == other@
    }
}

impl Eq for Diagnostic {}

} // verus!
