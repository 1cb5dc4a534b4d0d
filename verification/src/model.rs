//! Value types of the domain: entities, flows, annotation provenance and the
//! typed annotation kinds, together with their mathematical models.

use vstd::prelude::*;

verus! {

/// Type of entity in a data-flow diagram.
#[derive(Debug, Clone, Copy, PartialEq, Eq, Structural)]
pub enum EntityType {
    /// Process entity (transforms data).
    Process,
    /// Data store (persistent data storage).
    DataStore,
    /// External entity (outside the system boundary).
    ExternalEntity,
}

/// A node of the diagram.
#[derive(Debug, Clone)]
pub struct Entity {
    /// Stable identifier, derived from a code element (e.g. a class or
    /// function name); unique within a graph.
    pub id: String,
    /// Human-readable label; defaults to `id`.
    pub display_name: String,
    /// Kind of the node; defaults to `EntityType::Process`.
    pub entity_type: EntityType,
}

/// Mathematical view of an [`Entity`].
#[verifier::ext_equal]
pub struct EntityModel {
    pub id: Seq<char>,
    pub display_name: Seq<char>,
    pub entity_type: EntityType,
}

impl View for Entity {
    type V = EntityModel;

    open spec fn view(&self) -> EntityModel {
        EntityModel {
            id: self.id@,
            display_name: self.display_name@,
            entity_type: self.entity_type,
        }
    }
}

impl Entity {
    pub fn new(id: String, display_name: String, entity_type: EntityType) -> (r: Self)
        ensures
            r@ == (EntityModel { id: id@, display_name: display_name@, entity_type }),
    {
        Self { id, display_name, entity_type }
    }
}

impl PartialEq for Entity {
    fn eq(&self, other: &Self) -> (r: bool) {
        self.id == other.id && self.display_name == other.display_name
            && self.entity_type == other.entity_type
    }
}

impl vstd::std_specs::cmp::PartialEqSpecImpl for Entity {
    open spec fn obeys_eq_spec() -> bool {
        true
    }

    open spec fn eq_spec(&self, other: &Self) -> bool {
        self@ == other@
    }
}

impl Eq for Entity {}

/// A directed, labeled edge between two entities.
#[derive(Debug, Clone)]
pub struct DataFlow {
    /// Source entity id; always the id of the entity the `Flow` annotation
    /// was attached to.
    pub from: String,
    /// Target entity id.
    pub to: String,
    /// Description of what moves along the edge.
    pub label: String,
}

/// Mathematical view of a [`DataFlow`].
#[verifier::ext_equal]
pub struct DataFlowModel {
    pub from: Seq<char>,
    pub to: Seq<char>,
    pub label: Seq<char>,
}

impl View for DataFlow {
    type V = DataFlowModel;

    open spec fn view(&self) -> DataFlowModel {
        DataFlowModel { from: self.from@, to: self.to@, label: self.label@ }
    }
}

impl DataFlow {
    pub fn new(from: String, to: String, label: String) -> (r: Self)
        ensures
            r@ == (DataFlowModel { from: from@, to: to@, label: label@ }),
    {
        Self { from, to, label }
    }
}

impl PartialEq for DataFlow {
    fn eq(&self, other: &Self) -> (r: bool) {
        self.from == other.from && self.to == other.to && self.label == other.label
    }
}

impl vstd::std_specs::cmp::PartialEqSpecImpl for DataFlow {
    open spec fn obeys_eq_spec() -> bool {
        true
    }

    open spec fn eq_spec(&self, other: &Self) -> bool {
        self@ == other@
    }
}

impl Eq for DataFlow {}

/// Source location of an annotation: provenance only, never part of entity
/// or flow identity.
#[derive(Debug, Clone)]
pub struct AnnotationSource {
    /// File the annotation was found in.
    pub file_path: String,
    /// 1-based line number.
    pub line_number: usize,
    /// 1-based column number, when the scanner knows it.
    pub column_number: Option<usize>,
}

/// Mathematical view of an [`AnnotationSource`].
#[verifier::ext_equal]
pub struct AnnotationSourceModel {
    pub file_path: Seq<char>,
    pub line_number: nat,
    pub column_number: Option<nat>,
}

impl View for AnnotationSource {
    type V = AnnotationSourceModel;

    open spec fn view(&self) -> AnnotationSourceModel {
        AnnotationSourceModel {
            file_path: self.file_path@,
            line_number: self.line_number as nat,
            column_number: match self.column_number {
                Some(c) => Some(c as nat),
                None => None,
            },
        }
    }
}

impl AnnotationSource {
    pub fn new(file_path: String, line_number: usize) -> (r: Self)
        ensures
            r@ == (AnnotationSourceModel {
                file_path: file_path@,
                line_number: line_number as nat,
                column_number: None,
            }),
    {
        Self { file_path, line_number, column_number: None }
    }

    pub fn with_column(file_path: String, line_number: usize, column_number: usize) -> (r: Self)
        ensures
            r@ == (AnnotationSourceModel {
                file_path: file_path@,
                line_number: line_number as nat,
                column_number: Some(column_number as nat),
            }),
    {
        Self { file_path, line_number, column_number: Some(column_number) }
    }
}

impl PartialEq for AnnotationSource {
    fn eq(&self, other: &Self) -> (r: bool) {
        let columns_equal = match (self.column_number, other.column_number) {
            (Some(a), Some(b)) => a == b,
            (None, None) => true,
            _ => false,
        };
        self.file_path == other.file_path && self.line_number == other.line_number
            && columns_equal
    }
}

impl vstd::std_specs::cmp::PartialEqSpecImpl for AnnotationSource {
    open spec fn obeys_eq_spec() -> bool {
        true
    }

    open spec fn eq_spec(&self, other: &Self) -> bool {
        self@ == other@
    }
}

impl Eq for AnnotationSource {}

/// Typed form of one directive body.
///
/// `Flow` carries no `from`: the source of a flow is always the entity the
/// annotation is attached to.  `Process` declares explicitly that the
/// context element is a named process entity; it is the form used when an
/// entity would otherwise have no annotation to infer its presence from.
#[derive(Debug, Clone)]
pub enum AnnotationKind {
    /// Sets the context entity's type.
    Type { entity_type: EntityType },
    /// Overrides the context entity's display name.
    Display { display_name: String },
    /// Declares a flow from the context entity to `to`.
    Flow { to: String, label: String },
    /// Declares the context element as a named process entity.
    Process { name: String },
}

/// Mathematical view of an [`AnnotationKind`].
#[verifier::ext_equal]
pub enum AnnotationKindModel {
    Type { entity_type: EntityType },
    Display { display_name: Seq<char> },
    Flow { to: Seq<char>, label: Seq<char> },
    Process { name: Seq<char> },
}

impl View for AnnotationKind {
    type V = AnnotationKindModel;

    open spec fn view(&self) -> AnnotationKindModel {
        match self {
            AnnotationKind::Type { entity_type } => AnnotationKindModel::Type {
                entity_type: *entity_type,
            },
            AnnotationKind::Display { display_name } => AnnotationKindModel::Display {
                display_name: display_name@,
            },
            AnnotationKind::Flow { to, label } => AnnotationKindModel::Flow {
                to: to@,
                label: label@,
            },
            AnnotationKind::Process { name } => AnnotationKindModel::Process { name: name@ },
        }
    }
}

impl PartialEq for AnnotationKind {
    fn eq(&self, other: &Self) -> (r: bool) {
        match (self, other) {
            (
                AnnotationKind::Type { entity_type: a },
                AnnotationKind::Type { entity_type: b },
            ) => *a == *b,
            (
                AnnotationKind::Display { display_name: a },
                AnnotationKind::Display { display_name: b },
            ) => *a == *b,
            (
                AnnotationKind::Flow { to: a, label: al },
                AnnotationKind::Flow { to: b, label: bl },
            ) => *a == *b && *al == *bl,
            (AnnotationKind::Process { name: a }, AnnotationKind::Process { name: b }) => (*a
                == *b),
            _ => false,
        }
    }
}

impl vstd::std_specs::cmp::PartialEqSpecImpl for AnnotationKind {
    open spec fn obeys_eq_spec() -> bool {
        true
    }

    open spec fn eq_spec(&self, other: &Self) -> bool {
        self@ == other@
    }
}

impl Eq for AnnotationKind {}

/// One annotation event, as handed to the resolver by the scanner: the
/// context entity id the annotation is attached to, where it was found, and
/// its typed kind.
#[derive(Debug, Clone)]
pub struct Annotation {
    /// Id of the code element the annotation is attached to.
    pub context_id: String,
    /// Where the annotation was found.
    pub source: AnnotationSource,
    /// The typed directive.
    pub kind: AnnotationKind,
}

/// Mathematical view of an [`Annotation`].
#[verifier::ext_equal]
pub struct AnnotationModel {
    pub context_id: Seq<char>,
    pub source: AnnotationSourceModel,
    pub kind: AnnotationKindModel,
}

impl View for Annotation {
    type V = AnnotationModel;

    open spec fn view(&self) -> AnnotationModel {
        AnnotationModel { context_id: self.context_id@, source: self.source@, kind: self.kind@ }
    }
}

impl Annotation {
    pub fn new(context_id: String, source: AnnotationSource, kind: AnnotationKind) -> (r: Self)
        ensures
            r@ == (AnnotationModel { context_id: context_id@, source: source@, kind: kind@ }),
    {
        Self { context_id, source, kind }
    }
}

} // verus!
