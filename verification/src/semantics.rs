//! The meaning of resolution: a pure fold over the annotation stream.
//!
//! [`resolve_model`] says, for every ordered stream of annotation events,
//! exactly which entities exist afterwards (as a table keyed by id plus the
//! first-reference order), which flows were recorded, and which diagnostics
//! were collected.  The executable resolver is proved to compute this
//! function; the laws of the crate are proved about it.

use vstd::prelude::*;

use crate::diagnostics::Diagnostic;
use crate::diagnostics::DiagnosticModel;
use crate::diagnostics::OverrideField;
use crate::model::Annotation;
use crate::model::AnnotationKindModel;
use crate::model::AnnotationModel;
use crate::model::AnnotationSourceModel;
use crate::model::DataFlowModel;
use crate::model::EntityModel;
use crate::model::EntityType;
use crate::parser::spec_parse;
use crate::parser::ParseErrorModel;

verus! {

/// A recorded flow together with where its annotation was found.
#[verifier::ext_equal]
pub struct FlowRecordModel {
    pub flow: DataFlowModel,
    pub source: AnnotationSourceModel,
}

/// One entity while the stream is being consumed: its current fields, and
/// for each overridable field the source of the latest explicit setting,
/// when there was one.
#[verifier::ext_equal]
pub struct EntityBuildModel {
    pub entity: EntityModel,
    pub type_source: Option<AnnotationSourceModel>,
    pub display_source: Option<AnnotationSourceModel>,
}

/// The resolver's whole state: entity table keyed by id, first-reference
/// order of the ids, recorded flows and diagnostics, both in discovery
/// order.
#[verifier::ext_equal]
pub struct StateModel {
    pub order: Seq<Seq<char>>,
    pub tbl: Map<Seq<char>, EntityBuildModel>,
    pub flows: Seq<FlowRecordModel>,
    pub diags: Seq<DiagnosticModel>,
}

/// The directive spelling of an entity type.
pub open spec fn spec_entity_type_name(t: EntityType) -> Seq<char> {
    match t {
        EntityType::Process => "Process"@,
        EntityType::DataStore => "DataStore"@,
        EntityType::ExternalEntity => "ExternalEntity"@,
    }
}

/// The state before any annotation was consumed.
pub open spec fn init_state() -> StateModel {
    StateModel {
        order: Seq::empty(),
        tbl: Map::empty(),
        flows: Seq::empty(),
        diags: Seq::empty(),
    }
}

/// A freshly materialized entity: display name equal to the id, type
/// `Process`, neither field explicitly set yet.
pub open spec fn default_build(id: Seq<char>) -> EntityBuildModel {
    EntityBuildModel {
        entity: EntityModel { id: id, display_name: id, entity_type: EntityType::Process },
        type_source: None,
        display_source: None,
    }
}

/// Ensures an entity with the given id exists: the first reference to an id
/// creates it with defaults, in first-reference order.
pub open spec fn materialize(st: StateModel, id: Seq<char>) -> StateModel {
    if st.tbl.dom().contains(id) {
        st
    } else {
        StateModel {
            order: st.order.push(id),
            tbl: st.tbl.insert(id, default_build(id)),
            flows: st.flows,
            diags: st.diags,
        }
    }
}

/// The diagnostic recorded when a field of `id` is set a second time.
pub open spec fn dup_diag(
    id: Seq<char>,
    field: OverrideField,
    previous_value: Seq<char>,
    new_value: Seq<char>,
    previous_source: AnnotationSourceModel,
    source: AnnotationSourceModel,
) -> DiagnosticModel {
    DiagnosticModel::DuplicateOverride {
        entity_id: id,
        field,
        previous_value,
        new_value,
        previous_source,
        source,
    }
}

/// Applies a `type` override to the (already materialized) entity `id`:
/// the new value replaces the old one; when the type had been set before,
/// a `DuplicateOverride` diagnostic referencing both sources is recorded.
pub open spec fn apply_type(
    st: StateModel,
    id: Seq<char>,
    t: EntityType,
    src: AnnotationSourceModel,
) -> StateModel {
    let b = st.tbl[id];
    let b2 = EntityBuildModel {
        entity: EntityModel {
            id: b.entity.id,
            display_name: b.entity.display_name,
            entity_type: t,
        },
        type_source: Some(src),
        display_source: b.display_source,
    };
    let diags = match b.type_source {
        Some(prev_src) => st.diags.push(
            dup_diag(
                id,
                OverrideField::EntityType,
                spec_entity_type_name(b.entity.entity_type),
                spec_entity_type_name(t),
                prev_src,
                src,
            ),
        ),
        None => st.diags,
    };
    StateModel { order: st.order, tbl: st.tbl.insert(id, b2), flows: st.flows, diags }
}

/// Applies a `display` override to the (already materialized) entity `id`,
/// with the same duplicate policy as [`apply_type`].
pub open spec fn apply_display(
    st: StateModel,
    id: Seq<char>,
    name: Seq<char>,
    src: AnnotationSourceModel,
) -> StateModel {
    let b = st.tbl[id];
    let b2 = EntityBuildModel {
        entity: EntityModel { id: b.entity.id, display_name: name, entity_type: b.entity.entity_type },
        type_source: b.type_source,
        display_source: Some(src),
    };
    let diags = match b.display_source {
        Some(prev_src) => st.diags.push(
            dup_diag(id, OverrideField::DisplayName, b.entity.display_name, name, prev_src, src),
        ),
        None => st.diags,
    };
    StateModel { order: st.order, tbl: st.tbl.insert(id, b2), flows: st.flows, diags }
}

/// The record appended for one `flow` annotation.
pub open spec fn flow_record(
    from: Seq<char>,
    to: Seq<char>,
    label: Seq<char>,
    src: AnnotationSourceModel,
) -> FlowRecordModel {
    FlowRecordModel { flow: DataFlowModel { from, to, label }, source: src }
}

/// Appends a flow from the (already materialized) context entity to `to`,
/// materializing the target; a self-loop is kept and flagged.
pub open spec fn apply_flow(
    st: StateModel,
    from: Seq<char>,
    to: Seq<char>,
    label: Seq<char>,
    src: AnnotationSourceModel,
) -> StateModel {
    let st2 = materialize(st, to);
    let flows = st2.flows.push(flow_record(from, to, label, src));
    let diags = if to == from {
        st2.diags.push(DiagnosticModel::SelfLoopFlow { entity_id: from, source: src })
    } else {
        st2.diags
    };
    StateModel { order: st2.order, tbl: st2.tbl, flows, diags }
}

/// Consumes one annotation: the context entity is materialized, then the
/// kind is applied to it.  A `process` declaration only materializes.
pub open spec fn step(st: StateModel, ann: AnnotationModel) -> StateModel {
    let st1 = materialize(st, ann.context_id);
    match ann.kind {
        AnnotationKindModel::Type { entity_type } => apply_type(
            st1,
            ann.context_id,
            entity_type,
            ann.source,
        ),
        AnnotationKindModel::Display { display_name } => apply_display(
            st1,
            ann.context_id,
            display_name,
            ann.source,
        ),
        AnnotationKindModel::Flow { to, label } => apply_flow(
            st1,
            ann.context_id,
            to,
            label,
            ann.source,
        ),
        AnnotationKindModel::Process { .. } => st1,
    }
}

/// Folds a stream of annotations over a starting state, in order.
pub open spec fn run(st: StateModel, anns: Seq<AnnotationModel>) -> StateModel
    decreases anns.len(),
{
    if anns.len() == 0 {
        st
    } else {
        run(step(st, anns[0]), anns.drop_first())
    }
}

/// The state after resolving a whole annotation stream.
pub open spec fn resolve_model(anns: Seq<AnnotationModel>) -> StateModel {
    run(init_state(), anns)
}

/// The entities of the finished graph, in first-reference order.
pub open spec fn graph_entities(st: StateModel) -> Seq<EntityModel> {
    Seq::new(st.order.len(), |i: int| st.tbl[st.order[i]].entity)
}

/// Models of a sequence of annotation events.
pub open spec fn ann_models(s: Seq<Annotation>) -> Seq<AnnotationModel> {
    s.map_values(|a: Annotation| a@)
}

/// Models of a sequence of diagnostics.
pub open spec fn diag_models(s: Seq<Diagnostic>) -> Seq<DiagnosticModel> {
    s.map_values(|d: Diagnostic| d@)
}

/// A resolver state is well formed when the first-reference order lists
/// each id once, the table is keyed exactly by those ids, each record
/// carries its own id, and every recorded flow's endpoints resolve.
pub open spec fn state_wf(st: StateModel) -> bool {
    &&& st.order.no_duplicates()
    &&& st.tbl.dom() == st.order.to_set()
    &&& forall|id: Seq<char>|
        #[trigger] st.tbl.dom().contains(id) ==> st.tbl[id].entity.id == id
    &&& forall|k: int|
        0 <= k < st.flows.len() ==> st.tbl.dom().contains(#[trigger] st.flows[k].flow.from)
            && st.tbl.dom().contains(st.flows[k].flow.to)
}

/// Materializing preserves well-formedness and only ever adds the one id.
pub proof fn lemma_materialize_wf(st: StateModel, id: Seq<char>)
    requires
        state_wf(st),
    ensures
        state_wf(materialize(st, id)),
        materialize(st, id).tbl.dom() =~= st.tbl.dom().insert(id),
        materialize(st, id).flows == st.flows,
        materialize(st, id).diags == st.diags,
{
    if st.tbl.dom().contains(id) {
        assert(st.tbl.dom() =~= st.tbl.dom().insert(id));
    } else {
        let st2 = materialize(st, id);
        assert forall|i: int, j: int| 0 <= i < j < st2.order.len() implies st2.order[i]
            != st2.order[j] by {
            if j == st.order.len() {
                assert(st.order.contains(st.order[i]));
                assert(st.order.to_set().contains(st.order[i]));
            }
        }
        assert(st2.order.to_set() =~= st.order.to_set().insert(id)) by {
            assert forall|x: Seq<char>| st2.order.to_set().contains(x) implies st.order.to_set()
                .insert(id).contains(x) by {
                let i = choose|i: int| 0 <= i < st2.order.len() && st2.order[i] == x;
                if i < st.order.len() {
                    assert(st.order.contains(x));
                }
            }
            assert forall|x: Seq<char>| st.order.to_set().insert(id).contains(x)
                implies st2.order.to_set().contains(x) by {
                if x == id {
                    assert(st2.order[st.order.len() as int] == x);
                    assert(st2.order.contains(x));
                } else {
                    let i = choose|i: int| 0 <= i < st.order.len() && st.order[i] == x;
                    assert(st2.order[i] == x);
                    assert(st2.order.contains(x));
                }
            }
        }
        assert(st2.tbl.dom() =~= st.tbl.dom().insert(id));
    }
}

/// One step preserves well-formedness.
pub proof fn lemma_step_wf(st: StateModel, ann: AnnotationModel)
    requires
        state_wf(st),
    ensures
        state_wf(step(st, ann)),
{
    lemma_materialize_wf(st, ann.context_id);
    let st1 = materialize(st, ann.context_id);
    match ann.kind {
        AnnotationKindModel::Type { entity_type } => {
            let st2 = apply_type(st1, ann.context_id, entity_type, ann.source);
            assert(st2.tbl.dom() =~= st1.tbl.dom());
        },
        AnnotationKindModel::Display { display_name } => {
            let st2 = apply_display(st1, ann.context_id, display_name, ann.source);
            assert(st2.tbl.dom() =~= st1.tbl.dom());
        },
        AnnotationKindModel::Flow { to, label } => {
            lemma_materialize_wf(st1, to);
        },
        AnnotationKindModel::Process { .. } => {},
    }
}

/// A whole run preserves well-formedness.
pub proof fn lemma_run_wf(st: StateModel, anns: Seq<AnnotationModel>)
    requires
        state_wf(st),
    ensures
        state_wf(run(st, anns)),
    decreases anns.len(),
{
    if anns.len() > 0 {
        lemma_step_wf(st, anns[0]);
        lemma_run_wf(step(st, anns[0]), anns.drop_first());
    }
}

/// The empty state is well formed.
pub proof fn lemma_init_state_wf()
    ensures
        state_wf(init_state()),
{
    assert(init_state().tbl.dom() =~= init_state().order.to_set());
}

/// The state after resolving any stream is well formed: in particular,
/// every recorded flow's `from` and `to` resolve to an entity of the graph.
pub proof fn lemma_resolve_model_wf(anns: Seq<AnnotationModel>)
    ensures
        state_wf(resolve_model(anns)),
{
    lemma_init_state_wf();
    lemma_run_wf(init_state(), anns);
}

/// Running a stream extended by one annotation is one step after running
/// the stream.
pub proof fn lemma_run_snoc(st: StateModel, anns: Seq<AnnotationModel>, a: AnnotationModel)
    ensures
        run(st, anns.push(a)) == step(run(st, anns), a),
    decreases anns.len(),
{
    if anns.len() == 0 {
        assert(anns.push(a)[0] == a);
        assert(anns.push(a).drop_first() =~= Seq::<AnnotationModel>::empty());
        assert(run(st, anns.push(a)) == run(step(st, a), anns.push(a).drop_first()));
        assert(run(step(st, a), anns.push(a).drop_first()) == step(st, a));
        assert(run(st, anns) == st);
    } else {
        assert(anns.push(a)[0] == anns[0]);
        assert(anns.push(a).drop_first() =~= anns.drop_first().push(a));
        lemma_run_snoc(step(st, anns[0]), anns.drop_first(), a);
        assert(run(st, anns.push(a)) == run(step(st, anns[0]), anns.drop_first().push(a)));
        assert(run(st, anns) == run(step(st, anns[0]), anns.drop_first()));
    }
}

/// Running a concatenation is running the parts in turn.
pub proof fn lemma_run_concat(st: StateModel, s: Seq<AnnotationModel>, t: Seq<AnnotationModel>)
    ensures
        run(st, s + t) == run(run(st, s), t),
    decreases s.len(),
{
    if s.len() == 0 {
        assert(s + t =~= t);
    } else {
        assert((s + t)[0] == s[0]);
        assert((s + t).drop_first() =~= s.drop_first() + t);
        lemma_run_concat(step(st, s[0]), s.drop_first(), t);
    }
}

} // verus!
