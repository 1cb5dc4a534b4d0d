//! Laws of resolution, proved once for every annotation stream: what
//! overriding twice leaves behind, what a flow into an otherwise silent
//! entity creates, how self-loops are kept, that resolution is a pure
//! function of its input, and that independent annotations may be
//! reordered without changing the graph.

use vstd::prelude::*;

use crate::diagnostics::DiagnosticModel;
use crate::diagnostics::OverrideField;
use crate::model::AnnotationKindModel;
use crate::model::AnnotationModel;
use crate::model::AnnotationSourceModel;
use crate::resolver::matches_resolution;
use crate::resolver::GraphModel;
use crate::semantics::default_build;
use crate::semantics::dup_diag;
use crate::semantics::flow_record;
use crate::semantics::graph_entities;
use crate::semantics::init_state;
use crate::semantics::lemma_init_state_wf;
use crate::semantics::lemma_run_concat;
use crate::semantics::lemma_run_wf;
use crate::semantics::materialize;
use crate::semantics::resolve_model;
use crate::semantics::run;
use crate::semantics::spec_entity_type_name;
use crate::semantics::state_wf;
use crate::semantics::step;
use crate::semantics::EntityBuildModel;
use crate::semantics::FlowRecordModel;
use crate::semantics::StateModel;

verus! {

// ------------------------------------------------------------------
// Purity: the result of a resolution is determined by its input stream.
// ------------------------------------------------------------------

/// Resolution is a pure function of the annotation stream: two results of
/// resolving the same stream are equal in entity sequence, flow sequence
/// and diagnostics.
pub proof fn lemma_resolution_deterministic(
    anns: Seq<AnnotationModel>,
    g1: GraphModel,
    d1: Seq<DiagnosticModel>,
    g2: GraphModel,
    d2: Seq<DiagnosticModel>,
)
    requires
        matches_resolution(anns, g1, d1),
        matches_resolution(anns, g2, d2),
    ensures
        g1 == g2,
        d1 == d2,
{
    assert(g1 =~= g2);
}

// ------------------------------------------------------------------
// Small run helpers.
// ------------------------------------------------------------------

/// Running a single annotation is one step.
proof fn lemma_run_one(st: StateModel, a: AnnotationModel)
    ensures
        run(st, seq![a]) == step(st, a),
{
    assert(seq![a][0] == a);
    assert(seq![a].drop_first() =~= Seq::<AnnotationModel>::empty());
    assert(run(st, seq![a]) == run(step(st, a), seq![a].drop_first()));
}

// ------------------------------------------------------------------
// Graph invariants.
// ------------------------------------------------------------------

/// In any resolved graph the entity ids are unique: an id names one
/// entity.
pub proof fn lemma_graph_ids_unique(anns: Seq<AnnotationModel>)
    ensures
        ({
            let es = graph_entities(resolve_model(anns));
            forall|i: int, j: int|
                0 <= i < j < es.len() ==> (#[trigger] es[i]).id != (#[trigger] es[j]).id
        }),
{
    crate::semantics::lemma_resolve_model_wf(anns);
    let st = resolve_model(anns);
    let es = graph_entities(st);
    assert forall|i: int, j: int| 0 <= i < j < es.len() implies (#[trigger] es[i]).id != (
    #[trigger] es[j]).id by {
        assert(st.order.contains(st.order[i]));
        assert(st.order.contains(st.order[j]));
        assert(st.tbl.dom().contains(st.order[i]));
        assert(st.tbl.dom().contains(st.order[j]));
        assert(es[i].id == st.order[i]);
        assert(es[j].id == st.order[j]);
    }
}

// ------------------------------------------------------------------
// Self-loops (flows whose target is their own context).
// ------------------------------------------------------------------

/// A self-loop flow is never dropped: in any state it appends exactly one
/// flow `C -> C : L` and exactly one `SelfLoopFlow` diagnostic.
pub proof fn lemma_self_loop_kept(
    st: StateModel,
    c: Seq<char>,
    l: Seq<char>,
    src: AnnotationSourceModel,
)
    ensures
        ({
            let ann = AnnotationModel {
                context_id: c,
                source: src,
                kind: AnnotationKindModel::Flow { to: c, label: l },
            };
            &&& step(st, ann).flows == st.flows.push(flow_record(c, c, l, src))
            &&& step(st, ann).diags == st.diags.push(
                DiagnosticModel::SelfLoopFlow { entity_id: c, source: src },
            )
        }),
{
}

/// A self-loop flow alone yields exactly one entity `C` with default
/// fields, exactly one flow `C -> C : L`, and exactly one `SelfLoopFlow`
/// diagnostic.
pub proof fn lemma_self_loop_alone(c: Seq<char>, l: Seq<char>, src: AnnotationSourceModel)
    ensures
        ({
            let ann = AnnotationModel {
                context_id: c,
                source: src,
                kind: AnnotationKindModel::Flow { to: c, label: l },
            };
            let st = resolve_model(seq![ann]);
            &&& st.order =~= seq![c]
            &&& st.tbl.dom().contains(c)
            &&& st.tbl[c] == default_build(c)
            &&& st.flows =~= seq![flow_record(c, c, l, src)]
            &&& st.diags =~= seq![
                DiagnosticModel::SelfLoopFlow { entity_id: c, source: src },
            ]
        }),
{
    let ann = AnnotationModel {
        context_id: c,
        source: src,
        kind: AnnotationKindModel::Flow { to: c, label: l },
    };
    lemma_run_one(init_state(), ann);
}

// ------------------------------------------------------------------
// Which entities an annotation references, and frame lemmas about
// everything it leaves alone.
// ------------------------------------------------------------------

/// The entity ids an annotation event references: its context, and for a
/// flow also the target.
pub open spec fn ann_refs(ann: AnnotationModel) -> Set<Seq<char>> {
    match ann.kind {
        AnnotationKindModel::Flow { to, .. } => set![ann.context_id, to],
        _ => set![ann.context_id],
    }
}

/// An annotation references its context, and a flow its target.
pub proof fn lemma_ann_refs_contains(ann: AnnotationModel)
    ensures
        ann_refs(ann).contains(ann.context_id),
        ann.kind matches AnnotationKindModel::Flow { to, label } ==> ann_refs(ann).contains(to),
{
    match ann.kind {
        AnnotationKindModel::Flow { to, label } => {
            assert(set![ann.context_id, to].contains(ann.context_id));
            assert(set![ann.context_id, to].contains(to));
        },
        _ => {
            assert(set![ann.context_id].contains(ann.context_id));
        },
    }
}

/// A step leaves the table entry of every unreferenced id alone.
pub proof fn lemma_step_frame_key(st: StateModel, ann: AnnotationModel, x: Seq<char>)
    requires
        !ann_refs(ann).contains(x),
    ensures
        step(st, ann).tbl.dom().contains(x) == st.tbl.dom().contains(x),
        st.tbl.dom().contains(x) ==> step(st, ann).tbl[x] == st.tbl[x],
{
    lemma_ann_refs_contains(ann);
    assert(x != ann.context_id);
    match ann.kind {
        AnnotationKindModel::Flow { to, label } => {
            assert(x != to);
        },
        _ => {},
    }
}

/// The flows into an unreferenced id, in order.
pub open spec fn flows_to(fs: Seq<FlowRecordModel>, x: Seq<char>) -> Seq<FlowRecordModel>
    decreases fs.len(),
{
    if fs.len() == 0 {
        Seq::empty()
    } else if fs.last().flow.to == x {
        flows_to(fs.drop_last(), x).push(fs.last())
    } else {
        flows_to(fs.drop_last(), x)
    }
}

/// Appending a flow record extends `flows_to` exactly when the record
/// targets `x`.
proof fn lemma_flows_to_push(fs: Seq<FlowRecordModel>, r: FlowRecordModel, x: Seq<char>)
    ensures
        flows_to(fs.push(r), x) == (if r.flow.to == x {
            flows_to(fs, x).push(r)
        } else {
            flows_to(fs, x)
        }),
{
    assert(fs.push(r).drop_last() =~= fs);
    assert(fs.push(r).last() == r);
}

/// A step that does not reference `x` adds no flow into `x`.
proof fn lemma_step_flows_to_frame(st: StateModel, ann: AnnotationModel, x: Seq<char>)
    requires
        !ann_refs(ann).contains(x),
    ensures
        flows_to(step(st, ann).flows, x) == flows_to(st.flows, x),
{
    lemma_ann_refs_contains(ann);
    match ann.kind {
        AnnotationKindModel::Flow { to, label } => {
            assert(x != to);
            lemma_flows_to_push(st.flows, flow_record(ann.context_id, to, label, ann.source), x);
        },
        _ => {
            assert(step(st, ann).flows == st.flows);
        },
    }
}

/// A run of annotations none of which references `x` leaves `x`'s table
/// entry and the flows into `x` alone.
pub proof fn lemma_run_untouched(st: StateModel, anns: Seq<AnnotationModel>, x: Seq<char>)
    requires
        forall|k: int| 0 <= k < anns.len() ==> !ann_refs(#[trigger] anns[k]).contains(x),
    ensures
        run(st, anns).tbl.dom().contains(x) == st.tbl.dom().contains(x),
        st.tbl.dom().contains(x) ==> run(st, anns).tbl[x] == st.tbl[x],
        flows_to(run(st, anns).flows, x) == flows_to(st.flows, x),
    decreases anns.len(),
{
    if anns.len() > 0 {
        lemma_step_frame_key(st, anns[0], x);
        lemma_step_flows_to_frame(st, anns[0], x);
        assert forall|k: int| 0 <= k < anns.drop_first().len() implies !ann_refs(
            #[trigger] anns.drop_first()[k],
        ).contains(x) by {
            assert(anns.drop_first()[k] == anns[k + 1]);
        }
        lemma_run_untouched(step(st, anns[0]), anns.drop_first(), x);
    }
}

/// A flow into an entity that no other annotation ever references yields
/// that entity with default fields — type `Process`, display name equal to
/// the id — and exactly one flow into it, namely `C -> X : L` from the
/// flow's own context.
pub proof fn lemma_unannotated_flow_target(
    prefix: Seq<AnnotationModel>,
    a: AnnotationModel,
    suffix: Seq<AnnotationModel>,
    c: Seq<char>,
    x: Seq<char>,
    l: Seq<char>,
)
    requires
        a.context_id == c,
        a.kind == (AnnotationKindModel::Flow { to: x, label: l }),
        forall|k: int| 0 <= k < prefix.len() ==> !ann_refs(#[trigger] prefix[k]).contains(x),
        forall|k: int| 0 <= k < suffix.len() ==> !ann_refs(#[trigger] suffix[k]).contains(x),
    ensures
        ({
            let st = resolve_model(prefix + seq![a] + suffix);
            &&& st.tbl.dom().contains(x)
            &&& st.tbl[x] == default_build(x)
            &&& flows_to(st.flows, x) =~= seq![flow_record(c, x, l, a.source)]
        }),
{
    lemma_run_concat(init_state(), prefix + seq![a], suffix);
    lemma_run_concat(init_state(), prefix, seq![a]);
    let st0 = run(init_state(), prefix);
    lemma_run_one(st0, a);
    let st1 = step(st0, a);
    lemma_run_untouched(init_state(), prefix, x);
    assert(!st0.tbl.dom().contains(x));
    assert(flows_to(init_state().flows, x) =~= Seq::<FlowRecordModel>::empty());
    let rec = flow_record(c, x, l, a.source);
    assert(st1.tbl.dom().contains(x) && st1.tbl[x] == default_build(x)) by {
        if c == x {
            assert(materialize(st0, c).tbl[x] == default_build(x));
        }
    }
    assert(flows_to(st1.flows, x) =~= seq![rec]) by {
        lemma_flows_to_push(materialize(materialize(st0, c), x).flows, rec, x);
        assert(flows_to(st1.flows, x) == flows_to(st0.flows, x).push(rec));
        assert(flows_to(st0.flows, x) =~= Seq::<FlowRecordModel>::empty());
    }
    lemma_run_untouched(st1, suffix, x);
}

// ------------------------------------------------------------------
// Last-writer-wins overrides with their diagnostics.
// ------------------------------------------------------------------

/// Whether an annotation explicitly sets the given field on the given
/// entity.
pub open spec fn sets_field(ann: AnnotationModel, id: Seq<char>, f: OverrideField) -> bool {
    ann.context_id == id && match f {
        OverrideField::EntityType => ann.kind is Type,
        OverrideField::DisplayName => ann.kind is Display,
    }
}

/// The value a setter writes, rendered as text: a type by its directive
/// spelling, a display name as itself.
pub open spec fn override_value(ann: AnnotationModel) -> Seq<char> {
    match ann.kind {
        AnnotationKindModel::Type { entity_type } => spec_entity_type_name(entity_type),
        AnnotationKindModel::Display { display_name } => display_name,
        _ => Seq::empty(),
    }
}

/// The current value of an overridable field, rendered as text.
pub open spec fn field_value(b: EntityBuildModel, f: OverrideField) -> Seq<char> {
    match f {
        OverrideField::EntityType => spec_entity_type_name(b.entity.entity_type),
        OverrideField::DisplayName => b.entity.display_name,
    }
}

/// The source of the latest explicit setting of a field, if any.
pub open spec fn field_source(b: EntityBuildModel, f: OverrideField) -> Option<
    AnnotationSourceModel,
> {
    match f {
        OverrideField::EntityType => b.type_source,
        OverrideField::DisplayName => b.display_source,
    }
}

/// A step that does not set the field leaves the field's value and latest
/// source alone (the entity stays known).
proof fn lemma_step_field_frame(
    st: StateModel,
    ann: AnnotationModel,
    id: Seq<char>,
    f: OverrideField,
)
    requires
        st.tbl.dom().contains(id),
        !sets_field(ann, id, f),
    ensures
        step(st, ann).tbl.dom().contains(id),
        field_value(step(st, ann).tbl[id], f) == field_value(st.tbl[id], f),
        field_source(step(st, ann).tbl[id], f) == field_source(st.tbl[id], f),
{
}

/// A run without a setter of the field leaves the field's value and latest
/// source alone.
proof fn lemma_run_field_frame(
    st: StateModel,
    anns: Seq<AnnotationModel>,
    id: Seq<char>,
    f: OverrideField,
)
    requires
        st.tbl.dom().contains(id),
        forall|k: int| 0 <= k < anns.len() ==> !sets_field(#[trigger] anns[k], id, f),
    ensures
        run(st, anns).tbl.dom().contains(id),
        field_value(run(st, anns).tbl[id], f) == field_value(st.tbl[id], f),
        field_source(run(st, anns).tbl[id], f) == field_source(st.tbl[id], f),
    decreases anns.len(),
{
    if anns.len() > 0 {
        lemma_step_field_frame(st, anns[0], id, f);
        assert forall|k: int| 0 <= k < anns.drop_first().len() implies !sets_field(
            #[trigger] anns.drop_first()[k],
            id,
            f,
        ) by {
            assert(anns.drop_first()[k] == anns[k + 1]);
        }
        lemma_run_field_frame(step(st, anns[0]), anns.drop_first(), id, f);
    }
}

/// What one setter does: the field now carries the setter's value and
/// source; if the field had been set before, exactly the duplicate
/// diagnostic referencing both sources is appended, else no diagnostic.
proof fn lemma_step_setter(st: StateModel, ann: AnnotationModel, f: OverrideField)
    requires
        sets_field(ann, ann.context_id, f),
    ensures
        ({
            let ctx = ann.context_id;
            let after = step(st, ann);
            let before = materialize(st, ctx).tbl[ctx];
            &&& after.tbl.dom().contains(ctx)
            &&& field_value(after.tbl[ctx], f) == override_value(ann)
            &&& field_source(after.tbl[ctx], f) == Some(ann.source)
            &&& match field_source(before, f) {
                Some(ps) => after.diags == st.diags.push(
                    dup_diag(
                        ctx,
                        f,
                        field_value(before, f),
                        override_value(ann),
                        ps,
                        ann.source,
                    ),
                ),
                None => after.diags == st.diags,
            }
        }),
{
}

/// Diagnostics are only ever appended: anything recorded stays recorded.
pub proof fn lemma_run_diags_contains(
    st: StateModel,
    anns: Seq<AnnotationModel>,
    d: DiagnosticModel,
)
    requires
        st.diags.contains(d),
    ensures
        run(st, anns).diags.contains(d),
    decreases anns.len(),
{
    if anns.len() > 0 {
        let st2 = step(st, anns[0]);
        assert(st2.diags.contains(d)) by {
            let i = choose|i: int| 0 <= i < st.diags.len() && st.diags[i] == d;
            assert(st2.diags == st.diags || st2.diags == st.diags.push(
                st2.diags[st.diags.len() as int],
            ));
            assert(st2.diags[i] == d);
        }
        lemma_run_diags_contains(st2, anns.drop_first(), d);
    }
}

/// Last writer wins: when `a1` and then `a2` set the same field of the
/// same entity and nothing after `a1` other than `a2` sets it again, the
/// finalized entity carries `a2`'s value, and a `DuplicateOverride`
/// diagnostic naming the field, both values and both sources is present.
pub proof fn lemma_duplicate_override(
    prefix: Seq<AnnotationModel>,
    a1: AnnotationModel,
    mid: Seq<AnnotationModel>,
    a2: AnnotationModel,
    suffix: Seq<AnnotationModel>,
    id: Seq<char>,
    f: OverrideField,
)
    requires
        sets_field(a1, id, f),
        sets_field(a2, id, f),
        forall|k: int| 0 <= k < mid.len() ==> !sets_field(#[trigger] mid[k], id, f),
        forall|k: int| 0 <= k < suffix.len() ==> !sets_field(#[trigger] suffix[k], id, f),
    ensures
        ({
            let st = resolve_model(prefix + seq![a1] + mid + seq![a2] + suffix);
            &&& st.tbl.dom().contains(id)
            &&& field_value(st.tbl[id], f) == override_value(a2)
            &&& field_source(st.tbl[id], f) == Some(a2.source)
            &&& st.diags.contains(
                dup_diag(id, f, override_value(a1), override_value(a2), a1.source, a2.source),
            )
        }),
{
    let whole = prefix + seq![a1] + mid + seq![a2] + suffix;
    lemma_run_concat(init_state(), prefix + seq![a1] + mid + seq![a2], suffix);
    lemma_run_concat(init_state(), prefix + seq![a1] + mid, seq![a2]);
    lemma_run_concat(init_state(), prefix + seq![a1], mid);
    lemma_run_concat(init_state(), prefix, seq![a1]);
    let st0 = run(init_state(), prefix);
    lemma_run_one(st0, a1);
    let st1 = step(st0, a1);
    lemma_step_setter(st0, a1, f);
    let st2 = run(st1, mid);
    lemma_run_field_frame(st1, mid, id, f);
    lemma_run_one(st2, a2);
    let st3 = step(st2, a2);
    lemma_step_setter(st2, a2, f);
    let d = dup_diag(id, f, override_value(a1), override_value(a2), a1.source, a2.source);
    assert(materialize(st2, id).tbl[id] == st2.tbl[id]);
    assert(st3.diags == st2.diags.push(d));
    assert(st3.diags.contains(d)) by {
        assert(st3.diags[st2.diags.len() as int] == d);
    }
    lemma_run_field_frame(st3, suffix, id, f);
    lemma_run_diags_contains(st3, suffix, d);
}

// ------------------------------------------------------------------
// Order-insensitivity of independent annotations.
// ------------------------------------------------------------------

/// Two states that agree in entity table and, as multisets, in flows and
/// diagnostics.  Such states differ at most in the order entities and
/// records were appended in.
pub open spec fn state_equiv(a: StateModel, b: StateModel) -> bool {
    &&& a.tbl == b.tbl
    &&& a.flows.to_multiset() == b.flows.to_multiset()
    &&& a.diags.to_multiset() == b.diags.to_multiset()
}

/// `s`, or `s` with the optional element appended.
pub open spec fn opt_push<A>(s: Seq<A>, o: Option<A>) -> Seq<A> {
    match o {
        Some(x) => s.push(x),
        None => s,
    }
}

/// The flow record one step appends, if any.  It depends on the annotation
/// alone, never on the state.
pub open spec fn step_new_flow(ann: AnnotationModel) -> Option<FlowRecordModel> {
    match ann.kind {
        AnnotationKindModel::Flow { to, label } => Some(
            flow_record(ann.context_id, to, label, ann.source),
        ),
        _ => None,
    }
}

/// The diagnostic one step appends, if any.  It depends only on the
/// annotation and on the table entry of its context.
pub open spec fn step_new_diag(st: StateModel, ann: AnnotationModel) -> Option<DiagnosticModel> {
    let ctx = ann.context_id;
    let before = materialize(st, ctx).tbl[ctx];
    match ann.kind {
        AnnotationKindModel::Type { entity_type } => match before.type_source {
            Some(ps) => Some(
                dup_diag(
                    ctx,
                    OverrideField::EntityType,
                    spec_entity_type_name(before.entity.entity_type),
                    spec_entity_type_name(entity_type),
                    ps,
                    ann.source,
                ),
            ),
            None => None,
        },
        AnnotationKindModel::Display { display_name } => match before.display_source {
            Some(ps) => Some(
                dup_diag(
                    ctx,
                    OverrideField::DisplayName,
                    before.entity.display_name,
                    display_name,
                    ps,
                    ann.source,
                ),
            ),
            None => None,
        },
        AnnotationKindModel::Flow { to, .. } => if to == ctx {
            Some(DiagnosticModel::SelfLoopFlow { entity_id: ctx, source: ann.source })
        } else {
            None
        },
        AnnotationKindModel::Process { .. } => None,
    }
}

/// What one step appends to flows and diagnostics.
proof fn lemma_step_shape(st: StateModel, ann: AnnotationModel)
    ensures
        step(st, ann).flows == opt_push(st.flows, step_new_flow(ann)),
        step(st, ann).diags == opt_push(st.diags, step_new_diag(st, ann)),
{
}

/// Appending two optional elements in either order yields the same
/// multiset.
proof fn lemma_opt_push_comm<A>(s: Seq<A>, x: Option<A>, y: Option<A>)
    ensures
        opt_push(opt_push(s, x), y).to_multiset() == opt_push(opt_push(s, y), x).to_multiset(),
{
    broadcast use vstd::seq_lib::group_to_multiset_ensures;
    broadcast use vstd::multiset::group_multiset_axioms;

    match (x, y) {
        (Some(a), Some(b)) => {
            assert(s.push(a).push(b).to_multiset() =~= s.push(b).push(a).to_multiset());
        },
        _ => {},
    }
}

/// The appended diagnostic depends only on the table entry of the
/// annotation's context.
proof fn lemma_new_diag_local(st1: StateModel, st2: StateModel, ann: AnnotationModel)
    requires
        st1.tbl.dom().contains(ann.context_id) == st2.tbl.dom().contains(ann.context_id),
        st1.tbl.dom().contains(ann.context_id) ==> st1.tbl[ann.context_id]
            == st2.tbl[ann.context_id],
    ensures
        step_new_diag(st1, ann) == step_new_diag(st2, ann),
{
}

/// A step adds to the table exactly the ids the annotation references.
proof fn lemma_step_adds(st: StateModel, ann: AnnotationModel)
    ensures
        step(st, ann).tbl.dom() =~= st.tbl.dom().union(ann_refs(ann)),
{
    lemma_ann_refs_contains(ann);
}

/// At the ids an annotation references, the step writes the same entries
/// in any two states that agree there.
proof fn lemma_step_local_vals(st1: StateModel, st2: StateModel, ann: AnnotationModel)
    requires
        forall|x: Seq<char>|
            #[trigger] ann_refs(ann).contains(x) ==> (st1.tbl.dom().contains(x) == st2.tbl.dom()
                .contains(x) && (st1.tbl.dom().contains(x) ==> st1.tbl[x] == st2.tbl[x])),
    ensures
        forall|x: Seq<char>|
            #[trigger] ann_refs(ann).contains(x) ==> (step(st1, ann).tbl.dom().contains(x) && step(
                st2,
                ann,
            ).tbl.dom().contains(x) && step(st1, ann).tbl[x] == step(st2, ann).tbl[x]),
{
    lemma_ann_refs_contains(ann);
    assert forall|x: Seq<char>| #[trigger] ann_refs(ann).contains(x) implies (step(
        st1,
        ann,
    ).tbl.dom().contains(x) && step(st2, ann).tbl.dom().contains(x) && step(st1, ann).tbl[x]
        == step(st2, ann).tbl[x]) by {
        lemma_step_adds(st1, ann);
        lemma_step_adds(st2, ann);
        match ann.kind {
            AnnotationKindModel::Flow { to, label } => {
                assert(ann_refs(ann) =~= set![ann.context_id, to]);
                assert(x == ann.context_id || x == to);
            },
            _ => {
                assert(ann_refs(ann) =~= set![ann.context_id]);
                assert(x == ann.context_id);
            },
        }
    }
}

/// Equivalent states stay equivalent under any step.
proof fn lemma_step_equiv(st1: StateModel, st2: StateModel, ann: AnnotationModel)
    requires
        state_equiv(st1, st2),
    ensures
        state_equiv(step(st1, ann), step(st2, ann)),
{
    broadcast use vstd::seq_lib::group_to_multiset_ensures;

    assert(step(st1, ann).tbl =~= step(st2, ann).tbl);
    lemma_step_shape(st1, ann);
    lemma_step_shape(st2, ann);
    lemma_new_diag_local(st1, st2, ann);
    match step_new_flow(ann) {
        Some(r) => {
            assert(step(st1, ann).flows.to_multiset() =~= step(st2, ann).flows.to_multiset());
        },
        None => {},
    }
    match step_new_diag(st1, ann) {
        Some(d) => {
            assert(step(st1, ann).diags.to_multiset() =~= step(st2, ann).diags.to_multiset());
        },
        None => {},
    }
}

/// Equivalent states stay equivalent under any run.
proof fn lemma_run_equiv(st1: StateModel, st2: StateModel, anns: Seq<AnnotationModel>)
    requires
        state_equiv(st1, st2),
    ensures
        state_equiv(run(st1, anns), run(st2, anns)),
    decreases anns.len(),
{
    if anns.len() > 0 {
        lemma_step_equiv(st1, st2, anns[0]);
        lemma_run_equiv(step(st1, anns[0]), step(st2, anns[0]), anns.drop_first());
    }
}

/// Two annotations that reference disjoint entities may be applied in
/// either order: the states agree in entity table and, as multisets, in
/// flows and diagnostics.
proof fn lemma_step_commute(st: StateModel, a: AnnotationModel, b: AnnotationModel)
    requires
        ann_refs(a).disjoint(ann_refs(b)),
    ensures
        state_equiv(step(step(st, a), b), step(step(st, b), a)),
{
    broadcast use vstd::seq_lib::group_to_multiset_ensures;

    lemma_ann_refs_contains(a);
    lemma_ann_refs_contains(b);
    let sa = step(st, a);
    let sb = step(st, b);
    let sab = step(sa, b);
    let sba = step(sb, a);
    // the table: per key, by frame and locality
    assert(sab.tbl.dom() =~= sba.tbl.dom()) by {
        lemma_step_adds(st, a);
        lemma_step_adds(st, b);
        lemma_step_adds(sa, b);
        lemma_step_adds(sb, a);
    }
    assert forall|x: Seq<char>| sab.tbl.dom().contains(x) implies sab.tbl[x] == sba.tbl[x] by {
        if ann_refs(a).contains(x) {
            assert(!ann_refs(b).contains(x));
            lemma_step_frame_key(sa, b, x);
            lemma_step_frame_key(st, b, x);
            lemma_step_local_vals(st, sb, a);
        } else if ann_refs(b).contains(x) {
            assert(!ann_refs(a).contains(x));
            lemma_step_frame_key(sb, a, x);
            lemma_step_frame_key(st, a, x);
            lemma_step_local_vals(st, sa, b);
        } else {
            lemma_step_frame_key(st, a, x);
            lemma_step_frame_key(sa, b, x);
            lemma_step_frame_key(st, b, x);
            lemma_step_frame_key(sb, a, x);
            lemma_step_adds(st, a);
            lemma_step_adds(st, b);
            lemma_step_adds(sa, b);
            lemma_step_adds(sb, a);
        }
    }
    assert(sab.tbl =~= sba.tbl);
    // flows: the appended records do not depend on the state
    lemma_step_shape(st, a);
    lemma_step_shape(st, b);
    lemma_step_shape(sa, b);
    lemma_step_shape(sb, a);
    lemma_opt_push_comm(st.flows, step_new_flow(a), step_new_flow(b));
    // diagnostics: each appended diagnostic reads only its own context
    lemma_step_frame_key(st, a, b.context_id);
    lemma_step_frame_key(st, b, a.context_id);
    lemma_new_diag_local(sa, st, b);
    lemma_new_diag_local(sb, st, a);
    lemma_opt_push_comm(st.diags, step_new_diag(st, a), step_new_diag(st, b));
}

/// Well-formed states with the same entity table have the same entity set.
proof fn lemma_graph_entities_set(st1: StateModel, st2: StateModel)
    requires
        state_wf(st1),
        state_wf(st2),
        st1.tbl == st2.tbl,
    ensures
        graph_entities(st1).to_set() == graph_entities(st2).to_set(),
{
    assert forall|e: crate::model::EntityModel| graph_entities(st1).to_set().contains(e)
        implies graph_entities(st2).to_set().contains(e) by {
        let i = choose|i: int|
            0 <= i < graph_entities(st1).len() && graph_entities(st1)[i] == e;
        let id = st1.order[i];
        assert(st1.order.contains(id));
        assert(st1.tbl.dom().contains(id));
        assert(st2.order.to_set().contains(id));
        let j = choose|j: int| 0 <= j < st2.order.len() && st2.order[j] == id;
        assert(graph_entities(st2)[j] == e);
        assert(graph_entities(st2).contains(e));
    }
    assert forall|e: crate::model::EntityModel| graph_entities(st2).to_set().contains(e)
        implies graph_entities(st1).to_set().contains(e) by {
        let i = choose|i: int|
            0 <= i < graph_entities(st2).len() && graph_entities(st2)[i] == e;
        let id = st2.order[i];
        assert(st2.order.contains(id));
        assert(st2.tbl.dom().contains(id));
        assert(st1.order.to_set().contains(id));
        let j = choose|j: int| 0 <= j < st1.order.len() && st1.order[j] == id;
        assert(graph_entities(st1)[j] == e);
        assert(graph_entities(st1).contains(e));
    }
    assert(graph_entities(st1).to_set() =~= graph_entities(st2).to_set());
}

/// Two adjacent annotations that reference disjoint entities may stand in
/// either order, anywhere in the stream: the resolved graphs have the same
/// entity set, the same flows as a multiset, and the same diagnostics as a
/// multiset.  Any reordering of pairwise independent annotations is a
/// composition of such swaps.
pub proof fn lemma_independent_reorder(
    prefix: Seq<AnnotationModel>,
    a: AnnotationModel,
    b: AnnotationModel,
    suffix: Seq<AnnotationModel>,
)
    requires
        ann_refs(a).disjoint(ann_refs(b)),
    ensures
        ({
            let st1 = resolve_model(prefix + seq![a, b] + suffix);
            let st2 = resolve_model(prefix + seq![b, a] + suffix);
            &&& graph_entities(st1).to_set() == graph_entities(st2).to_set()
            &&& st1.flows.to_multiset() == st2.flows.to_multiset()
            &&& st1.diags.to_multiset() == st2.diags.to_multiset()
        }),
{
    lemma_run_concat(init_state(), prefix + seq![a, b], suffix);
    lemma_run_concat(init_state(), prefix, seq![a, b]);
    lemma_run_concat(init_state(), prefix + seq![b, a], suffix);
    lemma_run_concat(init_state(), prefix, seq![b, a]);
    let st0 = run(init_state(), prefix);
    assert(run(st0, seq![a, b]) == step(step(st0, a), b)) by {
        assert(seq![a, b][0] == a);
        assert(seq![a, b].drop_first() =~= seq![b]);
        lemma_run_one(step(st0, a), b);
    }
    assert(run(st0, seq![b, a]) == step(step(st0, b), a)) by {
        assert(seq![b, a][0] == b);
        assert(seq![b, a].drop_first() =~= seq![a]);
        lemma_run_one(step(st0, b), a);
    }
    lemma_step_commute(st0, a, b);
    lemma_run_equiv(step(step(st0, a), b), step(step(st0, b), a), suffix);
    let st1 = resolve_model(prefix + seq![a, b] + suffix);
    let st2 = resolve_model(prefix + seq![b, a] + suffix);
    lemma_init_state_wf();
    lemma_run_wf(init_state(), prefix + seq![a, b] + suffix);
    lemma_run_wf(init_state(), prefix + seq![b, a] + suffix);
    lemma_graph_entities_set(st1, st2);
}

} // verus!
