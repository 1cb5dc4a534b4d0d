//! The graph resolver: consumes an ordered stream of annotation events and
//! produces the entity/flow graph together with the diagnostics collected
//! on the way.
//!
//! The stream must already be in global source order (file, then line, then
//! column): override semantics are last-writer-wins, so the caller merges
//! per-file streams before resolving.  Resolution never fails on typed
//! annotations; with raw directive text, the default mode skips and reports
//! malformed lines while fail-fast mode aborts on the first one.

use vstd::prelude::*;

use crate::diagnostics::Diagnostic;
use crate::diagnostics::DiagnosticModel;
use crate::diagnostics::OverrideField;
use crate::model::Annotation;
use crate::model::AnnotationKind;
use crate::model::AnnotationModel;
use crate::model::AnnotationSource;
use crate::model::AnnotationSourceModel;
use crate::model::DataFlow;
use crate::model::Entity;
use crate::model::EntityModel;
use crate::model::EntityType;
use crate::parser::parse_annotation;
use crate::parser::spec_parse;
use crate::parser::str_eq;
use crate::parser::ParseError;
use crate::parser::ParseErrorModel;
use crate::semantics::ann_models;
use crate::semantics::apply_display;
use crate::semantics::apply_flow;
use crate::semantics::apply_type;
use crate::semantics::default_build;
use crate::semantics::diag_models;
use crate::semantics::dup_diag;
use crate::semantics::flow_record;
use crate::semantics::graph_entities;
use crate::semantics::init_state;
use crate::semantics::materialize;
use crate::semantics::resolve_model;
use crate::semantics::run;
use crate::semantics::spec_entity_type_name;
use crate::semantics::state_wf;
use crate::semantics::step;
use crate::semantics::EntityBuildModel;
use crate::semantics::FlowRecordModel;
use crate::semantics::StateModel;
use crate::semantics::lemma_init_state_wf;
use crate::semantics::lemma_run_snoc;
use crate::semantics::lemma_step_wf;

verus! {

/// A recorded flow with the source location of its annotation.  Two equal
/// flows from two distinct locations are both kept.
#[derive(Debug, Clone)]
pub struct FlowRecord {
    pub flow: DataFlow,
    pub source: AnnotationSource,
}

impl View for FlowRecord {
    type V = FlowRecordModel;

    open spec fn view(&self) -> FlowRecordModel {
        FlowRecordModel { flow: self.flow@, source: self.source@ }
    }
}

impl PartialEq for FlowRecord {
    fn eq(&self, other: &Self) -> (r: bool) {
        self.flow == other.flow && self.source == other.source
    }
}

impl vstd::std_specs::cmp::PartialEqSpecImpl for FlowRecord {
    open spec fn obeys_eq_spec() -> bool {
        true
    }

    open spec fn eq_spec(&self, other: &Self) -> bool {
        self@ == other@
    }
}

impl Eq for FlowRecord {}

/// The finished graph: entities in first-reference order (each id listed
/// once) and flows in discovery order.  Built once per resolver run and not
/// mutated afterwards.
#[derive(Debug)]
pub struct Graph {
    pub entities: Vec<Entity>,
    pub flows: Vec<FlowRecord>,
}

/// Mathematical view of a [`Graph`].
#[verifier::ext_equal]
pub struct GraphModel {
    pub entities: Seq<EntityModel>,
    pub flows: Seq<FlowRecordModel>,
}

impl View for Graph {
    type V = GraphModel;

    open spec fn view(&self) -> GraphModel {
        GraphModel {
            entities: self.entities@.map_values(|e: Entity| e@),
            flows: self.flows@.map_values(|f: FlowRecord| f@),
        }
    }
}

impl Graph {
    /// The first entity with the given id, if any; ids are unique in a
    /// resolved graph, so this is the entity with that id.
    pub fn entity_by_id(&self, id: &str) -> (r: Option<&Entity>)
        ensures
            match r {
                Some(e) => e.id@ == id@ && self.entities@.contains(*e),
                None => forall|i: int|
                    0 <= i < self.entities@.len() ==> (#[trigger] self.entities@[i]).id@ != id@,
            },
    {
        let n = self.entities.len();
        let mut i: usize = 0;
        while i < n
            invariant
                0 <= i <= n,
                n == self.entities@.len(),
                forall|k: int| 0 <= k < i ==> (#[trigger] self.entities@[k]).id@ != id@,
            decreases n - i,
        {
            if str_eq(self.entities[i].id.as_str(), id) {
                return Some(&self.entities[i]);
            }
            i += 1;
        }
        None
    }
}

/// What one resolver run returns: the graph and the diagnostics, in the
/// order they were recorded.
#[derive(Debug)]
pub struct Resolution {
    pub graph: Graph,
    pub diagnostics: Vec<Diagnostic>,
}

/// The directive spelling of an entity type, as used in `type` directives
/// and in `DuplicateOverride` diagnostics.
pub fn entity_type_name(t: EntityType) -> (r: String)
    ensures
        r@ == spec_entity_type_name(t),
{
    match t {
        EntityType::Process => "Process".to_owned(),
        EntityType::DataStore => "DataStore".to_owned(),
        EntityType::ExternalEntity => "ExternalEntity".to_owned(),
    }
}

/// An equal copy of an annotation source.
fn copy_source(s: &AnnotationSource) -> (r: AnnotationSource)
    ensures
        r == *s,
{
    AnnotationSource {
        file_path: s.file_path.clone(),
        line_number: s.line_number,
        column_number: s.column_number,
    }
}

/// An equal copy of an optional annotation source.
fn copy_opt_source(s: &Option<AnnotationSource>) -> (r: Option<AnnotationSource>)
    ensures
        r == *s,
{
    match s {
        Some(x) => Some(copy_source(x)),
        None => None,
    }
}

/// One entity while the stream is consumed: current fields plus, per
/// overridable field, the source of the latest explicit setting.
struct EntityBuild {
    entity: Entity,
    type_source: Option<AnnotationSource>,
    display_source: Option<AnnotationSource>,
}

impl View for EntityBuild {
    type V = EntityBuildModel;

    closed spec fn view(&self) -> EntityBuildModel {
        EntityBuildModel {
            entity: self.entity@,
            type_source: match self.type_source {
                Some(s) => Some(s@),
                None => None,
            },
            display_source: match self.display_source {
                Some(s) => Some(s@),
                None => None,
            },
        }
    }
}

/// The ids of the scratch entities, in order.
spec fn ids_of(s: Seq<EntityBuild>) -> Seq<Seq<char>> {
    s.map_values(|b: EntityBuild| b.entity.id@)
}

/// The entity table described by the scratch vector: later records shadow
/// earlier ones with the same id (which well-formed states exclude).
spec fn tbl_of(s: Seq<EntityBuild>) -> Map<Seq<char>, EntityBuildModel>
    decreases s.len(),
{
    if s.len() == 0 {
        Map::empty()
    } else {
        tbl_of(s.drop_last()).insert(s.last().entity.id@, s.last()@)
    }
}

/// The domain of the table is the set of ids.
proof fn lemma_tbl_of_dom(s: Seq<EntityBuild>)
    ensures
        tbl_of(s).dom() =~= ids_of(s).to_set(),
    decreases s.len(),
{
    if s.len() == 0 {
        assert(ids_of(s).to_set() =~= Set::<Seq<char>>::empty());
    } else {
        let p = s.drop_last();
        lemma_tbl_of_dom(p);
        assert forall|x: Seq<char>| tbl_of(s).dom().contains(x) implies ids_of(s).to_set()
            .contains(x) by {
            if x == s.last().entity.id@ {
                assert(ids_of(s)[s.len() - 1] == x);
                assert(ids_of(s).contains(x));
            } else {
                assert(ids_of(p).to_set().contains(x));
                let i = choose|i: int| 0 <= i < ids_of(p).len() && ids_of(p)[i] == x;
                assert(ids_of(s)[i] == x);
                assert(ids_of(s).contains(x));
            }
        }
        assert forall|x: Seq<char>| ids_of(s).to_set().contains(x) implies tbl_of(s).dom()
            .contains(x) by {
            let i = choose|i: int| 0 <= i < ids_of(s).len() && ids_of(s)[i] == x;
            if i < s.len() - 1 {
                assert(ids_of(p)[i] == x);
                assert(ids_of(p).contains(x));
            }
        }
    }
}

/// With unique ids, the table maps each record's id to that record.
proof fn lemma_tbl_of_lookup(s: Seq<EntityBuild>, i: int)
    requires
        ids_of(s).no_duplicates(),
        0 <= i < s.len(),
    ensures
        tbl_of(s).dom().contains(s[i].entity.id@),
        tbl_of(s)[s[i].entity.id@] == s[i]@,
    decreases s.len(),
{
    let p = s.drop_last();
    if i == s.len() - 1 {
    } else {
        assert forall|a: int, b: int| 0 <= a < b < ids_of(p).len() implies ids_of(p)[a]
            != ids_of(p)[b] by {
            assert(ids_of(s)[a] == ids_of(p)[a]);
            assert(ids_of(s)[b] == ids_of(p)[b]);
        }
        lemma_tbl_of_lookup(p, i);
        assert(ids_of(s)[i] != ids_of(s)[s.len() - 1]);
        assert(p[i] == s[i]);
    }
}

/// Appending a record adds its entry to the table.
proof fn lemma_tbl_of_push(s: Seq<EntityBuild>, b: EntityBuild)
    ensures
        tbl_of(s.push(b)) == tbl_of(s).insert(b.entity.id@, b@),
        ids_of(s.push(b)) =~= ids_of(s).push(b.entity.id@),
{
    assert(s.push(b).drop_last() =~= s);
    assert(s.push(b).last() == b);
    assert(tbl_of(s.push(b)) == tbl_of(s.push(b).drop_last()).insert(
        s.push(b).last().entity.id@,
        s.push(b).last()@,
    ));
}

/// Replacing a record by one with the same id updates its table entry and
/// keeps the order of ids.
proof fn lemma_tbl_of_update(s: Seq<EntityBuild>, i: int, b: EntityBuild)
    requires
        ids_of(s).no_duplicates(),
        0 <= i < s.len(),
        b.entity.id@ == s[i].entity.id@,
    ensures
        tbl_of(s.update(i, b)) =~= tbl_of(s).insert(b.entity.id@, b@),
        ids_of(s.update(i, b)) =~= ids_of(s),
    decreases s.len(),
{
    let u = s.update(i, b);
    assert(ids_of(u) =~= ids_of(s)) by {
        assert forall|k: int| 0 <= k < s.len() implies ids_of(u)[k] == ids_of(s)[k] by {
            if k == i {
            } else {
                assert(u[k] == s[k]);
            }
        }
    }
    let id = b.entity.id@;
    if i == s.len() - 1 {
        assert(u.drop_last() =~= s.drop_last());
        assert(u.last() == b);
        assert(tbl_of(u) == tbl_of(s.drop_last()).insert(id, b@));
        assert(tbl_of(s) == tbl_of(s.drop_last()).insert(id, s[i]@));
        assert(tbl_of(s.drop_last()).insert(id, s[i]@).insert(id, b@) =~= tbl_of(
            s.drop_last(),
        ).insert(id, b@));
    } else {
        let p = s.drop_last();
        assert forall|a: int, c: int| 0 <= a < c < ids_of(p).len() implies ids_of(p)[a]
            != ids_of(p)[c] by {
            assert(ids_of(s)[a] == ids_of(p)[a]);
            assert(ids_of(s)[c] == ids_of(p)[c]);
        }
        assert(p[i] == s[i]);
        lemma_tbl_of_update(p, i, b);
        assert(u.drop_last() =~= p.update(i, b));
        assert(u.last() == s.last());
        assert(tbl_of(u) == tbl_of(p.update(i, b)).insert(s.last().entity.id@, s.last()@));
        assert(ids_of(s)[i] != ids_of(s)[s.len() - 1]);
        assert(id != s.last().entity.id@);
        assert(tbl_of(p).insert(id, b@).insert(s.last().entity.id@, s.last()@) =~= tbl_of(
            p,
        ).insert(s.last().entity.id@, s.last()@).insert(id, b@));
    }
}

/// The resolver's scratch state while it is accumulating: nothing of it is
/// exposed before finalization.
struct Builder {
    entities: Vec<EntityBuild>,
    flows: Vec<FlowRecord>,
    diags: Vec<Diagnostic>,
}

impl View for Builder {
    type V = StateModel;

    closed spec fn view(&self) -> StateModel {
        StateModel {
            order: ids_of(self.entities@),
            tbl: tbl_of(self.entities@),
            flows: self.flows@.map_values(|f: FlowRecord| f@),
            diags: diag_models(self.diags@),
        }
    }
}

impl Builder {
    fn new() -> (r: Self)
        ensures
            r@ == init_state(),
            state_wf(r@),
    {
        let r = Builder { entities: Vec::new(), flows: Vec::new(), diags: Vec::new() };
        proof {
            assert(ids_of(r.entities@) =~= Seq::<Seq<char>>::empty());
            assert(r.flows@.map_values(|f: FlowRecord| f@) =~= Seq::<FlowRecordModel>::empty());
            assert(diag_models(r.diags@) =~= Seq::<DiagnosticModel>::empty());
            assert(r@ =~= init_state());
            lemma_init_state_wf();
        }
        r
    }

    /// Index of the entity with the given id, if the id is known.
    fn find(&self, id: &str) -> (r: Option<usize>)
        ensures
            match r {
                Some(i) => i < self.entities@.len() && self.entities@[i as int].entity.id@ == id@,
                None => !self@.tbl.dom().contains(id@),
            },
    {
        let n = self.entities.len();
        let mut i: usize = 0;
        while i < n
            invariant
                0 <= i <= n,
                n == self.entities@.len(),
                forall|k: int|
                    0 <= k < i ==> (#[trigger] self.entities@[k]).entity.id@ != id@,
            decreases n - i,
        {
            if str_eq(self.entities[i].entity.id.as_str(), id) {
                return Some(i);
            }
            i += 1;
        }
        proof {
            lemma_tbl_of_dom(self.entities@);
            if self@.tbl.dom().contains(id@) {
                let k = choose|k: int|
                    0 <= k < ids_of(self.entities@).len() && ids_of(self.entities@)[k] == id@;
                assert(self.entities@[k].entity.id@ == id@);
            }
        }
        None
    }

    /// Ensures the entity exists and returns its index.
    fn materialize_entity(&mut self, id: &String) -> (i: usize)
        requires
            state_wf(old(self)@),
        ensures
            state_wf(final(self)@),
            final(self)@ == materialize(old(self)@, id@),
            i < final(self).entities@.len(),
            final(self).entities@[i as int].entity.id@ == id@,
    {
        match self.find(id.as_str()) {
            Some(i) => {
                proof {
                    lemma_tbl_of_dom(self.entities@);
                    assert(ids_of(self.entities@)[i as int] == id@);
                    assert(ids_of(self.entities@).contains(id@));
                    assert(self@.tbl.dom().contains(id@));
                }
                i
            },
            None => {
                let ghost old_state = self@;
                let b = EntityBuild {
                    entity: Entity {
                        id: id.clone(),
                        display_name: id.clone(),
                        entity_type: EntityType::Process,
                    },
                    type_source: None,
                    display_source: None,
                };
                proof {
                    assert(b@ =~= default_build(id@));
                }
                let i = self.entities.len();
                self.entities.push(b);
                proof {
                    lemma_tbl_of_push(old(self).entities@, b);
                    assert(self@.order =~= old_state.order.push(id@));
                    assert(self@.tbl == old_state.tbl.insert(id@, default_build(id@)));
                    assert(self@.flows =~= old_state.flows);
                    assert(self@.diags =~= old_state.diags);
                    assert(self@ =~= materialize(old_state, id@));
                    crate::semantics::lemma_materialize_wf(old_state, id@);
                }
                i
            },
        }
    }

    /// Consumes one typed annotation.
    fn apply(&mut self, ann: &Annotation)
        requires
            state_wf(old(self)@),
        ensures
            state_wf(final(self)@),
            final(self)@ == step(old(self)@, ann@),
    {
        let i = self.materialize_entity(&ann.context_id);
        let ghost st1 = self@;
        proof {
            lemma_tbl_of_lookup(self.entities@, i as int);
            assert(st1.tbl[ann.context_id@] == self.entities@[i as int]@);
        }
        match &ann.kind {
            AnnotationKind::Type { entity_type } => {
                let t = *entity_type;
                let prev_type = self.entities[i].entity.entity_type;
                let prev_src = copy_opt_source(&self.entities[i].type_source);
                let b2 = EntityBuild {
                    entity: Entity {
                        id: self.entities[i].entity.id.clone(),
                        display_name: self.entities[i].entity.display_name.clone(),
                        entity_type: t,
                    },
                    type_source: Some(copy_source(&ann.source)),
                    display_source: copy_opt_source(&self.entities[i].display_source),
                };
                let ghost ents1 = self.entities@;
                self.entities[i] = b2;
                proof {
                    lemma_tbl_of_update(ents1, i as int, b2);
                }
                if let Some(prev) = prev_src {
                    self.diags.push(
                        Diagnostic::DuplicateOverride {
                            entity_id: ann.context_id.clone(),
                            field: OverrideField::EntityType,
                            previous_value: entity_type_name(prev_type),
                            new_value: entity_type_name(t),
                            previous_source: prev,
                            source: copy_source(&ann.source),
                        },
                    );
                }
                proof {
                    let st2 = apply_type(st1, ann.context_id@, t, ann.source@);
                    assert(self@.order =~= st2.order);
                    assert(self@.tbl =~= st2.tbl);
                    assert(self@.flows =~= st2.flows);
                    assert(self@.diags =~= st2.diags);
                    assert(self@ =~= st2);
                    lemma_step_wf(old(self)@, ann@);
                }
            },
            AnnotationKind::Display { display_name } => {
                let prev_display = self.entities[i].entity.display_name.clone();
                let prev_src = copy_opt_source(&self.entities[i].display_source);
                let b2 = EntityBuild {
                    entity: Entity {
                        id: self.entities[i].entity.id.clone(),
                        display_name: display_name.clone(),
                        entity_type: self.entities[i].entity.entity_type,
                    },
                    type_source: copy_opt_source(&self.entities[i].type_source),
                    display_source: Some(copy_source(&ann.source)),
                };
                let ghost ents1 = self.entities@;
                self.entities[i] = b2;
                proof {
                    lemma_tbl_of_update(ents1, i as int, b2);
                }
                if let Some(prev) = prev_src {
                    self.diags.push(
                        Diagnostic::DuplicateOverride {
                            entity_id: ann.context_id.clone(),
                            field: OverrideField::DisplayName,
                            previous_value: prev_display,
                            new_value: display_name.clone(),
                            previous_source: prev,
                            source: copy_source(&ann.source),
                        },
                    );
                }
                proof {
                    let st2 = apply_display(st1, ann.context_id@, display_name@, ann.source@);
                    assert(self@.order =~= st2.order);
                    assert(self@.tbl =~= st2.tbl);
                    assert(self@.flows =~= st2.flows);
                    assert(self@.diags =~= st2.diags);
                    assert(self@ =~= st2);
                    lemma_step_wf(old(self)@, ann@);
                }
            },
            AnnotationKind::Flow { to, label } => {
                let _j = self.materialize_entity(to);
                let ghost st2 = self@;
                let rec = FlowRecord {
                    flow: DataFlow {
                        from: ann.context_id.clone(),
                        to: to.clone(),
                        label: label.clone(),
                    },
                    source: copy_source(&ann.source),
                };
                self.flows.push(rec);
                if str_eq(ann.context_id.as_str(), to.as_str()) {
                    self.diags.push(
                        Diagnostic::SelfLoopFlow {
                            entity_id: ann.context_id.clone(),
                            source: copy_source(&ann.source),
                        },
                    );
                }
                proof {
                    let st3 = apply_flow(st1, ann.context_id@, to@, label@, ann.source@);
                    assert(rec@ =~= flow_record(ann.context_id@, to@, label@, ann.source@));
                    assert(self@.order =~= st3.order);
                    assert(self@.tbl =~= st3.tbl);
                    assert(self@.flows =~= st3.flows);
                    assert(self@.diags =~= st3.diags);
                    assert(self@ =~= st3);
                    lemma_step_wf(old(self)@, ann@);
                }
            },
            AnnotationKind::Process { .. } => {
                proof {
                    assert(self@ =~= step(old(self)@, ann@));
                }
            },
        }
    }

    /// Records a parse diagnostic for a directive that was skipped.
    fn report_parse(&mut self, error: ParseError, source: AnnotationSource)
        requires
            state_wf(old(self)@),
        ensures
            state_wf(final(self)@),
            final(self)@ == (StateModel {
                diags: old(self)@.diags.push(
                    DiagnosticModel::Parse { error: error@, source: source@ },
                ),
                ..old(self)@
            }),
    {
        let ghost d = DiagnosticModel::Parse { error: error@, source: source@ };
        self.diags.push(Diagnostic::Parse { error, source });
        proof {
            assert(self@.diags =~= old(self)@.diags.push(d));
            assert(self@ =~= (StateModel { diags: old(self)@.diags.push(d), ..old(self)@ }));
        }
    }

    /// Hands out the finished graph and diagnostics; the scratch state is
    /// consumed.
    fn finish(self) -> (r: Resolution)
        requires
            state_wf(self@),
        ensures
            r.graph@.entities == graph_entities(self@),
            r.graph@.flows == self@.flows,
            diag_models(r.diagnostics@) == self@.diags,
    {
        let ghost st = self@;
        let ghost recs = self.entities@;
        let mut entities: Vec<Entity> = Vec::new();
        let n = self.entities.len();
        let mut i: usize = 0;
        while i < n
            invariant
                0 <= i <= n,
                n == self.entities@.len(),
                self.entities@ == recs,
                entities@.len() == i,
                forall|k: int|
                    0 <= k < i ==> (#[trigger] entities@[k])@ == recs[k]@.entity,
            decreases n - i,
        {
            let e = &self.entities[i].entity;
            entities.push(
                Entity {
                    id: e.id.clone(),
                    display_name: e.display_name.clone(),
                    entity_type: e.entity_type,
                },
            );
            i += 1;
        }
        proof {
            assert forall|k: int| 0 <= k < n implies graph_entities(st)[k] == recs[k]@.entity by {
                lemma_tbl_of_lookup(recs, k);
                assert(st.order[k] == recs[k].entity.id@);
            }
            assert(entities@.map_values(|e: Entity| e@) =~= graph_entities(st));
        }
        let r = Resolution {
            graph: Graph { entities, flows: self.flows },
            diagnostics: self.diags,
        };
        proof {
            assert(r.graph@.flows =~= st.flows);
            assert(diag_models(r.diagnostics@) =~= st.diags);
        }
        r
    }
}

/// The finished graph and diagnostics are exactly what [`resolve_model`]
/// assigns to the stream: entities in first-reference order, flows and
/// diagnostics in discovery order.
pub open spec fn matches_resolution(
    anns: Seq<AnnotationModel>,
    g: GraphModel,
    diags: Seq<DiagnosticModel>,
) -> bool {
    &&& g.entities == graph_entities(resolve_model(anns))
    &&& g.flows == resolve_model(anns).flows
    &&& diags == resolve_model(anns).diags
}

/// Resolves an ordered stream of typed annotation events into a graph and
/// diagnostics.  The result is a pure function of the stream, given exactly
/// by [`resolve_model`].
pub fn resolve(annotations: &Vec<Annotation>) -> (r: Resolution)
    ensures
        matches_resolution(ann_models(annotations@), r.graph@, diag_models(r.diagnostics@)),
{
    let ghost ms = ann_models(annotations@);
    let mut b = Builder::new();
    let n = annotations.len();
    let mut idx: usize = 0;
    while idx < n
        invariant
            0 <= idx <= n,
            n == annotations@.len(),
            ms == ann_models(annotations@),
            state_wf(b@),
            b@ == run(init_state(), ms.take(idx as int)),
        decreases n - idx,
    {
        b.apply(&annotations[idx]);
        proof {
            lemma_run_snoc(init_state(), ms.take(idx as int), ms[idx as int]);
            assert(ms.take(idx as int).push(ms[idx as int]) =~= ms.take(idx as int + 1));
        }
        idx += 1;
    }
    proof {
        assert(ms.take(n as int) =~= ms);
    }
    b.finish()
}

/// One directive as found by the scanner, before its body is parsed: the
/// context entity id, the location, the directive name token and the raw
/// argument text.
#[derive(Debug, Clone)]
pub struct RawAnnotation {
    pub context_id: String,
    pub source: AnnotationSource,
    pub directive: String,
    pub argument: String,
}

/// Mathematical view of a [`RawAnnotation`].
#[verifier::ext_equal]
pub struct RawAnnotationModel {
    pub context_id: Seq<char>,
    pub source: AnnotationSourceModel,
    pub directive: Seq<char>,
    pub argument: Seq<char>,
}

impl View for RawAnnotation {
    type V = RawAnnotationModel;

    open spec fn view(&self) -> RawAnnotationModel {
        RawAnnotationModel {
            context_id: self.context_id@,
            source: self.source@,
            directive: self.directive@,
            argument: self.argument@,
        }
    }
}

/// Models of a sequence of raw directives.
pub open spec fn raw_models(s: Seq<RawAnnotation>) -> Seq<RawAnnotationModel> {
    s.map_values(|a: RawAnnotation| a@)
}

/// Consumes one raw directive: a directive that parses is applied as an
/// annotation; one that does not is skipped and recorded as a `Parse`
/// diagnostic.
pub open spec fn raw_step(st: StateModel, item: RawAnnotationModel) -> StateModel {
    match spec_parse(item.directive, item.argument) {
        Ok(kind) => step(
            st,
            AnnotationModel { context_id: item.context_id, source: item.source, kind },
        ),
        Err(e) => StateModel {
            diags: st.diags.push(DiagnosticModel::Parse { error: e, source: item.source }),
            ..st
        },
    }
}

/// Folds a stream of raw directives over a starting state, in order.
pub open spec fn raw_run(st: StateModel, items: Seq<RawAnnotationModel>) -> StateModel
    decreases items.len(),
{
    if items.len() == 0 {
        st
    } else {
        raw_run(raw_step(st, items[0]), items.drop_first())
    }
}

/// The state after resolving a whole raw directive stream in default
/// (skip-and-report) mode.
pub open spec fn resolve_raw_model(items: Seq<RawAnnotationModel>) -> StateModel {
    raw_run(init_state(), items)
}

/// The error of the first directive of the stream that fails to parse, if
/// any: the error fail-fast mode aborts with.
pub open spec fn first_parse_error(items: Seq<RawAnnotationModel>) -> Option<ParseErrorModel>
    decreases items.len(),
{
    if items.len() == 0 {
        None
    } else {
        match spec_parse(items[0].directive, items[0].argument) {
            Ok(_) => first_parse_error(items.drop_first()),
            Err(e) => Some(e),
        }
    }
}

/// Running a raw stream extended by one directive is one raw step after
/// running the stream.
proof fn lemma_raw_run_snoc(st: StateModel, items: Seq<RawAnnotationModel>, a: RawAnnotationModel)
    ensures
        raw_run(st, items.push(a)) == raw_step(raw_run(st, items), a),
    decreases items.len(),
{
    if items.len() == 0 {
        assert(items.push(a)[0] == a);
        assert(items.push(a).drop_first() =~= Seq::<RawAnnotationModel>::empty());
        assert(raw_run(st, items.push(a)) == raw_run(raw_step(st, a), items.push(a).drop_first()));
        assert(raw_run(st, items) == st);
    } else {
        assert(items.push(a)[0] == items[0]);
        assert(items.push(a).drop_first() =~= items.drop_first().push(a));
        lemma_raw_run_snoc(raw_step(st, items[0]), items.drop_first(), a);
        assert(raw_run(st, items.push(a)) == raw_run(
            raw_step(st, items[0]),
            items.drop_first().push(a),
        ));
        assert(raw_run(st, items) == raw_run(raw_step(st, items[0]), items.drop_first()));
    }
}

/// When every directive of the stream parses, there is no first parse
/// error.
proof fn lemma_first_parse_error_none(items: Seq<RawAnnotationModel>)
    requires
        forall|j: int|
            0 <= j < items.len() ==> spec_parse(
                (#[trigger] items[j]).directive,
                items[j].argument,
            ) is Ok,
    ensures
        first_parse_error(items) is None,
    decreases items.len(),
{
    if items.len() > 0 {
        assert forall|j: int| 0 <= j < items.drop_first().len() implies spec_parse(
            (#[trigger] items.drop_first()[j]).directive,
            items.drop_first()[j].argument,
        ) is Ok by {
            assert(items.drop_first()[j] == items[j + 1]);
        }
        lemma_first_parse_error_none(items.drop_first());
    }
}

/// The first directive that fails to parse determines the first parse
/// error.
proof fn lemma_first_parse_error_at(items: Seq<RawAnnotationModel>, k: int, e: ParseErrorModel)
    requires
        0 <= k < items.len(),
        forall|j: int|
            0 <= j < k ==> spec_parse(
                (#[trigger] items[j]).directive,
                items[j].argument,
            ) is Ok,
        spec_parse(items[k].directive, items[k].argument) == Err::<
            crate::model::AnnotationKindModel,
            ParseErrorModel,
        >(e),
    ensures
        first_parse_error(items) == Some(e),
    decreases items.len(),
{
    if k == 0 {
    } else {
        assert forall|j: int| 0 <= j < k - 1 implies spec_parse(
            (#[trigger] items.drop_first()[j]).directive,
            items.drop_first()[j].argument,
        ) is Ok by {
            assert(items.drop_first()[j] == items[j + 1]);
        }
        assert(items.drop_first()[k - 1] == items[k]);
        lemma_first_parse_error_at(items.drop_first(), k - 1, e);
    }
}

/// The finished graph and diagnostics of a default-mode raw resolution are
/// exactly what [`resolve_raw_model`] assigns to the stream.
pub open spec fn matches_raw_resolution(
    items: Seq<RawAnnotationModel>,
    g: GraphModel,
    diags: Seq<DiagnosticModel>,
) -> bool {
    &&& g.entities == graph_entities(resolve_raw_model(items))
    &&& g.flows == resolve_raw_model(items).flows
    &&& diags == resolve_raw_model(items).diags
}

/// Resolves raw directive text.  In default mode every directive that
/// fails to parse is skipped and recorded as a `Parse` diagnostic, and the
/// call always succeeds.  In fail-fast mode the first parse error aborts
/// the whole resolution and no graph is returned.
pub fn resolve_directives(items: &Vec<RawAnnotation>, fail_fast: bool) -> (r: Result<
    Resolution,
    ParseError,
>)
    ensures
        match r {
            Ok(res) => {
                &&& first_parse_error(raw_models(items@)) is Some ==> !fail_fast
                &&& matches_raw_resolution(
                    raw_models(items@),
                    res.graph@,
                    diag_models(res.diagnostics@),
                )
            },
            Err(e) => fail_fast && first_parse_error(raw_models(items@)) == Some(e@),
        },
        !fail_fast ==> r is Ok,
{
    let ghost ms = raw_models(items@);
    let mut b = Builder::new();
    let n = items.len();
    let mut idx: usize = 0;
    while idx < n
        invariant
            0 <= idx <= n,
            n == items@.len(),
            ms == raw_models(items@),
            state_wf(b@),
            b@ == raw_run(init_state(), ms.take(idx as int)),
            fail_fast ==> forall|j: int|
                0 <= j < idx ==> spec_parse(
                    (#[trigger] ms[j]).directive,
                    ms[j].argument,
                ) is Ok,
        decreases n - idx,
    {
        let it = &items[idx];
        match parse_annotation(it.directive.as_str(), it.argument.as_str()) {
            Ok(kind) => {
                let ann = Annotation {
                    context_id: it.context_id.clone(),
                    source: copy_source(&it.source),
                    kind,
                };
                proof {
                    assert(spec_parse(ms[idx as int].directive, ms[idx as int].argument)
                        == Ok::<crate::model::AnnotationKindModel, ParseErrorModel>(ann.kind@));
                }
                b.apply(&ann);
                proof {
                    assert(raw_step(raw_run(init_state(), ms.take(idx as int)), ms[idx as int])
                        == step(raw_run(init_state(), ms.take(idx as int)), ann@));
                }
            },
            Err(e) => {
                if fail_fast {
                    proof {
                        lemma_first_parse_error_at(ms, idx as int, e@);
                    }
                    return Err(e);
                }
                let src = copy_source(&it.source);
                b.report_parse(e, src);
            },
        }
        proof {
            lemma_raw_run_snoc(init_state(), ms.take(idx as int), ms[idx as int]);
            assert(ms.take(idx as int).push(ms[idx as int]) =~= ms.take(idx as int + 1));
        }
        idx += 1;
    }
    proof {
        assert(ms.take(n as int) =~= ms);
        if fail_fast {
            lemma_first_parse_error_none(ms);
        }
    }
    Ok(b.finish())
}

} // verus!
