//! What sidecars have to be like to be accepted.

use vstd::prelude::*;

use crate::collections::{
    collected, count_where, first_error, lemma_collected_member, lemma_no_error,
    lemma_stable_sorted, lemma_stable_sorted_member, second, stable_sorted, strictly_sorted,
};
use crate::compiler::sidecar::{
    binding_complaint, binding_error, bindings_error, boundaries_error, boundary_unknown,
    definition_with, id_set, ids_repeat, slot, source_error, started_error, InvocationView,
};
use crate::compiler::stream::{
    binding_span_complaint, bindings_in, bytes_error, completion_error, crates_of,
    definition_span_complaint, definitions_in, described, endpoint_unknown, endpoints_error,
    fact_names, fact_repeat_error, facts_error, finishes_in, first_repeat, in_order, keyed,
    length_of, named, place_complaint, record_complaint, records_error, reference_span_complaint,
    references_in, rest_error, roots_in, source_complaint, source_repeat_error, sources_in,
    span_error, spans_error, Identified,
};
use crate::compiler::world_laws::lemma_kept;
use crate::protocol::{
    Availability, CompilerDefId, Definition, DefinitionKind, DefinitionView, EventView,
    HandshakeView, InvocationStartedView, PublicBinding, PublicBindingView,
    RecordView, Reference, ReferenceView, Root, RootView, SourceFile, SourceFileView,
    SourceSpanView, MAX_SIDECAR_BYTES,
};

verus! {

/// A repeated identity is found just where there is one.
proof fn lemma_repeat(names: Seq<(Seq<char>, Seq<char>)>, from: int)
    requires
        0 <= from,
    ensures
        first_repeat(names, from) is Some <==> exists|i: int, j: int|
            0 <= i < j < names.len() && from <= j && (#[trigger] names[i]).1 == (
            #[trigger] names[j]).1,
    decreases names.len() - from,
{
    if from < names.len() {
        lemma_repeat(names, from + 1);
        if exists|j: int| 0 <= j < from && (#[trigger] names[j]).1 == names[from].1 {
            let i = choose|j: int| 0 <= j < from && (#[trigger] names[j]).1 == names[from].1;
            assert(names[i].1 == names[from].1);
        } else if exists|i: int, j: int|
            0 <= i < j < names.len() && from <= j && (#[trigger] names[i]).1 == (
            #[trigger] names[j]).1 {
            let (i, j) = choose|i: int, j: int|
                0 <= i < j < names.len() && from <= j && (#[trigger] names[i]).1 == (
                #[trigger] names[j]).1;
            if j == from {
                assert(names[i].1 == names[from].1);
            }
            assert(from + 1 <= j);
        }
    }
}

/// The identities of all facts of an invocation, one after the other.
pub open spec fn fact_ids(facts: InvocationView) -> Seq<Seq<char>> {
    Seq::new(facts.definitions.len(), |i: int| facts.definitions[i].id) + Seq::new(
        facts.bindings.len(),
        |i: int| facts.bindings[i].id,
    ) + Seq::new(facts.roots.len(), |i: int| facts.roots[i].id) + Seq::new(
        facts.references.len(),
        |i: int| facts.references[i].id,
    )
}

/// No two source files of an accepted invocation have one key, and no two facts one identity.
pub proof fn law_identities_are_distinct(facts: InvocationView)
    ensures
        source_repeat_error(facts.sources) is None <==> forall|i: int, j: int|
            0 <= i < j < facts.sources.len() ==> (#[trigger] facts.sources[i]).key != (
            #[trigger] facts.sources[j]).key,
        fact_repeat_error(facts) is None <==> forall|i: int, j: int|
            0 <= i < j < fact_ids(facts).len() ==> #[trigger] fact_ids(facts)[i]
                != #[trigger] fact_ids(facts)[j],
{
    let sources = named::<SourceFile>("source file"@, facts.sources);
    let names = fact_names(facts);
    let ids = fact_ids(facts);
    lemma_repeat(sources, 0);
    lemma_repeat(names, 0);
    assert(names.len() == ids.len());
    assert forall|i: int| 0 <= i < ids.len() implies (#[trigger] names[i]).1 == ids[i] by {}
    if source_repeat_error(facts.sources) is Some {
        let (i, j) = choose|i: int, j: int|
            0 <= i < j < sources.len() && 0 <= j && (#[trigger] sources[i]).1 == (
            #[trigger] sources[j]).1;
        assert(facts.sources[i].key == facts.sources[j].key);
    } else {
        assert forall|i: int, j: int| 0 <= i < j < facts.sources.len() implies (
        #[trigger] facts.sources[i]).key != (#[trigger] facts.sources[j]).key by {
            assert(sources[i].1 == facts.sources[i].key);
            assert(sources[j].1 == facts.sources[j].key);
        }
    }
    if fact_repeat_error(facts) is Some {
        let (i, j) = choose|i: int, j: int|
            0 <= i < j < names.len() && 0 <= j && (#[trigger] names[i]).1 == (
            #[trigger] names[j]).1;
        assert(ids[i] == ids[j]);
    } else {
        assert forall|i: int, j: int| 0 <= i < j < ids.len() implies #[trigger] ids[i]
            != #[trigger] ids[j] by {
            assert(names[i].1 == ids[i]);
            assert(names[j].1 == ids[j]);
        }
    }
}

/// Whether a span lies within a source file, on a line and in a column that count from one.
pub open spec fn span_is_good(sources: Seq<SourceFileView>, span: SourceSpanView) -> bool {
    &&& span.start <= span.end
    &&& span.line >= 1
    &&& span.column >= 1
    &&& exists|n: int|
        0 <= n < sources.len() && (#[trigger] sources[n]).key == span.file && span.end
            <= sources[n].byte_len
}

/// Whether an optional span is good, where there is one.
pub open spec fn any_span_is_good(
    sources: Seq<SourceFileView>,
    span: Option<SourceSpanView>,
) -> bool {
    span is Some ==> span_is_good(sources, span->0)
}

proof fn lemma_length(sources: Seq<SourceFileView>, key: Seq<char>)
    requires
        forall|i: int, j: int|
            0 <= i < j < sources.len() ==> (#[trigger] sources[i]).key != (
            #[trigger] sources[j]).key,
    ensures
        forall|n: int|
            0 <= n < sources.len() && (#[trigger] sources[n]).key == key ==> length_of(sources, key)
                == Some(sources[n].byte_len),
        length_of(sources, key) is Some ==> exists|n: int|
            0 <= n < sources.len() && (#[trigger] sources[n]).key == key,
    decreases sources.len(),
{
    if sources.len() > 0 {
        let head = sources.drop_last();
        lemma_length(head, key);
        assert forall|n: int| 0 <= n < sources.len() && (#[trigger] sources[n]).key
            == key implies length_of(sources, key) == Some(sources[n].byte_len) by {
            if n < head.len() {
                assert(head[n] == sources[n]);
                assert(sources[n].key != sources[sources.len() - 1].key);
            }
        }
        if sources.last().key == key {
            assert(sources[sources.len() - 1].key == key);
        } else if length_of(head, key) is Some {
            let n = choose|n: int| 0 <= n < head.len() && (#[trigger] head[n]).key == key;
            assert(sources[n].key == key);
        }
    }
}

proof fn lemma_span(span: SourceSpanView, sources: Seq<SourceFileView>)
    requires
        forall|i: int, j: int|
            0 <= i < j < sources.len() ==> (#[trigger] sources[i]).key != (
            #[trigger] sources[j]).key,
    ensures
        span_error(span, sources) is None <==> span_is_good(sources, span),
{
    lemma_length(sources, span.file);
    if span_error(span, sources) is None {
        let n = choose|n: int| 0 <= n < sources.len() && (#[trigger] sources[n]).key == span.file;
        assert(length_of(sources, span.file) == Some(sources[n].byte_len));
    }
}

/// Every span of an accepted invocation lies within one of its source files.
pub proof fn law_spans_lie_in_their_files(facts: InvocationView)
    requires
        forall|i: int, j: int|
            0 <= i < j < facts.sources.len() ==> (#[trigger] facts.sources[i]).key != (
            #[trigger] facts.sources[j]).key,
    ensures
        spans_error(facts) is None <==> {
            &&& forall|i: int|
                0 <= i < facts.definitions.len() ==> any_span_is_good(
                    facts.sources,
                    (#[trigger] facts.definitions[i]).span,
                ) && any_span_is_good(facts.sources, facts.definitions[i].attribution_callsite)
            &&& forall|i: int|
                0 <= i < facts.bindings.len() ==> any_span_is_good(
                    facts.sources,
                    (#[trigger] facts.bindings[i]).span,
                )
            &&& forall|i: int|
                0 <= i < facts.references.len() ==> any_span_is_good(
                    facts.sources,
                    (#[trigger] facts.references[i]).span,
                )
        },
{
    let sources = facts.sources;
    let d = definition_span_complaint(facts.definitions, sources);
    let b = binding_span_complaint(facts.bindings, sources);
    let r = reference_span_complaint(facts.references, sources);
    lemma_no_error(facts.definitions.len() as int, d, 0);
    lemma_no_error(facts.bindings.len() as int, b, 0);
    lemma_no_error(facts.references.len() as int, r, 0);
    assert forall|span: SourceSpanView|
        span_error(span, sources) is None <==> #[trigger] span_is_good(sources, span) by {
        lemma_span(span, sources);
    }
    assert forall|i: int| 0 <= i < facts.definitions.len() implies (#[trigger] d(i) is None
        <==> any_span_is_good(sources, facts.definitions[i].span) && any_span_is_good(
        sources,
        facts.definitions[i].attribution_callsite,
    )) by {}
    assert forall|i: int| 0 <= i < facts.bindings.len() implies (#[trigger] b(i) is None
        <==> any_span_is_good(sources, facts.bindings[i].span)) by {}
    assert forall|i: int| 0 <= i < facts.references.len() implies (#[trigger] r(i) is None
        <==> any_span_is_good(sources, facts.references[i].span)) by {}
    if spans_error(facts) is None {
        assert forall|i: int| 0 <= i < facts.definitions.len() implies any_span_is_good(
            sources,
            (#[trigger] facts.definitions[i]).span,
        ) && any_span_is_good(sources, facts.definitions[i].attribution_callsite) by {
            assert(d(i) is None);
        }
        assert forall|i: int| 0 <= i < facts.bindings.len() implies any_span_is_good(
            sources,
            (#[trigger] facts.bindings[i]).span,
        ) by {
            assert(b(i) is None);
        }
        assert forall|i: int| 0 <= i < facts.references.len() implies any_span_is_good(
            sources,
            (#[trigger] facts.references[i]).span,
        ) by {
            assert(r(i) is None);
        }
    }
}

/// Whether an invocation defines an identity.
pub open spec fn defines(definitions: Seq<DefinitionView>, id: CompilerDefId) -> bool {
    exists|n: int| 0 <= n < definitions.len() && (#[trigger] definitions[n]).compiler_id == id
}

/// Whether an invocation defines something of a crate.
pub open spec fn has_crate(definitions: Seq<DefinitionView>, crate_id: u64) -> bool {
    exists|n: int|
        0 <= n < definitions.len() && (#[trigger] definitions[n]).compiler_id.stable_crate_id
            == crate_id
}

proof fn lemma_ids(definitions: Seq<DefinitionView>)
    ensures
        forall|id: CompilerDefId| #[trigger]
            id_set(definitions).contains(id) <==> defines(definitions, id),
        forall|crate_id: u64| #[trigger]
            crates_of(definitions).contains(crate_id) <==> has_crate(definitions, crate_id),
{
    let f = |definition: DefinitionView| Some(definition.compiler_id);
    let g = |definition: DefinitionView| Some(definition.compiler_id.stable_crate_id);
    assert forall|id: CompilerDefId| #[trigger]
        id_set(definitions).contains(id) <==> defines(definitions, id) by {
        if id_set(definitions).contains(id) {
            let n = choose|n: int|
                0 <= n < definitions.len() && f(#[trigger] definitions[n]) == Some(id);
            assert(definitions[n].compiler_id == id);
        }
        if defines(definitions, id) {
            let n = choose|n: int|
                0 <= n < definitions.len() && (#[trigger] definitions[n]).compiler_id == id;
            assert(f(definitions[n]) == Some(id));
        }
    }
    assert forall|crate_id: u64| #[trigger]
        crates_of(definitions).contains(crate_id) <==> has_crate(definitions, crate_id) by {
        if crates_of(definitions).contains(crate_id) {
            let n = choose|n: int|
                0 <= n < definitions.len() && g(#[trigger] definitions[n]) == Some(crate_id);
            assert(definitions[n].compiler_id.stable_crate_id == crate_id);
        }
        if has_crate(definitions, crate_id) {
            let n = choose|n: int|
                0 <= n < definitions.len() && (
                #[trigger] definitions[n]).compiler_id.stable_crate_id == crate_id;
            assert(g(definitions[n]) == Some(crate_id));
        }
    }
}

/// In an accepted invocation all parents, visibility boundaries, roots and sources of references
/// are defined, and so are targets of references that lie in its own crate.
pub proof fn law_ends_are_defined(facts: InvocationView)
    ensures
        boundaries_error(facts.definitions, id_set(facts.definitions)) is None <==> forall|i: int|
            0 <= i < facts.definitions.len() ==> {
                let definition = #[trigger] facts.definitions[i];
                &&& definition.parent is Some ==> defines(facts.definitions, definition.parent->0)
                &&& definition.nominal_visibility is Restricted ==> defines(
                    facts.definitions,
                    definition.nominal_visibility->Restricted_0,
                )
            },
        endpoints_error(facts) is None <==> {
            &&& forall|i: int|
                0 <= i < facts.roots.len() ==> defines(
                    facts.definitions,
                    (#[trigger] facts.roots[i]).definition,
                )
            &&& forall|i: int|
                0 <= i < facts.references.len() ==> {
                    let reference = #[trigger] facts.references[i];
                    &&& defines(facts.definitions, reference.from)
                    &&& has_crate(facts.definitions, reference.to.stable_crate_id) ==> defines(
                        facts.definitions,
                        reference.to,
                    )
                }
        },
{
    let ids = id_set(facts.definitions);
    lemma_ids(facts.definitions);
    if boundaries_error(facts.definitions, ids) is None {
        assert forall|i: int| 0 <= i < facts.definitions.len() implies {
            let definition = #[trigger] facts.definitions[i];
            &&& definition.parent is Some ==> defines(facts.definitions, definition.parent->0)
            &&& definition.nominal_visibility is Restricted ==> defines(
                facts.definitions,
                definition.nominal_visibility->Restricted_0,
            )
        } by {
            assert(!boundary_unknown(facts.definitions[i], ids));
            if facts.definitions[i].parent is Some {
                assert(ids.contains(facts.definitions[i].parent->0));
            }
        }
    }
    if endpoints_error(facts) is None {
        assert forall|i: int| 0 <= i < facts.references.len() implies {
            let reference = #[trigger] facts.references[i];
            &&& defines(facts.definitions, reference.from)
            &&& has_crate(facts.definitions, reference.to.stable_crate_id) ==> defines(
                facts.definitions,
                reference.to,
            )
        } by {
            assert(!endpoint_unknown(facts.references[i], ids, crates_of(facts.definitions)));
            assert(ids.contains(facts.references[i].from));
        }
        assert forall|i: int| 0 <= i < facts.roots.len() implies defines(
            facts.definitions,
            (#[trigger] facts.roots[i]).definition,
        ) by {
            assert(ids.contains(facts.roots[i].definition));
        }
    }
}

proof fn lemma_definition_with(definitions: Seq<DefinitionView>, n: int)
    requires
        0 <= n < definitions.len(),
        forall|i: int, j: int|
            0 <= i < j < definitions.len() ==> (#[trigger] definitions[i]).compiler_id != (
            #[trigger] definitions[j]).compiler_id,
    ensures
        definition_with(definitions, definitions[n].compiler_id) == Some(definitions[n]),
    decreases definitions.len(),
{
    if n < definitions.len() - 1 {
        let head = definitions.drop_last();
        assert(definitions[n].compiler_id != definitions[definitions.len() - 1].compiler_id);
        assert(head[n] == definitions[n]);
        lemma_definition_with(head, n);
    }
}

proof fn lemma_undefined(definitions: Seq<DefinitionView>, id: CompilerDefId)
    ensures
        definition_with(definitions, id) matches Some(found) ==> exists|n: int|
            0 <= n < definitions.len() && #[trigger] definitions[n] == found && found.compiler_id
                == id,
    decreases definitions.len(),
{
    if definitions.len() > 0 {
        let head = definitions.drop_last();
        lemma_undefined(head, id);
        if definitions.last().compiler_id == id {
            assert(definitions[definitions.len() - 1] == definitions.last());
        } else if let Some(found) = definition_with(head, id) {
            let n = choose|n: int|
                0 <= n < head.len() && #[trigger] head[n] == found && found.compiler_id == id;
            assert(definitions[n] == found);
        }
    }
}

/// Whether a definition of an invocation has an identity and one of two kinds.
pub open spec fn defined_as(
    definitions: Seq<DefinitionView>,
    id: CompilerDefId,
    kind: DefinitionKind,
    other: DefinitionKind,
) -> bool {
    exists|n: int|
        0 <= n < definitions.len() && (#[trigger] definitions[n]).compiler_id == id && (
        definitions[n].kind == kind || definitions[n].kind == other)
}

/// Whether a public binding is good: it has a name and a path, in a module or crate that is
/// defined, comes through an import that is defined, and leads to what its path says where its
/// target is of this crate.
pub open spec fn binding_is_good(
    definitions: Seq<DefinitionView>,
    binding: PublicBindingView,
) -> bool {
    &&& binding.name.len() > 0
    &&& binding.resolved_target_path.len() > 0
    &&& defined_as(definitions, binding.parent, DefinitionKind::Crate, DefinitionKind::Module)
    &&& binding.exposing_import is Some ==> defined_as(
        definitions,
        binding.exposing_import->0,
        DefinitionKind::Import,
        DefinitionKind::ExternCrate,
    )
    &&& has_crate(definitions, binding.target.stable_crate_id) ==> exists|n: int|
        0 <= n < definitions.len() && (#[trigger] definitions[n]).compiler_id == binding.target
            && definitions[n].definition_path == binding.resolved_target_path
}

/// In an accepted invocation every public binding is good, and no two take one name of a module in
/// one namespace.
pub proof fn law_bindings_are_good(facts: InvocationView)
    requires
        !ids_repeat(facts.definitions),
    ensures
        bindings_error(
            facts.bindings,
            facts.definitions,
            id_set(facts.definitions),
            crates_of(facts.definitions),
        ) is None <==> {
            &&& forall|i: int|
                0 <= i < facts.bindings.len() ==> binding_is_good(
                    facts.definitions,
                    #[trigger] facts.bindings[i],
                )
            &&& forall|i: int, j: int|
                0 <= i < j < facts.bindings.len() ==> !((#[trigger] facts.bindings[i]).parent == (
                #[trigger] facts.bindings[j]).parent && facts.bindings[i].name
                    == facts.bindings[j].name && facts.bindings[i].namespace
                    == facts.bindings[j].namespace)
        },
{
    let definitions = facts.definitions;
    let bindings = facts.bindings;
    let ids = id_set(definitions);
    let crates = crates_of(definitions);
    let complaint = binding_complaint(bindings, definitions, ids, crates);
    lemma_no_error(bindings.len() as int, complaint, 0);
    lemma_ids(definitions);
    assert forall|i: int| 0 <= i < bindings.len() implies (
    binding_error(#[trigger] bindings[i], definitions, ids, crates)
        is None <==> binding_is_good(definitions, bindings[i])) by {
        lemma_binding(definitions, bindings[i]);
    }
    let error = bindings_error(bindings, definitions, ids, crates);
    if error is None {
        assert forall|i: int| 0 <= i < bindings.len() implies binding_is_good(
            definitions,
            #[trigger] bindings[i],
        ) by {
            assert(complaint(i) is None);
        }
        assert forall|i: int, j: int| 0 <= i < j < bindings.len() implies !((
        #[trigger] bindings[i]).parent == (#[trigger] bindings[j]).parent && bindings[i].name
            == bindings[j].name && bindings[i].namespace == bindings[j].namespace) by {
            assert(complaint(j) is None);
            if bindings[i].parent == bindings[j].parent && bindings[i].name == bindings[j].name
                && bindings[i].namespace == bindings[j].namespace {
                assert(slot(bindings[i])
                    == slot(bindings[j]));
            }
        }
    } else {
        let i = choose|i: int| 0 <= i < bindings.len() && #[trigger] complaint(i) == error;
        assert(complaint(i) is Some);
        assert(bindings[i] == bindings[i]);
    }
}

proof fn lemma_binding(definitions: Seq<DefinitionView>, binding: PublicBindingView)
    requires
        !ids_repeat(definitions),
    ensures
        binding_error(
            binding,
            definitions,
            id_set(definitions),
            crates_of(definitions),
        ) is None <==> binding_is_good(definitions, binding),
{
    lemma_ids(definitions);
    lemma_found(definitions, binding.parent);
    if binding.exposing_import is Some {
        lemma_found(definitions, binding.exposing_import->0);
    }
    lemma_found(definitions, binding.target);
}

/// The definition of an identity is the only one with it.
proof fn lemma_found(definitions: Seq<DefinitionView>, id: CompilerDefId)
    requires
        !ids_repeat(definitions),
    ensures
        forall|n: int|
            0 <= n < definitions.len() && (#[trigger] definitions[n]).compiler_id == id
                ==> definition_with(definitions, id) == Some(definitions[n]),
        definition_with(definitions, id) matches Some(found) ==> exists|n: int|
            0 <= n < definitions.len() && #[trigger] definitions[n] == found && found.compiler_id
                == id,
{
    lemma_undefined(definitions, id);
    assert forall|n: int|
        0 <= n < definitions.len() && (#[trigger] definitions[n]).compiler_id
            == id implies definition_with(definitions, id) == Some(definitions[n]) by {
        lemma_definition_with(definitions, n);
    }
}

/// Whether records are those of one invocation of a run, in their order.
pub open spec fn records_belong(records: Seq<RecordView>, run: Seq<char>) -> bool {
    forall|i: int|
        0 <= i < records.len() ==> {
            let record = #[trigger] records[i];
            &&& record.protocol_version == 5
            &&& record.run_id == run
            &&& record.invocation_id == records[0].invocation_id
            &&& record.sequence == i
        }
}

/// Whether records follow one another as they should: the invocation starts once, finishes once,
/// at the end, and tells its profile at most once.
pub open spec fn records_follow(records: Seq<RecordView>) -> bool {
    &&& records[0].event is InvocationStarted
    &&& forall|i: int| 0 < i < records.len() ==> !((#[trigger] records[i]).event is InvocationStarted)
    &&& forall|i: int|
        0 < i < records.len() - 1 ==> !((#[trigger] records[i]).event is InvocationFinished)
    &&& records.last().event is InvocationFinished
    &&& forall|i: int, j: int|
        0 < i < j < records.len() ==> !((#[trigger] records[i]).event is Profile && (
        #[trigger] records[j]).event is Profile)
}

/// Accepted records belong to one invocation of the run, made by the compiler of the handshake, and
/// follow one another as they should.
pub proof fn law_accepted_records_are_of_one_invocation(
    records: Seq<RecordView>,
    run: Seq<char>,
    handshake: HandshakeView,
)
    requires
        records_error(records, run, handshake) is None,
    ensures
        records.len() > 1,
        records_belong(records, run),
        records_follow(records),
        records[0].event->InvocationStarted_0.compiler == handshake.rustc,
        started_error(records[0].event->InvocationStarted_0) is None,
        rest_error(records) is None,
{
    let rest = records.skip(1);
    let complaint = record_complaint(records, run);
    let places = place_complaint(rest);
    lemma_no_error(records.len() as int, complaint, 0);
    lemma_no_error(rest.len() as int, places, 0);
    assert forall|i: int| 0 <= i < records.len() implies {
        let record = #[trigger] records[i];
        &&& record.protocol_version == 5
        &&& record.run_id == run
        &&& record.invocation_id == records[0].invocation_id
        &&& record.sequence == i
    } by {
        assert(complaint(i) is None);
    }
    let finishes = finishes_in(rest);
    let f = |record: RecordView|
        match record.event {
            EventView::InvocationFinished(value) => Some(value),
            _ => None,
        };
    assert(finishes.contains(finishes[0]));
    let at = lemma_collected_member(rest, f, finishes[0]);
    assert(rest[at].event is InvocationFinished);
    if at < rest.len() - 1 {
        assert(places(rest.len() - 1) is None);
    }
    assert(records.last() == rest[at]);
    assert forall|i: int| 0 < i < records.len() implies !((
    #[trigger] records[i]).event is InvocationStarted) by {
        assert(places(i - 1) is None);
        assert(rest[i - 1] == records[i]);
    }
    assert forall|i: int| 0 < i < records.len() - 1 implies !((
    #[trigger] records[i]).event is InvocationFinished) by {
        assert(places(i) is None);
        assert(rest[i - 1] == records[i]);
    }
    assert forall|i: int, j: int| 0 < i < j < records.len() implies !((
    #[trigger] records[i]).event is Profile && (#[trigger] records[j]).event is Profile) by {
        assert(places(j - 1) is None);
        assert(rest[i - 1] == records[i]);
        assert(rest[j - 1] == records[j]);
    }
}

/// A sidecar that does not belong to one invocation of the run, or whose records do not follow one
/// another as they should, is refused.
pub proof fn law_stray_records_are_refused(
    records: Seq<RecordView>,
    run: Seq<char>,
    handshake: HandshakeView,
)
    requires
        !records_belong(records, run) || records.len() < 2 || !records_follow(records),
    ensures
        records_error(records, run, handshake) is Some,
{
    if records_error(records, run, handshake) is None {
        law_accepted_records_are_of_one_invocation(records, run, handshake);
    }
}

/// An invocation has a profile just where its analysis was reached; the profile agrees with how it
/// was started, and nothing is complete without analysis.
pub proof fn law_completion_agrees_with_start(invocation: InvocationView)
    requires
        completion_error(invocation) is None,
    ensures
        invocation.finished.analysis_reached == (invocation.profile is Some),
        invocation.profile matches Some(profile) ==> profile.test_mode
            == invocation.started.test_mode && profile.target_triple
            == invocation.started.target_triple && profile.host_triple
            == invocation.started.compiler.host && profile.codegen.codegen_units > 0,
        !invocation.finished.analysis_reached ==> forall|i: int|
            0 <= i < invocation.products.len() ==> (#[trigger] invocation.products[i]).availability
                != Availability::Complete,
{
}

/// The start of an accepted invocation names its crate as its artifact does, says what it was
/// compiled for, from what and where to, and lists crate types and outputs in order.
pub proof fn law_starts_are_whole(started: InvocationStartedView)
    ensures
        started_error(started) is None <==> {
            &&& started.artifact.crate_name == started.crate_name
            &&& started.target_triple.len() > 0
            &&& started.input is Some
            &&& started.manifest_dir is Some
            &&& started.artifact.out_dir is Some
            &&& started.artifact.metadata is Some
            &&& started.artifact.metadata->0.len() > 0
            &&& started.artifact.crate_types.len() > 0
            &&& started.artifact.emit.len() > 0
            &&& strictly_sorted::<String>(started.artifact.crate_types)
            &&& strictly_sorted::<String>(started.artifact.emit)
        },
{
}

/// The hash of an accepted source file names its algorithm, one of those that are known, and is as
/// long as that algorithm's.
pub proof fn law_source_hashes_fit_their_algorithm(source: SourceFileView)
    requires
        source_error(source) is None,
    ensures
        source.source_hash_algorithm == "md5"@ || source.source_hash_algorithm == "sha1"@
            || source.source_hash_algorithm == "sha256"@ || source.source_hash_algorithm
            == "blake3"@,
        source.source_hash.len() == source.source_hash_algorithm.len() + 1 + if source.source_hash_algorithm
            == "md5"@ {
            32
        } else if source.source_hash_algorithm == "sha1"@ {
            40
        } else {
            64int
        },
        source.source_hash.take(source.source_hash_algorithm.len() as int)
            == source.source_hash_algorithm,
        source.source_hash[source.source_hash_algorithm.len() as int] == '=',
{
    reveal_strlit("=");
    let name = source.source_hash_algorithm;
    let prefix = name + "="@;
    assert(prefix.len() == name.len() + 1);
    assert(source.source_hash.take(prefix.len() as int) == prefix);
    assert(source.source_hash.take(name.len() as int) =~= prefix.take(name.len() as int)) by {
        assert forall|i: int| 0 <= i < name.len() implies source.source_hash[i] == prefix[i] by {
            assert(source.source_hash.take(prefix.len() as int)[i] == prefix[i]);
        }
    }
    assert(prefix.take(name.len() as int) =~= name);
    assert(source.source_hash.take(prefix.len() as int)[name.len() as int] == prefix[name.len() as int]);
}

/// A sidecar is read only where it is no longer than the limit and its last line is whole.
pub proof fn law_sidecars_end_with_a_line(bytes: Seq<u8>)
    ensures
        bytes_error(bytes) is None <==> 0 < bytes.len() <= MAX_SIDECAR_BYTES
            && bytes[bytes.len() - 1] == 10,
{
}

/// The facts of an invocation are accepted just where all that is asked of them holds.
pub proof fn law_all_facts_are_checked(facts: InvocationView)
    ensures
        facts_error(facts) is None <==> {
            &&& source_repeat_error(facts.sources) is None
            &&& fact_repeat_error(facts) is None
            &&& spans_error(facts) is None
            &&& forall|i: int, j: int|
                0 <= i < j < facts.definitions.len() ==> (#[trigger] facts.definitions[i]).compiler_id
                    != (#[trigger] facts.definitions[j]).compiler_id
            &&& boundaries_error(facts.definitions, id_set(facts.definitions)) is None
            &&& bindings_error(
                facts.bindings,
                facts.definitions,
                id_set(facts.definitions),
                crates_of(facts.definitions),
            ) is None
            &&& endpoints_error(facts) is None
        },
{
}

/// Records that belong together and follow one another as they should are accepted, where start
/// and rest are in order.
pub proof fn law_orderly_records_are_accepted(
    records: Seq<RecordView>,
    run: Seq<char>,
    handshake: HandshakeView,
)
    requires
        records.len() > 1,
        records_belong(records, run),
        records_follow(records),
        records[0].event->InvocationStarted_0.compiler == handshake.rustc,
        started_error(records[0].event->InvocationStarted_0) is None,
        rest_error(records) is None,
    ensures
        records_error(records, run, handshake) is None,
{
    let rest = records.skip(1);
    let complaint = record_complaint(records, run);
    let places = place_complaint(rest);
    lemma_no_error(records.len() as int, complaint, 0);
    lemma_no_error(rest.len() as int, places, 0);
    assert forall|i: int| 0 <= i < records.len() implies #[trigger] complaint(i) is None by {
        assert(records[i].sequence == i);
    }
    assert forall|i: int| 0 <= i < rest.len() implies #[trigger] places(i) is None by {
        assert(rest[i] == records[i + 1]);
        assert forall|j: int| 0 <= j < i implies !((
        #[trigger] rest[j]).event is InvocationFinished) by {
            assert(rest[j] == records[j + 1]);
        }
        assert forall|j: int| 0 <= j < i && rest[i].event is Profile implies !((
        #[trigger] rest[j]).event is Profile) by {
            assert(rest[j] == records[j + 1]);
        }
    }
}

/// What follows the start is accepted just where the invocation finished, its completion agrees
/// with its start, its one product is told, its sources are in order and its facts are.
pub proof fn law_all_records_are_checked(records: Seq<RecordView>)
    ensures
        rest_error(records) is None <==> {
            let rest = records.skip(1);
            let told = described(records);
            &&& exists|i: int|
                0 <= i < rest.len() && (#[trigger] rest[i]).event is InvocationFinished
            &&& completion_error(told) is None
            &&& told.products.len() == 1
            &&& forall|i: int|
                0 <= i < rest.len() && (#[trigger] rest[i]).event is SourceFile ==> source_error(
                    rest[i].event->SourceFile_0,
                ) is None
            &&& told.products[0].availability == Availability::Unavailable ==> {
                &&& sources_in(rest).len() == 0
                &&& definitions_in(rest).len() == 0
                &&& bindings_in(rest).len() == 0
                &&& references_in(rest).len() == 0
                &&& roots_in(rest).len() == 0
            }
            &&& told.products[0].availability != Availability::Unavailable ==> count_where(
                definitions_in(rest),
                |definition: DefinitionView| definition.kind == DefinitionKind::Crate,
            ) == 1
            &&& facts_error(told) is None
        },
{
    let rest = records.skip(1);
    let f = |record: RecordView|
        match record.event {
            EventView::InvocationFinished(value) => Some(value),
            _ => None,
        };
    let g = |record: RecordView|
        match record.event {
            EventView::SourceFile(value) => Some(value),
            _ => None,
        };
    let sources = sources_in(rest);
    let finishes = finishes_in(rest);
    lemma_no_error(sources.len() as int, source_complaint(sources), 0);
    if finishes.len() > 0 {
        assert(finishes.contains(finishes[0]));
        let at = lemma_collected_member(rest, f, finishes[0]);
        assert(rest[at].event is InvocationFinished);
    }
    if exists|i: int| 0 <= i < rest.len() && (#[trigger] rest[i]).event is InvocationFinished {
        let i = choose|i: int|
            0 <= i < rest.len() && (#[trigger] rest[i]).event is InvocationFinished;
        lemma_kept(rest, f, i);
    }
    let complaint = source_complaint(sources);
    if first_error(sources.len() as int, complaint, 0) is None {
        assert forall|i: int|
            0 <= i < rest.len() && (#[trigger] rest[i]).event is SourceFile implies source_error(
            rest[i].event->SourceFile_0,
        ) is None by {
            lemma_kept(rest, g, i);
            let n = choose|n: int|
                0 <= n < sources.len() && sources[n] == rest[i].event->SourceFile_0;
            assert(complaint(n) is None);
        }
    } else {
        let n = choose|n: int|
            0 <= n < sources.len() && #[trigger] complaint(n) == first_error(
                sources.len() as int,
                complaint,
                0,
            );
        assert(sources.contains(sources[n]));
        let at = lemma_collected_member(rest, g, sources[n]);
        assert(rest[at].event is SourceFile);
        assert(source_error(rest[at].event->SourceFile_0) is Some);
    }
}

/// Putting facts in order keeps them all.
proof fn lemma_in_order<T: Identified>(facts: Seq<<T as DeepView>::V>, fact: <T as DeepView>::V)
    ensures
        in_order::<T>(facts).contains(fact) <==> facts.contains(fact),
{
    broadcast use vstd::seq_lib::group_to_multiset_ensures;

    let all = keyed::<T>(facts);
    let sorted = stable_sorted::<String, T>(all);
    lemma_stable_sorted::<String, T>(all);
    if in_order::<T>(facts).contains(fact) {
        let n = choose|n: int| 0 <= n < second(sorted).len() && second(sorted)[n] == fact;
        lemma_stable_sorted_member::<String, T>(all, n);
        let m = choose|m: int| 0 <= m < all.len() && all[m] == sorted[n];
        assert(facts[m] == fact);
    }
    if facts.contains(fact) {
        let m = choose|m: int| 0 <= m < facts.len() && facts[m] == fact;
        assert(all.contains(all[m]));
        assert(all.to_multiset().count(all[m]) > 0);
        assert(sorted.to_multiset().count(all[m]) > 0);
        assert(sorted.contains(all[m]));
        let n = choose|n: int| 0 <= n < sorted.len() && sorted[n] == all[m];
        assert(second(sorted)[n] == fact);
    }
}

/// Every fact that was recorded is one of the invocation, and nothing else is.
pub proof fn law_invocations_hold_all_records(
    records: Seq<RecordView>,
    definition: DefinitionView,
    root: RootView,
    reference: ReferenceView,
    binding: PublicBindingView,
    source: SourceFileView,
)
    requires
        records.len() > 0,
    ensures
        described(records).id == records[0].invocation_id,
        described(records).definitions.contains(definition) <==> exists|i: int|
            0 < i < records.len() && (#[trigger] records[i]).event == EventView::Definition(
                definition,
            ),
        described(records).roots.contains(root) <==> exists|i: int|
            0 < i < records.len() && (#[trigger] records[i]).event == EventView::Root(root),
        described(records).references.contains(reference) <==> exists|i: int|
            0 < i < records.len() && (#[trigger] records[i]).event == EventView::Reference(
                reference,
            ),
        described(records).bindings.contains(binding) <==> exists|i: int|
            0 < i < records.len() && (#[trigger] records[i]).event == EventView::PublicBinding(
                binding,
            ),
        described(records).sources.contains(source) <==> exists|i: int|
            0 < i < records.len() && (#[trigger] records[i]).event == EventView::SourceFile(source),
{
    let rest = records.skip(1);
    lemma_in_order::<Definition>(definitions_in(rest), definition);
    lemma_in_order::<Root>(roots_in(rest), root);
    lemma_in_order::<Reference>(references_in(rest), reference);
    lemma_in_order::<PublicBinding>(bindings_in(rest), binding);
    lemma_in_order::<SourceFile>(sources_in(rest), source);
    let d = |record: RecordView|
        match record.event {
            EventView::Definition(value) => Some(value),
            _ => None,
        };
    let r = |record: RecordView|
        match record.event {
            EventView::Root(value) => Some(value),
            _ => None,
        };
    let f = |record: RecordView|
        match record.event {
            EventView::Reference(value) => Some(value),
            _ => None,
        };
    let b = |record: RecordView|
        match record.event {
            EventView::PublicBinding(value) => Some(value),
            _ => None,
        };
    let s = |record: RecordView|
        match record.event {
            EventView::SourceFile(value) => Some(value),
            _ => None,
        };
    lemma_picked(records, d, definition);
    lemma_picked(records, r, root);
    lemma_picked(records, f, reference);
    lemma_picked(records, b, binding);
    lemma_picked(records, s, source);
    if definitions_in(rest).contains(definition) {
        let i = choose|i: int|
            0 < i < records.len() && d(#[trigger] records[i]) == Some(definition);
        assert(records[i].event == EventView::Definition(definition));
    }
    if exists|i: int|
        0 < i < records.len() && (#[trigger] records[i]).event == EventView::Definition(
            definition,
        ) {
        let i = choose|i: int|
            0 < i < records.len() && (#[trigger] records[i]).event == EventView::Definition(
                definition,
            );
        assert(d(records[i]) == Some(definition));
    }
    if roots_in(rest).contains(root) {
        let i = choose|i: int| 0 < i < records.len() && r(#[trigger] records[i]) == Some(root);
        assert(records[i].event == EventView::Root(root));
    }
    if exists|i: int|
        0 < i < records.len() && (#[trigger] records[i]).event == EventView::Root(root) {
        let i = choose|i: int|
            0 < i < records.len() && (#[trigger] records[i]).event == EventView::Root(root);
        assert(r(records[i]) == Some(root));
    }
    if references_in(rest).contains(reference) {
        let i = choose|i: int| 0 < i < records.len() && f(#[trigger] records[i]) == Some(reference);
        assert(records[i].event == EventView::Reference(reference));
    }
    if exists|i: int|
        0 < i < records.len() && (#[trigger] records[i]).event == EventView::Reference(reference) {
        let i = choose|i: int|
            0 < i < records.len() && (#[trigger] records[i]).event == EventView::Reference(
                reference,
            );
        assert(f(records[i]) == Some(reference));
    }
    if bindings_in(rest).contains(binding) {
        let i = choose|i: int| 0 < i < records.len() && b(#[trigger] records[i]) == Some(binding);
        assert(records[i].event == EventView::PublicBinding(binding));
    }
    if exists|i: int|
        0 < i < records.len() && (#[trigger] records[i]).event == EventView::PublicBinding(
            binding,
        ) {
        let i = choose|i: int|
            0 < i < records.len() && (#[trigger] records[i]).event == EventView::PublicBinding(
                binding,
            );
        assert(b(records[i]) == Some(binding));
    }
    if sources_in(rest).contains(source) {
        let i = choose|i: int| 0 < i < records.len() && s(#[trigger] records[i]) == Some(source);
        assert(records[i].event == EventView::SourceFile(source));
    }
    if exists|i: int|
        0 < i < records.len() && (#[trigger] records[i]).event == EventView::SourceFile(source) {
        let i = choose|i: int|
            0 < i < records.len() && (#[trigger] records[i]).event == EventView::SourceFile(source);
        assert(s(records[i]) == Some(source));
    }
}

/// What is picked from the records after the first.
proof fn lemma_picked<B>(records: Seq<RecordView>, f: spec_fn(RecordView) -> Option<B>, item: B)
    requires
        records.len() > 0,
    ensures
        collected(records.skip(1), f).contains(item) <==> exists|i: int|
            0 < i < records.len() && f(#[trigger] records[i]) == Some(item),
{
    let rest = records.skip(1);
    if collected(rest, f).contains(item) {
        let at = lemma_collected_member(rest, f, item);
        assert(records[at + 1] == rest[at]);
    }
    if exists|i: int| 0 < i < records.len() && f(#[trigger] records[i]) == Some(item) {
        let i = choose|i: int| 0 < i < records.len() && f(#[trigger] records[i]) == Some(item);
        assert(rest[i - 1] == records[i]);
        lemma_kept(rest, f, i - 1);
    }
}

} // verus!
