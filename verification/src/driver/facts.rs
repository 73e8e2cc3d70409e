//! All facts of a crate, in order and with identities.

use vstd::prelude::*;

use crate::collections::{
    append_items, chosen, collect_items, collect_places, collected, drop_repeated_keys, earliest,
    first_per_key, flatten_places, flattened, keep_earliest, key_sorted, lemma_collected_whole,
    lemma_first_per_key, lemma_first_per_key_kept, lemma_stable_sorted, no_items, push_item, second,
    stable_sort, stable_sorted, take_second, values_of,
};
use crate::driver::definitions::{
    definition_kind, emitted, emitted_holder, emitted_parent, index_definitions, is_editable,
    is_emitted, reported_kind, visibility_editable, LocalDefinition, LocalDefinitionView,
    LocatedSpan, LocatedSpanView,
};
use crate::driver::references::{
    all_assembly_roots, all_references, collect_assembly_roots, collect_references, FoundReference,
    FoundReferenceView,
};
use crate::driver::roots::{
    collect_reference_roots, collect_visibility_bindings, reference_roots, visible_binding,
    CrateFacts, ModuleChild,
};
use crate::order::Ordered;
use crate::protocol::{
    CompilerDefId, Definition, DefinitionKind, DefinitionView, ExpansionOrigin, FactId, Reference,
    ReferenceKind, ReferenceView, Root, RootKind, RootView, SourceFile, SourceFileKey,
    SourceFileView, SourceSpan, SourceSpanView,
};
use crate::text::{decimal, decimal_text, no_text};

verus! {

/// All that is reported of a crate.
#[derive(Debug, PartialEq, Eq)]
pub struct CollectedFacts {
    pub sources: Vec<SourceFile>,
    pub definitions: Vec<Definition>,
    pub roots: Vec<Root>,
    pub references: Vec<Reference>,
}

/// The model of [`CollectedFacts`].
#[verifier::ext_equal]
pub struct CollectedFactsView {
    pub sources: Seq<SourceFileView>,
    pub definitions: Seq<DefinitionView>,
    pub roots: Seq<RootView>,
    pub references: Seq<ReferenceView>,
}

impl DeepView for CollectedFacts {
    type V = CollectedFactsView;

    open spec fn deep_view(&self) -> CollectedFactsView {
        CollectedFactsView {
            sources: self.sources.deep_view(),
            definitions: self.definitions.deep_view(),
            roots: self.roots.deep_view(),
            references: self.references.deep_view(),
        }
    }
}

impl Clone for CollectedFacts {
    fn clone(&self) -> (copy: Self)
        ensures
            copy.deep_view() == self.deep_view(),
    {
        let copy = CollectedFacts {
            sources: self.sources.clone(),
            definitions: self.definitions.clone(),
            roots: self.roots.clone(),
            references: self.references.clone(),
        };
        proof {
            assert(copy.sources.deep_view() =~= self.sources.deep_view());
            assert(copy.definitions.deep_view() =~= self.definitions.deep_view());
            assert(copy.roots.deep_view() =~= self.roots.deep_view());
            assert(copy.references.deep_view() =~= self.references.deep_view());
        }
        copy
    }
}

/// The order of definitions: by identity, kind, path, holder, name and place.
pub type DefinitionOrder = (
    CompilerDefId,
    (
        DefinitionKind,
        (
            String,
            (
                Option<CompilerDefId>,
                (Option<String>, (Option<SourceSpan>, (Option<SourceSpan>, ExpansionOrigin))),
            ),
        ),
    ),
);

/// The order of roots: by definition, kind and reason.
pub type RootOrder = (CompilerDefId, (RootKind, String));

/// The order of references: by ends, kind and place; those without a place come last.
pub type ReferenceOrder = (
    CompilerDefId,
    (CompilerDefId, (ReferenceKind, (bool, Option<SourceSpan>))),
);

/// What tells one reference from another.
pub type ReferenceIdentity = (CompilerDefId, (CompilerDefId, ReferenceKind));

/// A definition with its order.
pub open spec fn ordered_definition() -> spec_fn(DefinitionView) -> Option<
    (<DefinitionOrder as DeepView>::V, DefinitionView),
> {
    |definition: DefinitionView|
        Some(
            (
                (
                    definition.compiler_id,
                    (
                        definition.kind,
                        (
                            definition.definition_path,
                            (
                                definition.parent,
                                (
                                    definition.name,
                                    (
                                        definition.span,
                                        (
                                            definition.attribution_callsite,
                                            definition.expansion_origin,
                                        ),
                                    ),
                                ),
                            ),
                        ),
                    ),
                ),
                definition,
            ),
        )
}

/// The definitions in order.
pub open spec fn sorted_definitions(definitions: Seq<DefinitionView>) -> Seq<DefinitionView> {
    second(
        stable_sorted::<DefinitionOrder, Definition>(collected(definitions, ordered_definition())),
    )
}

fn sort_definitions(definitions: &Vec<Definition>) -> (sorted: Vec<Definition>)
    ensures
        sorted.deep_view() == sorted_definitions(definitions.deep_view()),
{
    let ghost f = ordered_definition();
    let pick = |definition: &Definition| -> (entry: Option<(DefinitionOrder, Definition)>)
        ensures
            entry.deep_view() == f(definition.deep_view()),
    {
        let copy = definition.clone();
        let order: DefinitionOrder = (
            copy.compiler_id,
            (
                copy.kind,
                (
                    copy.definition_path,
                    (
                        copy.parent,
                        (
                            copy.name,
                            (copy.span, (copy.attribution_callsite, copy.expansion_origin)),
                        ),
                    ),
                ),
            ),
        );
        Some((order, definition.clone()))
    };
    take_second(stable_sort(collect_items(definitions, pick, Ghost(f))))
}

/// A root with its order.
pub open spec fn ordered_root() -> spec_fn(RootView) -> Option<
    (<RootOrder as DeepView>::V, RootView),
> {
    |root: RootView| Some(((root.definition, (root.kind, root.reason)), root))
}

/// The roots in order, each once.
pub open spec fn sorted_roots(roots: Seq<RootView>) -> Seq<RootView> {
    second(first_per_key(stable_sorted::<RootOrder, Root>(collected(roots, ordered_root()))))
}

fn sort_roots(roots: &Vec<Root>) -> (sorted: Vec<Root>)
    ensures
        sorted.deep_view() == sorted_roots(roots.deep_view()),
{
    let ghost f = ordered_root();
    let pick = |root: &Root| -> (entry: Option<(RootOrder, Root)>)
        ensures
            entry.deep_view() == f(root.deep_view()),
    {
        let copy = root.clone();
        Some(((copy.definition, (copy.kind, copy.reason)), root.clone()))
    };
    take_second(drop_repeated_keys(stable_sort(collect_items(roots, pick, Ghost(f)))))
}

/// A reference with its order.
pub open spec fn ordered_reference() -> spec_fn(ReferenceView) -> Option<
    (<ReferenceOrder as DeepView>::V, ReferenceView),
> {
    |reference: ReferenceView|
        Some(
            (
                (
                    reference.from,
                    (
                        reference.to,
                        (reference.kind, (reference.span is None, reference.span)),
                    ),
                ),
                reference,
            ),
        )
}

/// A reference with what tells it from others.
pub open spec fn told_reference() -> spec_fn(ReferenceView) -> Option<
    (<ReferenceIdentity as DeepView>::V, ReferenceView),
> {
    |reference: ReferenceView|
        Some(((reference.from, (reference.to, reference.kind)), reference))
}

/// The references in order, each once, at its first place.
pub open spec fn sorted_references(references: Seq<ReferenceView>) -> Seq<ReferenceView> {
    second(
        first_per_key(
            collected(
                second(
                    stable_sorted::<ReferenceOrder, Reference>(
                        collected(references, ordered_reference()),
                    ),
                ),
                told_reference(),
            ),
        ),
    )
}

fn sort_references(references: &Vec<Reference>) -> (sorted: Vec<Reference>)
    ensures
        sorted.deep_view() == sorted_references(references.deep_view()),
{
    let ghost f = ordered_reference();
    let pick_order = |reference: &Reference| -> (entry: Option<(ReferenceOrder, Reference)>)
        ensures
            entry.deep_view() == f(reference.deep_view()),
    {
        let copy = reference.clone();
        Some(
            (
                (
                    copy.from,
                    (copy.to, (copy.kind, (reference.span.is_none(), copy.span))),
                ),
                reference.clone(),
            ),
        )
    };
    let ghost g = told_reference();
    let pick_identity = |reference: &Reference| -> (entry: Option<(ReferenceIdentity, Reference)>)
        ensures
            entry.deep_view() == g(reference.deep_view()),
    {
        Some(((reference.from, (reference.to, reference.kind)), reference.clone()))
    };
    let sorted = take_second(stable_sort(collect_items(references, pick_order, Ghost(f))));
    take_second(drop_repeated_keys(collect_items(&sorted, pick_identity, Ghost(g))))
}

/// The definitions, numbered.
pub open spec fn numbered_definitions(list: Seq<DefinitionView>) -> Seq<DefinitionView> {
    Seq::new(
        list.len(),
        |i: int| DefinitionView { id: "definition-"@ + decimal(i as nat), ..list[i] },
    )
}

fn number_definitions(list: Vec<Definition>) -> (numbered: Vec<Definition>)
    ensures
        numbered.deep_view() == numbered_definitions(list.deep_view()),
{
    let ghost all = list.deep_view();
    let mut numbered: Vec<Definition> = no_items();
    let mut place: usize = 0;
    proof {
        assert(all.len() == list.len());
    }
    for item in it: list
        invariant
            all.len() == it.seq().len(),
            forall|i: int| 0 <= i < all.len() ==> #[trigger] all[i] == it.seq()[i].deep_view(),
            place == it.index(),
            place <= all.len() <= usize::MAX,
            numbered.deep_view() =~= numbered_definitions(all).take(place as int),
    {
        proof {
            assert(all[place as int] == item.deep_view());
        }
        let mut id = "definition-".to_owned();
        id.append(decimal_text(place as u128).as_str());
        let mut item = item;
        item.id = FactId(id);
        push_item(&mut numbered, item);
        place = place + 1;
    }
    numbered
}

/// The roots, numbered.
pub open spec fn numbered_roots(list: Seq<RootView>) -> Seq<RootView> {
    Seq::new(
        list.len(),
        |i: int| RootView { id: "root-"@ + decimal(i as nat), ..list[i] },
    )
}

fn number_roots(list: Vec<Root>) -> (numbered: Vec<Root>)
    ensures
        numbered.deep_view() == numbered_roots(list.deep_view()),
{
    let ghost all = list.deep_view();
    let mut numbered: Vec<Root> = no_items();
    let mut place: usize = 0;
    proof {
        assert(all.len() == list.len());
    }
    for item in it: list
        invariant
            all.len() == it.seq().len(),
            forall|i: int| 0 <= i < all.len() ==> #[trigger] all[i] == it.seq()[i].deep_view(),
            place == it.index(),
            place <= all.len() <= usize::MAX,
            numbered.deep_view() =~= numbered_roots(all).take(place as int),
    {
        proof {
            assert(all[place as int] == item.deep_view());
        }
        let mut id = "root-".to_owned();
        id.append(decimal_text(place as u128).as_str());
        let mut item = item;
        item.id = FactId(id);
        push_item(&mut numbered, item);
        place = place + 1;
    }
    numbered
}

/// The references, numbered.
pub open spec fn numbered_references(list: Seq<ReferenceView>) -> Seq<ReferenceView> {
    Seq::new(
        list.len(),
        |i: int| ReferenceView { id: "reference-"@ + decimal(i as nat), ..list[i] },
    )
}

fn number_references(list: Vec<Reference>) -> (numbered: Vec<Reference>)
    ensures
        numbered.deep_view() == numbered_references(list.deep_view()),
{
    let ghost all = list.deep_view();
    let mut numbered: Vec<Reference> = no_items();
    let mut place: usize = 0;
    proof {
        assert(all.len() == list.len());
    }
    for item in it: list
        invariant
            all.len() == it.seq().len(),
            forall|i: int| 0 <= i < all.len() ==> #[trigger] all[i] == it.seq()[i].deep_view(),
            place == it.index(),
            place <= all.len() <= usize::MAX,
            numbered.deep_view() =~= numbered_references(all).take(place as int),
    {
        proof {
            assert(all[place as int] == item.deep_view());
        }
        let mut id = "reference-".to_owned();
        id.append(decimal_text(place as u128).as_str());
        let mut item = item;
        item.id = FactId(id);
        push_item(&mut numbered, item);
        place = place + 1;
    }
    numbered
}

/// The span of a place.
pub open spec fn span_of(place: Option<LocatedSpanView>) -> Option<SourceSpanView> {
    match place {
        Some(place) => Some(place.span),
        None => None,
    }
}

fn copy_span(place: &Option<LocatedSpan>) -> (span: Option<SourceSpan>)
    ensures
        span.deep_view() == span_of(place.deep_view()),
{
    match place {
        Some(place) => Some(place.span.clone()),
        None => None,
    }
}

/// Picks what is reported of the definition at a place.
pub open spec fn definition_at(definitions: Seq<LocalDefinitionView>) -> spec_fn(int) -> Option<
    DefinitionView,
> {
    |at: int|
        match reported_kind(definitions[at].kind, at == 0) {
            Some(kind) => Some(
                DefinitionView {
                    id: Seq::empty(),
                    compiler_id: definitions[at].compiler_id,
                    parent: emitted_holder(definitions, at),
                    name: definitions[at].name,
                    definition_path: definitions[at].path,
                    kind,
                    visibility_editable: is_editable(definitions, at),
                    nominal_visibility: definitions[at].visibility,
                    externally_reachable: definitions[at].externally_reachable,
                    span: span_of(definitions[at].location.span),
                    attribution_callsite: span_of(definitions[at].location.callsite),
                    expansion_origin: definitions[at].location.origin,
                },
            ),
            None => None,
        }
}

fn report_definition(definitions: &Vec<LocalDefinition>, at: usize) -> (definition: Option<
    Definition,
>)
    requires
        at < definitions.len(),
    ensures
        definition.deep_view() == definition_at(definitions.deep_view())(at as int),
{
    proof {
        assert(definitions.deep_view()[at as int] == definitions[at as int].deep_view());
    }
    match definition_kind(definitions[at].kind, at == 0) {
        Some(kind) => {
            let local = definitions[at].clone();
            Some(
                Definition {
                    id: FactId(no_text()),
                    compiler_id: local.compiler_id,
                    parent: emitted_parent(definitions, at),
                    name: local.name,
                    definition_path: local.path,
                    kind,
                    visibility_editable: visibility_editable(definitions, at),
                    nominal_visibility: local.visibility,
                    externally_reachable: local.externally_reachable,
                    span: copy_span(&local.location.span),
                    attribution_callsite: copy_span(&local.location.callsite),
                    expansion_origin: local.location.origin,
                },
            )
        },
        None => None,
    }
}

/// The file of a place, with its key.
pub open spec fn file_of(place: Option<LocatedSpanView>) -> Option<(Seq<char>, SourceFileView)> {
    match place {
        Some(place) => Some((place.source.key, place.source)),
        None => None,
    }
}

fn copy_file(place: &Option<LocatedSpan>) -> (file: Option<(SourceFileKey, SourceFile)>)
    ensures
        file.deep_view() == file_of(place.deep_view()),
{
    match place {
        Some(place) => Some((place.source.key.clone(), place.source.clone())),
        None => None,
    }
}

/// The file of a place, where there is one.
pub open spec fn file_list(place: Option<LocatedSpanView>) -> Seq<(Seq<char>, SourceFileView)> {
    match file_of(place) {
        Some(file) => seq![file],
        None => Seq::empty(),
    }
}

/// The files of the definition at a place.
pub open spec fn definition_files(definitions: Seq<LocalDefinitionView>, at: int) -> Seq<
    (Seq<char>, SourceFileView),
> {
    if is_emitted(definitions, at) {
        file_list(definitions[at].location.span) + file_list(definitions[at].location.callsite)
    } else {
        Seq::empty()
    }
}

fn list_definition_files(definitions: &Vec<LocalDefinition>, at: usize) -> (list: Vec<
    (SourceFileKey, SourceFile),
>)
    requires
        at < definitions.len(),
    ensures
        list.deep_view() == definition_files(definitions.deep_view(), at as int),
{
    let ghost told = definitions.deep_view()[at as int];
    proof {
        assert(told == definitions[at as int].deep_view());
    }
    let mut list: Vec<(SourceFileKey, SourceFile)> = no_items();
    if !emitted(definitions, at) {
        return list;
    }
    if let Some(file) = copy_file(&definitions[at].location.span) {
        push_item(&mut list, file);
    }
    proof {
        assert(list.deep_view() =~= file_list(told.location.span));
    }
    if let Some(file) = copy_file(&definitions[at].location.callsite) {
        push_item(&mut list, file);
    }
    proof {
        assert(list.deep_view() =~= file_list(told.location.span) + file_list(
            told.location.callsite,
        ));
    }
    list
}

/// The files of all definitions and references.
pub open spec fn located_files(
    definitions: Seq<LocalDefinitionView>,
    references: Seq<FoundReferenceView>,
) -> Seq<(Seq<char>, SourceFileView)> {
    flattened(definitions.len() as int, |at: int| definition_files(definitions, at)) + collected(
        references,
        |reference: FoundReferenceView| file_of(reference.location),
    )
}

fn list_located_files(
    definitions: &Vec<LocalDefinition>,
    references: &Vec<FoundReference>,
) -> (list: Vec<(SourceFileKey, SourceFile)>)
    ensures
        list.deep_view() == located_files(definitions.deep_view(), references.deep_view()),
{
    let ghost all = definitions.deep_view();
    let ghost f = |at: int| definition_files(all, at);
    let pick_definition = |at: usize| -> (list: Vec<(SourceFileKey, SourceFile)>)
        requires
            at < definitions.len(),
        ensures
            list.deep_view() == f(at as int),
    {
        list_definition_files(definitions, at)
    };
    let ghost g = |reference: FoundReferenceView| file_of(reference.location);
    let pick_reference = |reference: &FoundReference| -> (file: Option<(SourceFileKey, SourceFile)>)
        ensures
            file.deep_view() == g(reference.deep_view()),
    {
        copy_file(&reference.location)
    };
    let mut list = flatten_places(definitions.len(), pick_definition, Ghost(f));
    append_items(&mut list, collect_items(references, pick_reference, Ghost(g)));
    list
}

/// A reference as it is reported.
pub open spec fn reported_reference() -> spec_fn(FoundReferenceView) -> Option<ReferenceView> {
    |reference: FoundReferenceView|
        Some(
            ReferenceView {
                id: Seq::empty(),
                from: reference.from,
                to: reference.to,
                kind: reference.kind,
                span: span_of(reference.location),
            },
        )
}

fn report_references(references: &Vec<FoundReference>) -> (list: Vec<Reference>)
    ensures
        list.deep_view() == collected(references.deep_view(), reported_reference()),
{
    let ghost f = reported_reference();
    let pick = |reference: &FoundReference| -> (reported: Option<Reference>)
        ensures
            reported.deep_view() == f(reference.deep_view()),
    {
        Some(
            Reference {
                id: FactId(no_text()),
                from: reference.from,
                to: reference.to,
                kind: reference.kind,
                span: copy_span(&reference.location),
            },
        )
    };
    collect_items(references, pick, Ghost(f))
}

/// Facts in order and with identities.
pub open spec fn identified(facts: CollectedFactsView) -> CollectedFactsView {
    CollectedFactsView {
        sources: facts.sources,
        definitions: numbered_definitions(sorted_definitions(facts.definitions)),
        roots: numbered_roots(sorted_roots(facts.roots)),
        references: numbered_references(sorted_references(facts.references)),
    }
}

/// Puts facts in order and gives each an identity.
pub fn sort_and_identify_facts(facts: CollectedFacts) -> (sorted: CollectedFacts)
    ensures
        sorted.deep_view() == identified(facts.deep_view()),
{
    CollectedFacts {
        sources: facts.sources,
        definitions: number_definitions(sort_definitions(&facts.definitions)),
        roots: number_roots(sort_roots(&facts.roots)),
        references: number_references(sort_references(&facts.references)),
    }
}

/// All that is reported of a crate, before it is put in order.
pub open spec fn raw_facts(
    definitions: Seq<LocalDefinitionView>,
    facts: CrateFacts,
    children: Seq<ModuleChild>,
) -> CollectedFactsView {
    let references = all_references(definitions);
    CollectedFactsView {
        sources: values_of::<SourceFileKey, SourceFileView>(
            earliest(located_files(definitions, references)),
        ),
        definitions: chosen(definitions.len() as int, definition_at(definitions)),
        roots: all_assembly_roots(definitions) + reference_roots(
            definitions,
            facts,
            collected(children, visible_binding(definitions)),
            references,
        ),
        references: collected(references, reported_reference()),
    }
}

/// All that is reported of a crate.
pub open spec fn facts_of(
    definitions: Seq<LocalDefinitionView>,
    facts: CrateFacts,
    children: Seq<ModuleChild>,
) -> CollectedFactsView {
    identified(raw_facts(definitions, facts, children))
}

/// Collects all that is reported of a crate.
pub fn collect_facts(
    definitions: &Vec<LocalDefinition>,
    facts: CrateFacts,
    children: &Vec<ModuleChild>,
) -> (collected_facts: CollectedFacts)
    ensures
        collected_facts.deep_view() == facts_of(
            definitions.deep_view(),
            facts,
            children.deep_view(),
        ),
{
    let ghost all = definitions.deep_view();
    let places = index_definitions(definitions);
    let ghost f = definition_at(all);
    let pick = |at: usize| -> (definition: Option<Definition>)
        requires
            at < definitions.len(),
        ensures
            definition.deep_view() == f(at as int),
    {
        report_definition(definitions, at)
    };
    let reported = collect_places(definitions.len(), pick, Ghost(f));
    let bindings = collect_visibility_bindings(definitions, &places, children);
    let references = collect_references(definitions);
    let mut roots = collect_assembly_roots(definitions, &places);
    append_items(
        &mut roots,
        collect_reference_roots(definitions, &places, facts, &bindings, &references),
    );
    let sources = keep_earliest(list_located_files(definitions, &references)).into_values();
    sort_and_identify_facts(
        CollectedFacts {
            sources,
            definitions: reported,
            roots,
            references: report_references(&references),
        },
    )
}

/// No two reported roots name the same definition, kind and reason, and no two reported references
/// have the same ends and kind.
pub proof fn law_reported_facts_are_distinct(
    definitions: Seq<LocalDefinitionView>,
    facts: CrateFacts,
    children: Seq<ModuleChild>,
    i: int,
    j: int,
)
    requires
        0 <= i < j,
    ensures
        j < facts_of(definitions, facts, children).roots.len() ==> {
            let roots = facts_of(definitions, facts, children).roots;
            (roots[i].definition, roots[i].kind, roots[i].reason) != (
                roots[j].definition,
                roots[j].kind,
                roots[j].reason,
            )
        },
        j < facts_of(definitions, facts, children).references.len() ==> {
            let references = facts_of(definitions, facts, children).references;
            (references[i].from, references[i].to, references[i].kind) != (
                references[j].from,
                references[j].to,
                references[j].kind,
            )
        },
{
    let raw = raw_facts(definitions, facts, children);
    let by_reason = stable_sorted::<RootOrder, Root>(collected(raw.roots, ordered_root()));
    lemma_stable_sorted::<RootOrder, Root>(collected(raw.roots, ordered_root()));
    lemma_first_per_key::<RootOrder, Root>(by_reason);
    lemma_keyed_roots(raw.roots);
    let kept_roots = first_per_key(by_reason);
    if j < kept_roots.len() {
        assert(<RootOrder as Ordered>::precedes(kept_roots[i].0, kept_roots[j].0));
        <RootOrder as Ordered>::irreflexive(kept_roots[i].0);
        lemma_first_per_key_kept(by_reason, i);
        lemma_first_per_key_kept(by_reason, j);
    }
    let by_place = stable_sorted::<ReferenceOrder, Reference>(
        collected(raw.references, ordered_reference()),
    );
    lemma_stable_sorted::<ReferenceOrder, Reference>(
        collected(raw.references, ordered_reference()),
    );
    lemma_keyed_references(raw.references);
    let told = collected(second(by_place), told_reference());
    lemma_collected_whole(second(by_place), told_reference());
    assert(key_sorted::<ReferenceIdentity, Reference>(told)) by {
        assert forall|a: int, b: int| 0 <= a < b < told.len() implies !<ReferenceIdentity as
            Ordered>::precedes((#[trigger] told[b]).0, (#[trigger] told[a]).0) by {
            assert(told_reference()(second(by_place)[a]) == Some(told[a]));
            assert(told_reference()(second(by_place)[b]) == Some(told[b]));
            assert(ordered_reference()(by_place[a].1) == Some(by_place[a]));
            assert(ordered_reference()(by_place[b].1) == Some(by_place[b]));
            assert(!<ReferenceOrder as Ordered>::precedes(by_place[b].0, by_place[a].0));
        }
    }
    lemma_first_per_key::<ReferenceIdentity, Reference>(told);
    let kept = first_per_key(told);
    if j < kept.len() {
        assert(<ReferenceIdentity as Ordered>::precedes(kept[i].0, kept[j].0));
        <ReferenceIdentity as Ordered>::irreflexive(kept[i].0);
        lemma_first_per_key_kept(told, i);
        lemma_first_per_key_kept(told, j);
        let a = choose|a: int| 0 <= a < told.len() && told[a] == kept[i];
        let b = choose|b: int| 0 <= b < told.len() && told[b] == kept[j];
        assert(told_reference()(second(by_place)[a]) == Some(told[a]));
        assert(told_reference()(second(by_place)[b]) == Some(told[b]));
    }
}

/// Every entry of the sorted roots is keyed by the root that it holds.
proof fn lemma_keyed_roots(roots: Seq<RootView>)
    ensures
        forall|i: int|
            0 <= i < stable_sorted::<RootOrder, Root>(collected(roots, ordered_root())).len()
                ==> ordered_root()(
                (#[trigger] stable_sorted::<RootOrder, Root>(
                    collected(roots, ordered_root()),
                )[i]).1,
            ) == Some(stable_sorted::<RootOrder, Root>(collected(roots, ordered_root()))[i]),
{
    broadcast use vstd::seq_lib::group_to_multiset_ensures;

    let entries = collected(roots, ordered_root());
    let sorted = stable_sorted::<RootOrder, Root>(entries);
    lemma_stable_sorted::<RootOrder, Root>(entries);
    lemma_collected_whole(roots, ordered_root());
    assert forall|i: int| 0 <= i < sorted.len() implies ordered_root()((#[trigger] sorted[i]).1)
        == Some(sorted[i]) by {
        assert(sorted.contains(sorted[i]));
        assert(sorted.to_multiset().count(sorted[i]) > 0);
        assert(entries.contains(sorted[i]));
        let k = choose|k: int| 0 <= k < entries.len() && entries[k] == sorted[i];
        assert(ordered_root()(roots[k]) == Some(entries[k]));
    }
}

/// Every entry of the sorted references is keyed by the reference that it holds.
proof fn lemma_keyed_references(references: Seq<ReferenceView>)
    ensures
        forall|i: int|
            0 <= i < stable_sorted::<ReferenceOrder, Reference>(
                collected(references, ordered_reference()),
            ).len() ==> ordered_reference()(
                (#[trigger] stable_sorted::<ReferenceOrder, Reference>(
                    collected(references, ordered_reference()),
                )[i]).1,
            ) == Some(
                stable_sorted::<ReferenceOrder, Reference>(
                    collected(references, ordered_reference()),
                )[i],
            ),
{
    broadcast use vstd::seq_lib::group_to_multiset_ensures;

    let entries = collected(references, ordered_reference());
    let sorted = stable_sorted::<ReferenceOrder, Reference>(entries);
    lemma_stable_sorted::<ReferenceOrder, Reference>(entries);
    lemma_collected_whole(references, ordered_reference());
    assert forall|i: int| 0 <= i < sorted.len() implies ordered_reference()(
        (#[trigger] sorted[i]).1,
    ) == Some(sorted[i]) by {
        assert(sorted.contains(sorted[i]));
        assert(sorted.to_multiset().count(sorted[i]) > 0);
        assert(entries.contains(sorted[i]));
        let k = choose|k: int| 0 <= k < entries.len() && entries[k] == sorted[i];
        assert(ordered_reference()(references[k]) == Some(entries[k]));
    }
}

} // verus!
