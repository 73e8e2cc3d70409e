//! Streams of sidecar records and the invocations that they describe.

use vstd::prelude::*;

use crate::collections::{
    ascending, collected, first_error, image, key_sorted, lemma_collected_step, lemma_image_ends,
    lemma_image_step, lemma_stable_sorted_idempotent, no_items, push_item, second, stable_sort,
    stable_sorted, take_second, SortedSet,
};
use crate::compiler::sidecar::{
    bindings_error, boundaries_error, definition_ids, id_set, ids_repeat, product_facts_error,
    profile_error, reports, source_error, started_error, validate_definition_boundaries,
    validate_product_facts, validate_profile, validate_public_bindings, validate_source,
    validate_started, Invocation, InvocationView, MAX_RECORD_BYTES, MAX_SIDECARS,
};
use crate::driver::records::sidecar_bytes;
use crate::order::Ordered;
use crate::protocol::{
    Availability, CompilerDefId, CompilerIdentity, Definition, DefinitionView, Diagnostic,
    DiagnosticView, Event, EventView, Handshake, HandshakeView, InvocationFinished,
    InvocationStarted, ProductStatus, ProductStatusView, Profile, ProfileView, PublicBinding,
    PublicBindingView, Record, RecordView, Reference, ReferenceView, Root, RootView, SourceFile,
    SourceFileView, SourceSpan, SourceSpanView, MAX_SIDECAR_BYTES, PROTOCOL_VERSION,
};
use crate::text::{debug_text, decimal, decimal_text, quoted, same};

verus! {

/// A fact with an identity.
pub trait Identified: DeepView + Sized {
    /// The identity of a fact.
    spec fn identity(fact: Self::V) -> Seq<char>;

    /// The identity of this fact.
    fn identity_of(&self) -> (id: &str)
        ensures
            id@ == Self::identity(self.deep_view()),
    ;
}

impl Identified for SourceFile {
    open spec fn identity(fact: SourceFileView) -> Seq<char> {
        fact.key
    }

    fn identity_of(&self) -> (id: &str) {
        self.key.0.as_str()
    }
}

impl Identified for Definition {
    open spec fn identity(fact: DefinitionView) -> Seq<char> {
        fact.id
    }

    fn identity_of(&self) -> (id: &str) {
        self.id.0.as_str()
    }
}

impl Identified for PublicBinding {
    open spec fn identity(fact: PublicBindingView) -> Seq<char> {
        fact.id
    }

    fn identity_of(&self) -> (id: &str) {
        self.id.0.as_str()
    }
}

impl Identified for Root {
    open spec fn identity(fact: RootView) -> Seq<char> {
        fact.id
    }

    fn identity_of(&self) -> (id: &str) {
        self.id.0.as_str()
    }
}

impl Identified for Reference {
    open spec fn identity(fact: ReferenceView) -> Seq<char> {
        fact.id
    }

    fn identity_of(&self) -> (id: &str) {
        self.id.0.as_str()
    }
}

/// Facts with their identities.
pub open spec fn keyed<T: Identified>(facts: Seq<<T as DeepView>::V>) -> Seq<
    (Seq<char>, <T as DeepView>::V),
> {
    Seq::new(facts.len(), |i: int| (T::identity(facts[i]), facts[i]))
}

/// Facts in the order of their identities.
pub open spec fn in_order<T: Identified>(facts: Seq<<T as DeepView>::V>) -> Seq<
    <T as DeepView>::V,
> {
    second(stable_sorted::<String, T>(keyed::<T>(facts)))
}

/// Puts facts in the order of their identities.
pub fn sort_facts<T: Identified>(facts: Vec<T>) -> (sorted: Vec<T>)
    ensures
        sorted.deep_view() == in_order::<T>(facts.deep_view()),
{
    let ghost all = facts.deep_view();
    let mut entries: Vec<(String, T)> = no_items();
    for fact in it: facts
        invariant
            all.len() == it.seq().len(),
            forall|i: int| 0 <= i < all.len() ==> #[trigger] all[i] == it.seq()[i].deep_view(),
            entries.deep_view() =~= keyed::<T>(all).take(it.index() as int),
    {
        proof {
            assert(all[it.index() as int] == fact.deep_view());
        }
        let key = fact.identity_of().to_owned();
        push_item(&mut entries, (key, fact));
    }
    proof {
        assert(entries.deep_view() =~= keyed::<T>(all));
    }
    take_second(stable_sort(entries))
}

/// The identities of facts, each with the name of its kind.
pub open spec fn named<T: Identified>(kind: Seq<char>, facts: Seq<<T as DeepView>::V>) -> Seq<
    (Seq<char>, Seq<char>),
> {
    Seq::new(facts.len(), |i: int| (kind, T::identity(facts[i])))
}

fn add_names<T: Identified>(names: &mut Vec<(String, String)>, kind: &str, facts: &Vec<T>)
    ensures
        final(names).deep_view() == old(names).deep_view() + named::<T>(kind@, facts.deep_view()),
{
    let ghost before = names.deep_view();
    let ghost all = facts.deep_view();
    let mut index: usize = 0;
    proof {
        assert(named::<T>(kind@, all).take(0) =~= Seq::empty());
        assert(before + Seq::<(Seq<char>, Seq<char>)>::empty() =~= before);
    }
    while index < facts.len()
        invariant
            all == facts.deep_view(),
            index <= all.len(),
            names.deep_view() == before + named::<T>(kind@, all).take(index as int),
        decreases all.len() - index,
    {
        proof {
            assert(all[index as int] == facts[index as int].deep_view());
            assert(named::<T>(kind@, all).take(index as int + 1) =~= named::<T>(kind@, all).take(
                index as int,
            ).push(named::<T>(kind@, all)[index as int]));
        }
        push_item(names, (kind.to_owned(), facts[index].identity_of().to_owned()));
        proof {
            assert(names.deep_view() =~= before + named::<T>(kind@, all).take(index as int + 1));
        }
        index = index + 1;
    }
    proof {
        assert(named::<T>(kind@, all).take(all.len() as int) =~= named::<T>(kind@, all));
    }
}

/// The place of the first name whose identity was named before, from a place on.
pub open spec fn first_repeat(names: Seq<(Seq<char>, Seq<char>)>, from: int) -> Option<int>
    decreases names.len() - from,
{
    if from >= names.len() {
        None
    } else if exists|j: int| 0 <= j < from && (#[trigger] names[j]).1 == names[from].1 {
        Some(from)
    } else {
        first_repeat(names, from + 1)
    }
}

fn find_repeat(names: &Vec<(String, String)>) -> (place: Option<usize>)
    ensures
        match place {
            Some(at) => at < names.len() && first_repeat(names.deep_view(), 0) == Some(at as int),
            None => first_repeat(names.deep_view(), 0) is None,
        },
{
    let ghost all = names.deep_view();
    let mut seen: SortedSet<String> = SortedSet::new();
    let mut index: usize = 0;
    while index < names.len()
        invariant
            all == names.deep_view(),
            index <= all.len(),
            seen.wf(),
            first_repeat(all, 0) == first_repeat(all, index as int),
            forall|id: Seq<char>| #[trigger]
                seen.deep_view().contains(id) == exists|j: int|
                    0 <= j < index && (#[trigger] all[j]).1 == id,
        decreases all.len() - index,
    {
        proof {
            assert(all[index as int] == names[index as int].deep_view());
        }
        let ghost before = seen.deep_view();
        if !seen.insert(names[index].1.clone()) {
            return Some(index);
        }
        proof {
            assert forall|id: Seq<char>| #[trigger]
                seen.deep_view().contains(id) == exists|j: int|
                    0 <= j < index + 1 && (#[trigger] all[j]).1 == id by {
                if seen.deep_view().contains(id) {
                    if before.contains(id) {
                        let j = choose|j: int| 0 <= j < index && (#[trigger] all[j]).1 == id;
                        assert(all[j].1 == id);
                    } else {
                        assert(all[index as int].1 == id);
                    }
                }
                if exists|j: int| 0 <= j < index + 1 && (#[trigger] all[j]).1 == id {
                    let j = choose|j: int| 0 <= j < index + 1 && (#[trigger] all[j]).1 == id;
                    if j < index {
                        assert(before.contains(id));
                    }
                }
            }
        }
        index = index + 1;
    }
    None
}

/// What is wrong with the identities of the source files.
pub open spec fn source_repeat_error(sources: Seq<SourceFileView>) -> Option<Seq<char>> {
    let names = named::<SourceFile>("source file"@, sources);
    match first_repeat(names, 0) {
        None => None,
        Some(at) => Some(
            "duplicate "@ + names[at].0 + " identity "@ + debug_text(names[at].1),
        ),
    }
}

/// Refuses source files of which two have one identity.
pub fn reject_duplicate(sources: &Vec<SourceFile>) -> (result: Result<(), String>)
    ensures
        reports(result, source_repeat_error(sources.deep_view())),
{
    let mut names: Vec<(String, String)> = no_items();
    add_names(&mut names, "source file", sources);
    proof {
        assert(names.deep_view() =~= named::<SourceFile>("source file"@, sources.deep_view()));
    }
    match find_repeat(&names) {
        None => Ok(()),
        Some(at) => {
            proof {
                assert(names.deep_view()[at as int] == names[at as int].deep_view());
            }
            let mut message = "duplicate ".to_owned();
            message.append(names[at].0.as_str());
            message.append(" identity ");
            message.append(quoted(names[at].1.as_str()).as_str());
            Err(message)
        },
    }
}

/// The identities of all semantic facts.
pub open spec fn fact_names(facts: InvocationView) -> Seq<(Seq<char>, Seq<char>)> {
    named::<Definition>("definition"@, facts.definitions) + named::<PublicBinding>(
        "public binding"@,
        facts.bindings,
    ) + named::<Root>("root"@, facts.roots) + named::<Reference>("reference"@, facts.references)
}

/// What is wrong with the identities of the semantic facts.
pub open spec fn fact_repeat_error(facts: InvocationView) -> Option<Seq<char>> {
    let names = fact_names(facts);
    match first_repeat(names, 0) {
        None => None,
        Some(at) => Some(
            "duplicate semantic fact identity "@ + debug_text(names[at].1) + " ("@ + names[at].0
                + ")"@,
        ),
    }
}

fn check_fact_identities(facts: &Invocation) -> (result: Result<(), String>)
    ensures
        reports(result, fact_repeat_error(facts.deep_view())),
{
    let mut names: Vec<(String, String)> = no_items();
    add_names(&mut names, "definition", &facts.definitions);
    proof {
        assert(names.deep_view() =~= named::<Definition>(
            "definition"@,
            facts.definitions.deep_view(),
        ));
    }
    add_names(&mut names, "public binding", &facts.bindings);
    add_names(&mut names, "root", &facts.roots);
    add_names(&mut names, "reference", &facts.references);
    match find_repeat(&names) {
        None => Ok(()),
        Some(at) => {
            proof {
                assert(names.deep_view()[at as int] == names[at as int].deep_view());
            }
            let mut message = "duplicate semantic fact identity ".to_owned();
            message.append(quoted(names[at].1.as_str()).as_str());
            message.append(" (");
            message.append(names[at].0.as_str());
            message.append(")");
            Err(message)
        },
    }
}

/// The length of the last source file with a key.
pub open spec fn length_of(sources: Seq<SourceFileView>, key: Seq<char>) -> Option<u32>
    decreases sources.len(),
{
    if sources.len() == 0 {
        None
    } else if sources.last().key == key {
        Some(sources.last().byte_len)
    } else {
        length_of(sources.drop_last(), key)
    }
}

/// What is wrong with a span.
pub open spec fn span_error(span: SourceSpanView, sources: Seq<SourceFileView>) -> Option<
    Seq<char>,
> {
    match length_of(sources, span.file) {
        None => Some("semantic fact references an unknown source file"@),
        Some(length) => if span.start > span.end || span.end > length || span.line == 0
            || span.column == 0 {
            Some("semantic fact contains an invalid source span"@)
        } else {
            None
        },
    }
}

/// What is wrong with a span, where there is one.
pub open spec fn optional_span_error(
    span: Option<SourceSpanView>,
    sources: Seq<SourceFileView>,
) -> Option<Seq<char>> {
    match span {
        None => None,
        Some(span) => span_error(span, sources),
    }
}

/// The first of two complaints.
pub open spec fn otherwise(first: Option<Seq<char>>, second: Option<Seq<char>>) -> Option<
    Seq<char>,
> {
    match first {
        Some(message) => Some(message),
        None => second,
    }
}

/// Complains about the spans of the definitions.
pub open spec fn definition_span_complaint(
    definitions: Seq<DefinitionView>,
    sources: Seq<SourceFileView>,
) -> spec_fn(int) -> Option<Seq<char>> {
    |i: int|
        otherwise(
            optional_span_error(definitions[i].span, sources),
            optional_span_error(definitions[i].attribution_callsite, sources),
        )
}

/// Complains about the spans of the bindings.
pub open spec fn binding_span_complaint(
    bindings: Seq<PublicBindingView>,
    sources: Seq<SourceFileView>,
) -> spec_fn(int) -> Option<Seq<char>> {
    |i: int| optional_span_error(bindings[i].span, sources)
}

/// Complains about the spans of the references.
pub open spec fn reference_span_complaint(
    references: Seq<ReferenceView>,
    sources: Seq<SourceFileView>,
) -> spec_fn(int) -> Option<Seq<char>> {
    |i: int| optional_span_error(references[i].span, sources)
}

/// What is wrong with the spans of the semantic facts.
pub open spec fn spans_error(facts: InvocationView) -> Option<Seq<char>> {
    otherwise(
        first_error(
            facts.definitions.len() as int,
            definition_span_complaint(facts.definitions, facts.sources),
            0,
        ),
        otherwise(
            first_error(
                facts.bindings.len() as int,
                binding_span_complaint(facts.bindings, facts.sources),
                0,
            ),
            first_error(
                facts.references.len() as int,
                reference_span_complaint(facts.references, facts.sources),
                0,
            ),
        ),
    )
}

fn find_length(sources: &Vec<SourceFile>, key: &str) -> (length: Option<u32>)
    ensures
        length == length_of(sources.deep_view(), key@),
{
    let ghost all = sources.deep_view();
    let mut count: usize = sources.len();
    proof {
        assert(all.take(all.len() as int) =~= all);
    }
    while count > 0
        invariant
            all == sources.deep_view(),
            count <= all.len(),
            length_of(all, key@) == length_of(all.take(count as int), key@),
        decreases count,
    {
        proof {
            assert(all.take(count as int).drop_last() =~= all.take(count as int - 1));
            assert(all.take(count as int).last() == sources[count as int - 1].deep_view());
        }
        if same(sources[count - 1].key.0.as_str(), key) {
            return Some(sources[count - 1].byte_len);
        }
        count = count - 1;
    }
    None
}

fn check_span(span: &Option<SourceSpan>, sources: &Vec<SourceFile>) -> (result: Result<(), String>)
    ensures
        reports(result, optional_span_error(span.deep_view(), sources.deep_view())),
{
    match span {
        None => Ok(()),
        Some(span) => match find_length(sources, span.file.0.as_str()) {
            None => Err("semantic fact references an unknown source file".to_owned()),
            Some(length) => if span.start > span.end || span.end > length || span.line == 0
                || span.column == 0 {
                Err("semantic fact contains an invalid source span".to_owned())
            } else {
                Ok(())
            },
        },
    }
}

fn check_definition_spans(definitions: &Vec<Definition>, sources: &Vec<SourceFile>) -> (result:
    Result<(), String>)
    ensures
        reports(
            result,
            first_error(
                definitions.len() as int,
                definition_span_complaint(definitions.deep_view(), sources.deep_view()),
                0,
            ),
        ),
{
    let ghost all = definitions.deep_view();
    let ghost complaint = definition_span_complaint(all, sources.deep_view());
    let mut index: usize = 0;
    while index < definitions.len()
        invariant
            all == definitions.deep_view(),
            complaint == definition_span_complaint(all, sources.deep_view()),
            index <= all.len(),
            first_error(all.len() as int, complaint, 0) == first_error(
                all.len() as int,
                complaint,
                index as int,
            ),
        decreases all.len() - index,
    {
        proof {
            assert(all[index as int] == definitions[index as int].deep_view());
        }
        if let Err(message) = check_span(&definitions[index].span, sources) {
            return Err(message);
        }
        if let Err(message) = check_span(&definitions[index].attribution_callsite, sources) {
            return Err(message);
        }
        index = index + 1;
    }
    Ok(())
}

fn check_binding_spans(bindings: &Vec<PublicBinding>, sources: &Vec<SourceFile>) -> (result: Result<
    (),
    String,
>)
    ensures
        reports(
            result,
            first_error(
                bindings.len() as int,
                binding_span_complaint(bindings.deep_view(), sources.deep_view()),
                0,
            ),
        ),
{
    let ghost all = bindings.deep_view();
    let ghost complaint = binding_span_complaint(all, sources.deep_view());
    let mut index: usize = 0;
    while index < bindings.len()
        invariant
            all == bindings.deep_view(),
            complaint == binding_span_complaint(all, sources.deep_view()),
            index <= all.len(),
            first_error(all.len() as int, complaint, 0) == first_error(
                all.len() as int,
                complaint,
                index as int,
            ),
        decreases all.len() - index,
    {
        proof {
            assert(all[index as int] == bindings[index as int].deep_view());
        }
        if let Err(message) = check_span(&bindings[index].span, sources) {
            return Err(message);
        }
        index = index + 1;
    }
    Ok(())
}

fn check_reference_spans(references: &Vec<Reference>, sources: &Vec<SourceFile>) -> (result: Result<
    (),
    String,
>)
    ensures
        reports(
            result,
            first_error(
                references.len() as int,
                reference_span_complaint(references.deep_view(), sources.deep_view()),
                0,
            ),
        ),
{
    let ghost all = references.deep_view();
    let ghost complaint = reference_span_complaint(all, sources.deep_view());
    let mut index: usize = 0;
    while index < references.len()
        invariant
            all == references.deep_view(),
            complaint == reference_span_complaint(all, sources.deep_view()),
            index <= all.len(),
            first_error(all.len() as int, complaint, 0) == first_error(
                all.len() as int,
                complaint,
                index as int,
            ),
        decreases all.len() - index,
    {
        proof {
            assert(all[index as int] == references[index as int].deep_view());
        }
        if let Err(message) = check_span(&references[index].span, sources) {
            return Err(message);
        }
        index = index + 1;
    }
    Ok(())
}

/// Picks the profiles among the records from the second on.
pub open spec fn profiles_in(rest: Seq<RecordView>) -> Seq<ProfileView> {
    collected(
        rest,
        |record: RecordView|
            match record.event {
                EventView::Profile(value) => Some(value),
                _ => None,
            },
    )
}

/// Picks the sources among the records from the second on.
pub open spec fn sources_in(rest: Seq<RecordView>) -> Seq<SourceFileView> {
    collected(
        rest,
        |record: RecordView|
            match record.event {
                EventView::SourceFile(value) => Some(value),
                _ => None,
            },
    )
}

/// Picks the products among the records from the second on.
pub open spec fn products_in(rest: Seq<RecordView>) -> Seq<ProductStatusView> {
    collected(
        rest,
        |record: RecordView|
            match record.event {
                EventView::ProductStatus(value) => Some(value),
                _ => None,
            },
    )
}

/// Picks the diagnostics among the records from the second on.
pub open spec fn diagnostics_in(rest: Seq<RecordView>) -> Seq<DiagnosticView> {
    collected(
        rest,
        |record: RecordView|
            match record.event {
                EventView::Diagnostic(value) => Some(value),
                _ => None,
            },
    )
}

/// Picks the definitions among the records from the second on.
pub open spec fn definitions_in(rest: Seq<RecordView>) -> Seq<DefinitionView> {
    collected(
        rest,
        |record: RecordView|
            match record.event {
                EventView::Definition(value) => Some(value),
                _ => None,
            },
    )
}

/// Picks the bindings among the records from the second on.
pub open spec fn bindings_in(rest: Seq<RecordView>) -> Seq<PublicBindingView> {
    collected(
        rest,
        |record: RecordView|
            match record.event {
                EventView::PublicBinding(value) => Some(value),
                _ => None,
            },
    )
}

/// Picks the roots among the records from the second on.
pub open spec fn roots_in(rest: Seq<RecordView>) -> Seq<RootView> {
    collected(
        rest,
        |record: RecordView|
            match record.event {
                EventView::Root(value) => Some(value),
                _ => None,
            },
    )
}

/// Picks the references among the records from the second on.
pub open spec fn references_in(rest: Seq<RecordView>) -> Seq<ReferenceView> {
    collected(
        rest,
        |record: RecordView|
            match record.event {
                EventView::Reference(value) => Some(value),
                _ => None,
            },
    )
}

/// Picks the finishes among the records from the second on.
pub open spec fn finishes_in(rest: Seq<RecordView>) -> Seq<InvocationFinished> {
    collected(
        rest,
        |record: RecordView|
            match record.event {
                EventView::InvocationFinished(value) => Some(value),
                _ => None,
            },
    )
}

/// Complains about the place of a record among the records from the second on.
pub open spec fn place_complaint(rest: Seq<RecordView>) -> spec_fn(int) -> Option<Seq<char>> {
    |i: int|
        if exists|j: int| 0 <= j < i && (#[trigger] rest[j]).event is InvocationFinished {
            Some("records follow invocation_finished"@)
        } else {
            match rest[i].event {
                EventView::InvocationStarted(_) => Some("duplicate invocation_started record"@),
                EventView::Profile(_) => if exists|j: int|
                    0 <= j < i && (#[trigger] rest[j]).event is Profile {
                    Some("duplicate profile record"@)
                } else {
                    None
                },
                _ => None,
            }
        }
}

/// The facts of a stream.
struct Gathered {
    profiles: Vec<Profile>,
    sources: Vec<SourceFile>,
    products: Vec<ProductStatus>,
    diagnostics: Vec<Diagnostic>,
    definitions: Vec<Definition>,
    bindings: Vec<PublicBinding>,
    roots: Vec<Root>,
    references: Vec<Reference>,
    finishes: Vec<InvocationFinished>,
}

impl Gathered {
    /// Whether these are the facts of some records.
    spec fn holds(&self, rest: Seq<RecordView>) -> bool {
        &&& self.profiles.deep_view() == profiles_in(rest)
        &&& self.sources.deep_view() == sources_in(rest)
        &&& self.products.deep_view() == products_in(rest)
        &&& self.diagnostics.deep_view() == diagnostics_in(rest)
        &&& self.definitions.deep_view() == definitions_in(rest)
        &&& self.bindings.deep_view() == bindings_in(rest)
        &&& self.roots.deep_view() == roots_in(rest)
        &&& self.references.deep_view() == references_in(rest)
        &&& self.finishes.deep_view() == finishes_in(rest)
    }
}

fn gather(records: &Vec<Record>) -> (result: Result<Gathered, String>)
    requires
        records.len() > 0,
    ensures
        ({
            let rest = records.deep_view().skip(1);
            match first_error(rest.len() as int, place_complaint(rest), 0) {
                Some(message) => result matches Err(error) && error@ == message,
                None => result matches Ok(gathered) && gathered.holds(rest),
            }
        }),
{
    let ghost rest = records.deep_view().skip(1);
    let ghost complaint = place_complaint(rest);
    let mut gathered = Gathered {
        profiles: no_items(),
        sources: no_items(),
        products: no_items(),
        diagnostics: no_items(),
        definitions: no_items(),
        bindings: no_items(),
        roots: no_items(),
        references: no_items(),
        finishes: no_items(),
    };
    let mut finished = false;
    let mut profiled = false;
    let mut index: usize = 1;
    proof {
        assert(rest.take(0) =~= Seq::<RecordView>::empty());
        assert(gathered.holds(rest.take(0)));
    }
    while index < records.len()
        invariant
            rest == records.deep_view().skip(1),
            complaint == place_complaint(rest),
            1 <= index <= records.len(),
            gathered.holds(rest.take(index as int - 1)),
            finished == exists|j: int|
                0 <= j < index - 1 && (#[trigger] rest[j]).event is InvocationFinished,
            profiled == exists|j: int| 0 <= j < index - 1 && (#[trigger] rest[j]).event is Profile,
            first_error(rest.len() as int, complaint, 0) == first_error(
                rest.len() as int,
                complaint,
                index as int - 1,
            ),
        decreases records.len() - index,
    {
        let ghost at = index as int - 1;
        let event = &records[index].event;
        proof {
            assert(rest[at] == records[index as int].deep_view());
            lemma_facts_step(rest, at);
        }
        if finished {
            return Err("records follow invocation_finished".to_owned());
        }
        match event {
            Event::InvocationStarted(_) => {
                return Err("duplicate invocation_started record".to_owned());
            },
            Event::Profile(value) => {
                if profiled {
                    return Err("duplicate profile record".to_owned());
                }
                push_item(&mut gathered.profiles, value.clone());
                profiled = true;
            },
            Event::InvocationFinished(value) => {
                push_item(&mut gathered.finishes, *value);
                finished = true;
            },
            Event::SourceFile(value) => {
                push_item(&mut gathered.sources, value.clone());
            },
            Event::ProductStatus(value) => {
                push_item(&mut gathered.products, value.clone());
            },
            Event::Diagnostic(value) => {
                push_item(&mut gathered.diagnostics, value.clone());
            },
            Event::Definition(value) => {
                push_item(&mut gathered.definitions, value.clone());
            },
            Event::PublicBinding(value) => {
                push_item(&mut gathered.bindings, value.clone());
            },
            Event::Root(value) => {
                push_item(&mut gathered.roots, value.clone());
            },
            Event::Reference(value) => {
                push_item(&mut gathered.references, value.clone());
            },
        }
        proof {
            assert(rest.take(at + 1)[at] == rest[at]);
        }
        index = index + 1;
    }
    proof {
        assert(rest.take(rest.len() as int) =~= rest);
    }
    Ok(gathered)
}

/// How the facts of a stream grow with one more record.
proof fn lemma_facts_step(rest: Seq<RecordView>, at: int)
    requires
        0 <= at < rest.len(),
    ensures
        profiles_in(rest.take(at + 1)) == match rest[at].event {
            EventView::Profile(value) => profiles_in(rest.take(at)).push(value),
            _ => profiles_in(rest.take(at)),
        },
        sources_in(rest.take(at + 1)) == match rest[at].event {
            EventView::SourceFile(value) => sources_in(rest.take(at)).push(value),
            _ => sources_in(rest.take(at)),
        },
        products_in(rest.take(at + 1)) == match rest[at].event {
            EventView::ProductStatus(value) => products_in(rest.take(at)).push(value),
            _ => products_in(rest.take(at)),
        },
        diagnostics_in(rest.take(at + 1)) == match rest[at].event {
            EventView::Diagnostic(value) => diagnostics_in(rest.take(at)).push(value),
            _ => diagnostics_in(rest.take(at)),
        },
        definitions_in(rest.take(at + 1)) == match rest[at].event {
            EventView::Definition(value) => definitions_in(rest.take(at)).push(value),
            _ => definitions_in(rest.take(at)),
        },
        bindings_in(rest.take(at + 1)) == match rest[at].event {
            EventView::PublicBinding(value) => bindings_in(rest.take(at)).push(value),
            _ => bindings_in(rest.take(at)),
        },
        roots_in(rest.take(at + 1)) == match rest[at].event {
            EventView::Root(value) => roots_in(rest.take(at)).push(value),
            _ => roots_in(rest.take(at)),
        },
        references_in(rest.take(at + 1)) == match rest[at].event {
            EventView::Reference(value) => references_in(rest.take(at)).push(value),
            _ => references_in(rest.take(at)),
        },
        finishes_in(rest.take(at + 1)) == match rest[at].event {
            EventView::InvocationFinished(value) => finishes_in(rest.take(at)).push(value),
            _ => finishes_in(rest.take(at)),
        },
{
    lemma_collected_step(
        rest,
        |record: RecordView|
            match record.event {
                EventView::Profile(value) => Some(value),
                _ => None,
            },
        at,
    );
    lemma_collected_step(
        rest,
        |record: RecordView|
            match record.event {
                EventView::SourceFile(value) => Some(value),
                _ => None,
            },
        at,
    );
    lemma_collected_step(
        rest,
        |record: RecordView|
            match record.event {
                EventView::ProductStatus(value) => Some(value),
                _ => None,
            },
        at,
    );
    lemma_collected_step(
        rest,
        |record: RecordView|
            match record.event {
                EventView::Diagnostic(value) => Some(value),
                _ => None,
            },
        at,
    );
    lemma_collected_step(
        rest,
        |record: RecordView|
            match record.event {
                EventView::Definition(value) => Some(value),
                _ => None,
            },
        at,
    );
    lemma_collected_step(
        rest,
        |record: RecordView|
            match record.event {
                EventView::PublicBinding(value) => Some(value),
                _ => None,
            },
        at,
    );
    lemma_collected_step(
        rest,
        |record: RecordView|
            match record.event {
                EventView::Root(value) => Some(value),
                _ => None,
            },
        at,
    );
    lemma_collected_step(
        rest,
        |record: RecordView|
            match record.event {
                EventView::Reference(value) => Some(value),
                _ => None,
            },
        at,
    );
    lemma_collected_step(
        rest,
        |record: RecordView|
            match record.event {
                EventView::InvocationFinished(value) => Some(value),
                _ => None,
            },
        at,
    );
}

/// The one profile, where there is one.
pub open spec fn profile_in(rest: Seq<RecordView>) -> Option<ProfileView> {
    if profiles_in(rest).len() == 0 {
        None
    } else {
        Some(profiles_in(rest)[0])
    }
}

/// The invocation that some records describe, with its facts in the order of their identities.
pub open spec fn described(records: Seq<RecordView>) -> InvocationView {
    let rest = records.skip(1);
    InvocationView {
        id: records[0].invocation_id,
        started: records[0].event->InvocationStarted_0,
        profile: profile_in(rest),
        sources: in_order::<SourceFile>(sources_in(rest)),
        products: products_in(rest),
        diagnostics: diagnostics_in(rest),
        definitions: in_order::<Definition>(definitions_in(rest)),
        bindings: in_order::<PublicBinding>(bindings_in(rest)),
        roots: in_order::<Root>(roots_in(rest)),
        references: in_order::<Reference>(references_in(rest)),
        finished: finishes_in(rest)[0],
    }
}

/// Complains about a record that does not belong at its place in the sidecar of a run.
pub open spec fn record_complaint(records: Seq<RecordView>, run: Seq<char>) -> spec_fn(
    int,
) -> Option<Seq<char>> {
    |i: int|
        if records[i].protocol_version != PROTOCOL_VERSION {
            Some(
                "protocol mismatch: expected "@ + decimal(PROTOCOL_VERSION as nat) + ", found "@
                    + decimal(records[i].protocol_version as nat),
            )
        } else if records[i].run_id != run {
            Some("sidecar belongs to a different compiler run"@)
        } else if records[i].invocation_id != records[0].invocation_id {
            Some("sidecar contains multiple invocation IDs"@)
        } else if records[i].sequence != i {
            Some(
                "record sequence is not contiguous: expected "@ + decimal(i as nat) + ", found "@
                    + decimal(records[i].sequence as nat),
            )
        } else {
            None
        }
}

/// What is wrong with the completion of an invocation.
pub open spec fn completion_error(invocation: InvocationView) -> Option<Seq<char>> {
    let started = invocation.started;
    let profile = invocation.profile;
    if profile is Some && profile->0.test_mode != started.test_mode {
        Some("invocation/profile rustc test mode mismatch"@)
    } else if profile is Some && profile->0.target_triple != started.target_triple {
        Some("invocation/profile rustc target mismatch"@)
    } else if profile is Some && profile_error(profile->0, started) is Some {
        profile_error(profile->0, started)
    } else if invocation.finished.analysis_reached != (profile is Some) {
        Some("compiler analysis/profile completion mismatch"@)
    } else if !invocation.finished.analysis_reached && exists|i: int|
        0 <= i < invocation.products.len() && (#[trigger] invocation.products[i]).availability
            == Availability::Complete {
        Some("complete semantic product reported before compiler analysis was reached"@)
    } else {
        None
    }
}

/// What is wrong with the reported products: there is one product, to be reported once.
pub open spec fn products_error(products: Seq<ProductStatusView>) -> Option<Seq<char>> {
    if products.len() > 1 {
        Some("duplicate product_status for SemanticGraph"@)
    } else if products.len() == 0 {
        Some("sidecar does not report availability for every semantic product"@)
    } else {
        None
    }
}

/// Complains about a source file.
pub open spec fn source_complaint(sources: Seq<SourceFileView>) -> spec_fn(int) -> Option<
    Seq<char>,
> {
    |i: int| source_error(sources[i])
}

/// The crates of the definitions.
pub open spec fn crates_of(definitions: Seq<DefinitionView>) -> Set<u64> {
    image(
        definitions,
        |definition: DefinitionView| Some(definition.compiler_id.stable_crate_id),
    )
}

/// Whether a reference leaves an unknown definition, or enters one of a known crate.
pub open spec fn endpoint_unknown(
    reference: ReferenceView,
    ids: Set<CompilerDefId>,
    crates: Set<u64>,
) -> bool {
    !ids.contains(reference.from) || (crates.contains(reference.to.stable_crate_id)
        && !ids.contains(reference.to))
}

/// What is wrong with the endpoints of roots and references.
pub open spec fn endpoints_error(facts: InvocationView) -> Option<Seq<char>> {
    let ids = id_set(facts.definitions);
    let crates = crates_of(facts.definitions);
    if (exists|i: int|
        0 <= i < facts.roots.len() && !ids.contains((#[trigger] facts.roots[i]).definition)) || (
    exists|i: int|
        0 <= i < facts.references.len() && endpoint_unknown(
            #[trigger] facts.references[i],
            ids,
            crates,
        )) {
        Some("semantic graph contains an unknown local definition endpoint"@)
    } else {
        None
    }
}

/// What is wrong with the semantic facts of an invocation.
pub open spec fn facts_error(facts: InvocationView) -> Option<Seq<char>> {
    let ids = id_set(facts.definitions);
    otherwise(
        source_repeat_error(facts.sources),
        otherwise(
            fact_repeat_error(facts),
            otherwise(
                spans_error(facts),
                if ids_repeat(facts.definitions) {
                    Some("duplicate definition compiler identity"@)
                } else {
                    otherwise(
                        boundaries_error(facts.definitions, ids),
                        otherwise(
                            bindings_error(
                                facts.bindings,
                                facts.definitions,
                                ids,
                                crates_of(facts.definitions),
                            ),
                            endpoints_error(facts),
                        ),
                    )
                },
            ),
        ),
    )
}

/// What is wrong with the records of a sidecar, after the start of the invocation.
pub open spec fn rest_error(records: Seq<RecordView>) -> Option<Seq<char>> {
    let rest = records.skip(1);
    if finishes_in(rest).len() == 0 {
        Some("sidecar has no invocation_finished record"@)
    } else {
        otherwise(
            completion_error(described(records)),
            otherwise(
                products_error(products_in(rest)),
                otherwise(
                    first_error(
                        sources_in(rest).len() as int,
                        source_complaint(sources_in(rest)),
                        0,
                    ),
                    otherwise(
                        product_facts_error(
                            products_in(rest),
                            definitions_in(rest),
                            sources_in(rest).len() > 0 || definitions_in(rest).len() > 0
                                || bindings_in(rest).len() > 0 || references_in(rest).len() > 0
                                || roots_in(rest).len() > 0,
                        ),
                        facts_error(described(records)),
                    ),
                ),
            ),
        )
    }
}

/// What is wrong with the records of a sidecar.
pub open spec fn records_error(
    records: Seq<RecordView>,
    run: Seq<char>,
    handshake: HandshakeView,
) -> Option<Seq<char>> {
    let rest = records.skip(1);
    if records.len() == 0 {
        Some("sidecar has no records"@)
    } else {
        otherwise(
            first_error(records.len() as int, record_complaint(records, run), 0),
            match records[0].event {
                EventView::InvocationStarted(started) => if started.compiler != handshake.rustc {
                    Some("sidecar compiler identity does not match the handshake"@)
                } else {
                    otherwise(
                        started_error(started),
                        otherwise(
                            first_error(rest.len() as int, place_complaint(rest), 0),
                            rest_error(records),
                        ),
                    )
                },
                _ => Some("first record is not invocation_started"@),
            },
        )
    }
}

fn check_records(records: &Vec<Record>, run: &str) -> (result: Result<(), String>)
    requires
        records.len() > 0,
    ensures
        reports(
            result,
            first_error(records.len() as int, record_complaint(records.deep_view(), run@), 0),
        ),
{
    let ghost all = records.deep_view();
    let ghost complaint = record_complaint(all, run@);
    let mut index: usize = 0;
    proof {
        assert(all[0] == records[0].deep_view());
    }
    while index < records.len()
        invariant
            records.len() > 0,
            all == records.deep_view(),
            all[0] == records[0].deep_view(),
            complaint == record_complaint(all, run@),
            index <= all.len(),
            first_error(all.len() as int, complaint, 0) == first_error(
                all.len() as int,
                complaint,
                index as int,
            ),
        decreases all.len() - index,
    {
        let record = &records[index];
        proof {
            assert(all[index as int] == record.deep_view());
        }
        if record.protocol_version != PROTOCOL_VERSION {
            let mut message = "protocol mismatch: expected ".to_owned();
            message.append(decimal_text(PROTOCOL_VERSION as u128).as_str());
            message.append(", found ");
            message.append(decimal_text(record.protocol_version as u128).as_str());
            return Err(message);
        }
        if !same(record.run_id.0.as_str(), run) {
            return Err("sidecar belongs to a different compiler run".to_owned());
        }
        if !same(record.invocation_id.0.as_str(), records[0].invocation_id.0.as_str()) {
            return Err("sidecar contains multiple invocation IDs".to_owned());
        }
        if record.sequence != index as u64 {
            let mut message = "record sequence is not contiguous: expected ".to_owned();
            message.append(decimal_text(index as u128).as_str());
            message.append(", found ");
            message.append(decimal_text(record.sequence as u128).as_str());
            return Err(message);
        }
        index = index + 1;
    }
    Ok(())
}

fn same_compiler(left: &CompilerIdentity, right: &CompilerIdentity) -> (result: bool)
    ensures
        result == (left.deep_view() == right.deep_view()),
{
    same(left.release.as_str(), right.release.as_str()) && same(
        left.commit_hash.as_str(),
        right.commit_hash.as_str(),
    ) && same(left.commit_date.as_str(), right.commit_date.as_str()) && same(
        left.host.as_str(),
        right.host.as_str(),
    )
}

fn check_completion(invocation: &Invocation) -> (result: Result<(), String>)
    ensures
        reports(result, completion_error(invocation.deep_view())),
{
    let started = &invocation.started;
    if let Some(profile) = &invocation.profile {
        if profile.test_mode != started.test_mode {
            return Err("invocation/profile rustc test mode mismatch".to_owned());
        }
        if !same(profile.target_triple.as_str(), started.target_triple.as_str()) {
            return Err("invocation/profile rustc target mismatch".to_owned());
        }
        if let Err(message) = validate_profile(profile, started) {
            return Err(message);
        }
    }
    if invocation.finished.analysis_reached != invocation.profile.is_some() {
        return Err("compiler analysis/profile completion mismatch".to_owned());
    }
    let ghost all = invocation.deep_view().products;
    let mut complete = false;
    let mut index: usize = 0;
    while index < invocation.products.len()
        invariant
            all == invocation.products.deep_view(),
            index <= all.len(),
            complete == exists|i: int|
                0 <= i < index && (#[trigger] all[i]).availability == Availability::Complete,
        decreases all.len() - index,
    {
        proof {
            assert(all[index as int] == invocation.products[index as int].deep_view());
        }
        if invocation.products[index].availability == Availability::Complete {
            complete = true;
        }
        index = index + 1;
    }
    if !invocation.finished.analysis_reached && complete {
        return Err(
            "complete semantic product reported before compiler analysis was reached".to_owned(),
        );
    }
    Ok(())
}

fn check_sources(sources: &Vec<SourceFile>) -> (result: Result<(), String>)
    ensures
        reports(
            result,
            first_error(sources.len() as int, source_complaint(sources.deep_view()), 0),
        ),
{
    let ghost all = sources.deep_view();
    let ghost complaint = source_complaint(all);
    let mut index: usize = 0;
    while index < sources.len()
        invariant
            all == sources.deep_view(),
            complaint == source_complaint(all),
            index <= all.len(),
            first_error(all.len() as int, complaint, 0) == first_error(
                all.len() as int,
                complaint,
                index as int,
            ),
        decreases all.len() - index,
    {
        proof {
            assert(all[index as int] == sources[index as int].deep_view());
        }
        if let Err(message) = validate_source(&sources[index]) {
            return Err(message);
        }
        index = index + 1;
    }
    Ok(())
}

fn crate_set(definitions: &Vec<Definition>) -> (crates: SortedSet<u64>)
    ensures
        crates.wf(),
        crates.deep_view() == crates_of(definitions.deep_view()),
{
    let ghost all = definitions.deep_view();
    let ghost f = |definition: DefinitionView| Some(definition.compiler_id.stable_crate_id);
    let mut crates: SortedSet<u64> = SortedSet::new();
    let mut index: usize = 0;
    proof {
        lemma_image_ends(all, f);
    }
    while index < definitions.len()
        invariant
            all == definitions.deep_view(),
            f == |definition: DefinitionView| Some(definition.compiler_id.stable_crate_id),
            index <= all.len(),
            crates.wf(),
            crates.deep_view() == image(all.take(index as int), f),
        decreases all.len() - index,
    {
        proof {
            lemma_image_step(all, f, index as int);
            assert(all[index as int] == definitions[index as int].deep_view());
        }
        crates.insert(definitions[index].compiler_id.stable_crate_id);
        index = index + 1;
    }
    proof {
        lemma_image_ends(all, f);
    }
    crates
}

fn check_endpoints(
    facts: &Invocation,
    ids: &SortedSet<CompilerDefId>,
    crates: &SortedSet<u64>,
) -> (result: Result<(), String>)
    requires
        ids.wf(),
        crates.wf(),
        ids.deep_view() == id_set(facts.deep_view().definitions),
        crates.deep_view() == crates_of(facts.deep_view().definitions),
    ensures
        reports(result, endpoints_error(facts.deep_view())),
{
    let ghost roots = facts.deep_view().roots;
    let ghost references = facts.deep_view().references;
    let mut unknown = false;
    let mut index: usize = 0;
    while index < facts.roots.len()
        invariant
            roots == facts.roots.deep_view(),
            ids.wf(),
            index <= roots.len(),
            unknown == exists|i: int|
                0 <= i < index && !ids.deep_view().contains((#[trigger] roots[i]).definition),
        decreases roots.len() - index,
    {
        proof {
            assert(roots[index as int] == facts.roots[index as int].deep_view());
        }
        if !ids.contains(&facts.roots[index].definition) {
            unknown = true;
        }
        index = index + 1;
    }
    let mut loose = false;
    let mut at: usize = 0;
    while at < facts.references.len()
        invariant
            references == facts.references.deep_view(),
            ids.wf(),
            crates.wf(),
            at <= references.len(),
            loose == exists|i: int|
                0 <= i < at && endpoint_unknown(
                    #[trigger] references[i],
                    ids.deep_view(),
                    crates.deep_view(),
                ),
        decreases references.len() - at,
    {
        let reference = &facts.references[at];
        proof {
            assert(references[at as int] == reference.deep_view());
        }
        if !ids.contains(&reference.from) || (crates.contains(&reference.to.stable_crate_id)
            && !ids.contains(&reference.to)) {
            loose = true;
        }
        at = at + 1;
    }
    if unknown || loose {
        return Err("semantic graph contains an unknown local definition endpoint".to_owned());
    }
    Ok(())
}

fn check_facts(facts: &Invocation) -> (result: Result<(), String>)
    ensures
        reports(result, facts_error(facts.deep_view())),
{
    if let Err(message) = reject_duplicate(&facts.sources) {
        return Err(message);
    }
    if let Err(message) = check_fact_identities(facts) {
        return Err(message);
    }
    if let Err(message) = check_definition_spans(&facts.definitions, &facts.sources) {
        return Err(message);
    }
    if let Err(message) = check_binding_spans(&facts.bindings, &facts.sources) {
        return Err(message);
    }
    if let Err(message) = check_reference_spans(&facts.references, &facts.sources) {
        return Err(message);
    }
    let ids = match definition_ids(&facts.definitions) {
        Ok(ids) => ids,
        Err(message) => {
            return Err(message);
        },
    };
    let crates = crate_set(&facts.definitions);
    if let Err(message) = validate_definition_boundaries(&facts.definitions, &ids) {
        return Err(message);
    }
    if let Err(message) = validate_public_bindings(
        &facts.bindings,
        &facts.definitions,
        &ids,
        &crates,
    ) {
        return Err(message);
    }
    check_endpoints(facts, &ids, &crates)
}

/// Reads the invocation that the records of one sidecar of a run describe.
pub fn validate_records(
    records: Vec<Record>,
    expected_run_id: &str,
    handshake: &Handshake,
) -> (result: Result<Invocation, String>)
    ensures
        reports(
            result,
            records_error(records.deep_view(), expected_run_id@, handshake.deep_view()),
        ),
        result matches Ok(invocation) ==> invocation.deep_view() == described(records.deep_view()),
{
    let ghost all = records.deep_view();
    let ghost rest = all.skip(1);
    if records.len() == 0 {
        return Err("sidecar has no records".to_owned());
    }
    proof {
        assert(all[0] == records[0].deep_view());
    }
    if let Err(message) = check_records(&records, expected_run_id) {
        return Err(message);
    }
    let started = match &records[0].event {
        Event::InvocationStarted(started) => started.clone(),
        _ => {
            return Err("first record is not invocation_started".to_owned());
        },
    };
    if !same_compiler(&started.compiler, &handshake.rustc) {
        return Err("sidecar compiler identity does not match the handshake".to_owned());
    }
    if let Err(message) = validate_started(&started) {
        return Err(message);
    }
    let gathered = match gather(&records) {
        Ok(gathered) => gathered,
        Err(message) => {
            return Err(message);
        },
    };
    if gathered.finishes.len() == 0 {
        return Err("sidecar has no invocation_finished record".to_owned());
    }
    let profile = if gathered.profiles.len() == 0 {
        None
    } else {
        Some(gathered.profiles[0].clone())
    };
    proof {
        if gathered.profiles.len() > 0 {
            assert(profiles_in(rest)[0] == gathered.profiles[0].deep_view());
        }
        assert(finishes_in(rest)[0] == gathered.finishes[0].deep_view());
    }
    let sources_check = check_sources(&gathered.sources);
    let product_check = validate_product_facts(
        &gathered.products,
        &gathered.definitions,
        gathered.sources.len() > 0 || gathered.definitions.len() > 0 || gathered.bindings.len() > 0
            || gathered.references.len() > 0 || gathered.roots.len() > 0,
    );
    let invocation = Invocation {
        id: records[0].invocation_id.clone(),
        started,
        profile,
        sources: sort_facts(gathered.sources),
        products: gathered.products,
        diagnostics: gathered.diagnostics,
        definitions: sort_facts(gathered.definitions),
        bindings: sort_facts(gathered.bindings),
        roots: sort_facts(gathered.roots),
        references: sort_facts(gathered.references),
        finished: gathered.finishes[0],
    };
    proof {
        assert(invocation.deep_view() =~= described(all));
    }
    if let Err(message) = check_completion(&invocation) {
        return Err(message);
    }
    if invocation.products.len() > 1 {
        return Err("duplicate product_status for SemanticGraph".to_owned());
    }
    if invocation.products.len() == 0 {
        return Err("sidecar does not report availability for every semantic product".to_owned());
    }
    if let Err(message) = sources_check {
        return Err(message);
    }
    if let Err(message) = product_check {
        return Err(message);
    }
    if let Err(message) = check_facts(&invocation) {
        return Err(message);
    }
    Ok(invocation)
}

/// What is wrong with the length of a sidecar, before it is read.
pub open spec fn length_error(length: u64) -> Option<Seq<char>> {
    if length > MAX_SIDECAR_BYTES {
        Some(
            "sidecar is "@ + decimal(length as nat) + " bytes, exceeding the limit "@ + decimal(
                MAX_SIDECAR_BYTES as nat,
            ),
        )
    } else {
        None
    }
}

/// Checks the length of a sidecar, before it is read.
pub fn check_length(length: u64) -> (result: Result<(), String>)
    ensures
        reports(result, length_error(length)),
{
    if length > MAX_SIDECAR_BYTES {
        let mut message = "sidecar is ".to_owned();
        message.append(decimal_text(length as u128).as_str());
        message.append(" bytes, exceeding the limit ");
        message.append(decimal_text(MAX_SIDECAR_BYTES as u128).as_str());
        return Err(message);
    }
    Ok(())
}

/// The pieces of some bytes between their line feeds.
pub open spec fn byte_lines(bytes: Seq<u8>) -> Seq<Seq<u8>>
    decreases bytes.len(),
{
    if bytes.len() == 0 {
        seq![Seq::empty()]
    } else {
        let lines = byte_lines(bytes.drop_last());
        if bytes.last() == 10 {
            lines.push(Seq::empty())
        } else {
            lines.drop_last().push(lines.last().push(bytes.last()))
        }
    }
}

/// The lines that hold something, each with its number.
pub open spec fn numbered(lines: Seq<Seq<u8>>) -> Seq<(usize, Seq<u8>)>
    decreases lines.len(),
{
    if lines.len() == 0 {
        Seq::empty()
    } else if lines.last().len() == 0 {
        numbered(lines.drop_last())
    } else {
        numbered(lines.drop_last()).push((lines.len() as usize, lines.last()))
    }
}

/// The place of the first line that is too long for a record, from a place on.
pub open spec fn first_long(lines: Seq<Seq<u8>>, from: int) -> Option<int>
    decreases lines.len() - from,
{
    if from >= lines.len() {
        None
    } else if lines[from].len() > MAX_RECORD_BYTES {
        Some(from)
    } else {
        first_long(lines, from + 1)
    }
}

/// The lines of a sidecar that hold records.
#[derive(Debug, PartialEq, Eq)]
pub struct Frames {
    /// The records before the first that is too long, each with its number.
    pub records: Vec<(usize, Vec<u8>)>,
    /// What is wrong with the record after them.
    pub error: Option<String>,
}

/// What is wrong with the bytes of a sidecar as a whole.
pub open spec fn bytes_error(bytes: Seq<u8>) -> Option<Seq<char>> {
    if bytes.len() > MAX_SIDECAR_BYTES {
        Some("sidecar grew beyond the limit "@ + decimal(MAX_SIDECAR_BYTES as nat))
    } else if bytes.len() == 0 || bytes.last() != 10 {
        Some("sidecar is empty or truncated"@)
    } else {
        None
    }
}

fn split_lines(bytes: &Vec<u8>) -> (lines: Vec<Vec<u8>>)
    ensures
        lines.deep_view() == byte_lines(bytes@),
{
    let mut lines: Vec<Vec<u8>> = no_items();
    let mut line: Vec<u8> = no_items();
    let mut index: usize = 0;
    proof {
        assert(bytes@.take(0) =~= Seq::<u8>::empty());
        assert(lines.deep_view().push(line.deep_view()) =~= seq![Seq::<u8>::empty()]);
    }
    while index < bytes.len()
        invariant
            index <= bytes.len(),
            lines.deep_view().push(line.deep_view()) == byte_lines(bytes@.take(index as int)),
        decreases bytes.len() - index,
    {
        let byte = bytes[index];
        let ghost before = byte_lines(bytes@.take(index as int));
        proof {
            let next = bytes@.take(index + 1);
            assert(next.drop_last() =~= bytes@.take(index as int));
            assert(next.last() == byte);
            assert(before.drop_last() =~= lines.deep_view());
            assert(before.last() == line.deep_view());
        }
        if byte == 10 {
            push_item(&mut lines, line);
            line = no_items();
            proof {
                assert(line.deep_view() =~= Seq::<u8>::empty());
            }
        } else {
            push_item(&mut line, byte);
        }
        index = index + 1;
    }
    proof {
        assert(bytes@.take(bytes.len() as int) =~= bytes@);
    }
    push_item(&mut lines, line);
    lines
}

/// Cuts the bytes of a sidecar into the lines that hold its records.
pub fn frames(bytes: &Vec<u8>) -> (result: Result<Frames, String>)
    ensures
        reports(result, bytes_error(bytes@)),
        result matches Ok(found) ==> {
            let lines = byte_lines(bytes@);
            match first_long(lines, 0) {
                None => found.records.deep_view() == numbered(lines) && found.error is None,
                Some(at) => found.records.deep_view() == numbered(lines.take(at))
                    && found.error is Some && found.error->0@ == "record "@ + decimal(
                    (at + 1) as nat,
                ) + " exceeds "@ + decimal(MAX_RECORD_BYTES as nat) + " bytes"@,
            }
        },
{
    if bytes.len() as u64 > MAX_SIDECAR_BYTES {
        let mut message = "sidecar grew beyond the limit ".to_owned();
        message.append(decimal_text(MAX_SIDECAR_BYTES as u128).as_str());
        return Err(message);
    }
    if bytes.len() == 0 || bytes[bytes.len() - 1] != 10 {
        return Err("sidecar is empty or truncated".to_owned());
    }
    let lines = split_lines(bytes);
    let ghost all = lines.deep_view();
    let mut records: Vec<(usize, Vec<u8>)> = no_items();
    let mut index: usize = 0;
    proof {
        assert(all.take(0) =~= Seq::<Seq<u8>>::empty());
    }
    while index < lines.len()
        invariant
            all == lines.deep_view(),
            all == byte_lines(bytes@),
            bytes_error(bytes@) is None,
            index <= lines.len(),
            records.deep_view() == numbered(all.take(index as int)),
            first_long(all, 0) == first_long(all, index as int),
        decreases lines.len() - index,
    {
        let ghost next = all.take(index as int + 1);
        proof {
            assert(all[index as int] == lines[index as int].deep_view());
            assert(next.drop_last() =~= all.take(index as int));
            assert(next.last() == all[index as int]);
        }
        if lines[index].len() > MAX_RECORD_BYTES {
            let mut message = "record ".to_owned();
            message.append(decimal_text(index as u128 + 1).as_str());
            message.append(" exceeds ");
            message.append(decimal_text(MAX_RECORD_BYTES as u128).as_str());
            message.append(" bytes");
            return Ok(Frames { records, error: Some(message) });
        }
        if lines[index].len() > 0 {
            let line = lines[index].clone();
            proof {
                assert(line.deep_view() =~= all[index as int]);
            }
            push_item(&mut records, (index + 1, line));
        }
        index = index + 1;
    }
    proof {
        assert(all.take(all.len() as int) =~= all);
    }
    Ok(Frames { records, error: None })
}

/// A record is one line: it holds something, is not too long, and has its line feed at its end.
pub open spec fn is_record_line(record: Seq<u8>) -> bool {
    &&& 1 < record.len() <= MAX_RECORD_BYTES + 1
    &&& record.last() == 10
    &&& !record.drop_last().contains(10u8)
}

/// Bytes without a line feed make the last line longer.
proof fn lemma_lines_grow(bytes: Seq<u8>, text: Seq<u8>)
    requires
        !text.contains(10u8),
    ensures
        byte_lines(bytes).len() > 0,
        byte_lines(bytes + text) == byte_lines(bytes).drop_last().push(
            byte_lines(bytes).last() + text,
        ),
    decreases text.len(),
{
    lemma_some_line(bytes);
    let lines = byte_lines(bytes);
    if text.len() == 0 {
        assert(bytes + text =~= bytes);
        assert(lines.last() + text =~= lines.last());
        assert(lines.drop_last().push(lines.last()) =~= lines);
    } else {
        let head = text.drop_last();
        assert forall|i: int| 0 <= i < head.len() implies head[i] != 10 by {
            assert(text.contains(text[i]));
        }
        lemma_lines_grow(bytes, head);
        assert((bytes + text).drop_last() =~= bytes + head);
        assert(text.contains(text.last()));
        assert(lines.last() + text =~= (lines.last() + head).push(text.last()));
        let before = lines.drop_last().push(lines.last() + head);
        assert(before.drop_last() =~= lines.drop_last());
    }
}

/// There is always a line.
proof fn lemma_some_line(bytes: Seq<u8>)
    ensures
        byte_lines(bytes).len() > 0,
    decreases bytes.len(),
{
    if bytes.len() > 0 {
        lemma_some_line(bytes.drop_last());
    }
}

/// The lines of a sidecar are its records without their line feeds, and nothing after them.
proof fn lemma_lines_of_records(records: Seq<Seq<u8>>)
    requires
        forall|i: int| 0 <= i < records.len() ==> is_record_line(#[trigger] records[i]),
    ensures
        byte_lines(sidecar_bytes(records)) == Seq::new(
            records.len(),
            |i: int| records[i].drop_last(),
        ).push(Seq::empty()),
    decreases records.len(),
{
    let texts = Seq::new(records.len(), |i: int| records[i].drop_last());
    if records.len() == 0 {
        assert(texts.push(Seq::empty()) =~= seq![Seq::<u8>::empty()]);
    } else {
        let head = records.drop_last();
        let record = records[records.len() - 1];
        assert(is_record_line(record));
        assert forall|i: int| 0 <= i < head.len() implies is_record_line(#[trigger] head[i]) by {
            assert(is_record_line(records[i]));
        }
        lemma_lines_of_records(head);
        let before = sidecar_bytes(head);
        let text = record.drop_last();
        lemma_lines_grow(before, text);
        let whole = sidecar_bytes(records);
        assert(whole =~= before + text + seq![10u8]);
        assert(whole.drop_last() =~= before + text);
        assert(Seq::<u8>::empty() + text =~= text);
        let earlier = Seq::new(head.len(), |i: int| head[i].drop_last());
        assert(earlier.push(Seq::empty()).drop_last() =~= earlier);
        assert(earlier.push(text) =~= texts);
    }
}

/// No line of a list is too long where none is.
proof fn lemma_none_long(lines: Seq<Seq<u8>>, from: int)
    requires
        0 <= from,
        forall|i: int| 0 <= i < lines.len() ==> (#[trigger] lines[i]).len() <= MAX_RECORD_BYTES,
    ensures
        first_long(lines, from) is None,
    decreases lines.len() - from,
{
    if from < lines.len() {
        lemma_none_long(lines, from + 1);
    }
}

/// Lines that all hold something keep their numbers.
proof fn lemma_all_numbered(lines: Seq<Seq<u8>>)
    requires
        forall|i: int| 0 <= i < lines.len() ==> (#[trigger] lines[i]).len() > 0,
    ensures
        numbered(lines) == Seq::new(lines.len(), |i: int| ((i + 1) as usize, lines[i])),
    decreases lines.len(),
{
    if lines.len() > 0 {
        let head = lines.drop_last();
        assert forall|i: int| 0 <= i < head.len() implies (#[trigger] head[i]).len() > 0 by {
            assert(lines[i].len() > 0);
        }
        lemma_all_numbered(head);
        assert(lines[lines.len() - 1].len() > 0);
    }
    assert(numbered(lines) =~= Seq::new(lines.len(), |i: int| ((i + 1) as usize, lines[i])));
}

/// What the driver writes is what is read: a sidecar that is not too large is cut into just the
/// records that it was written from, in their order.
pub proof fn law_sidecars_are_read_as_written(records: Seq<Seq<u8>>)
    requires
        records.len() > 0,
        forall|i: int| 0 <= i < records.len() ==> is_record_line(#[trigger] records[i]),
        sidecar_bytes(records).len() <= MAX_SIDECAR_BYTES,
    ensures
        bytes_error(sidecar_bytes(records)) is None,
        first_long(byte_lines(sidecar_bytes(records)), 0) is None,
        numbered(byte_lines(sidecar_bytes(records))) == Seq::new(
            records.len(),
            |i: int| ((i + 1) as usize, records[i].drop_last()),
        ),
{
    let texts = Seq::new(records.len(), |i: int| records[i].drop_last());
    let lines = byte_lines(sidecar_bytes(records));
    lemma_lines_of_records(records);
    assert(is_record_line(records[records.len() - 1]));
    assert(sidecar_bytes(records).last() == records.last().last());
    assert forall|i: int| 0 <= i < lines.len() implies (#[trigger] lines[i]).len()
        <= MAX_RECORD_BYTES by {
        if i < records.len() {
            assert(is_record_line(records[i]));
            assert(lines[i] == records[i].drop_last());
        }
    }
    lemma_none_long(lines, 0);
    assert forall|i: int| 0 <= i < texts.len() implies (#[trigger] texts[i]).len() > 0 by {
        assert(is_record_line(records[i]));
    }
    lemma_all_numbered(texts);
    assert(lines.drop_last() =~= texts);
    assert(numbered(lines) =~= Seq::new(
        records.len(),
        |i: int| ((i + 1) as usize, records[i].drop_last()),
    ));
}

/// The invocations of a run, and what was wrong with the sidecars that could not be read.
#[derive(Debug, PartialEq, Eq)]
pub struct Sidecars {
    pub invocations: Vec<Invocation>,
    pub errors: Vec<String>,
}

/// What is wrong with the number of sidecars.
pub open spec fn sidecar_count_error(count: usize) -> Option<Seq<char>> {
    if count > MAX_SIDECARS {
        Some(
            "compiler emitted "@ + decimal(count as nat) + " sidecars, exceeding the limit "@
                + decimal(MAX_SIDECARS as nat),
        )
    } else {
        None
    }
}

/// Checks the number of sidecars.
pub fn check_sidecar_count(count: usize) -> (result: Result<(), String>)
    ensures
        reports(result, sidecar_count_error(count)),
{
    if count > MAX_SIDECARS {
        let mut message = "compiler emitted ".to_owned();
        message.append(decimal_text(count as u128).as_str());
        message.append(" sidecars, exceeding the limit ");
        message.append(decimal_text(MAX_SIDECARS as u128).as_str());
        return Err(message);
    }
    Ok(())
}

/// Invocations with the keys that they are ordered by.
pub open spec fn invocation_keys(invocations: Seq<InvocationView>) -> Seq<
    ((Seq<char>, Seq<char>), InvocationView),
> {
    Seq::new(
        invocations.len(),
        |i: int| ((invocations[i].started.merge_key, invocations[i].id), invocations[i]),
    )
}

/// A failure with the path of the sidecar that it is about.
pub open spec fn failure_text(failure: (Seq<char>, Seq<char>)) -> Seq<char> {
    failure.0 + ": "@ + failure.1
}

/// Puts the invocations in the order of their merge keys, then of their identities, and the
/// failures in the order of their texts, each once.
pub fn arrange_sidecars(
    invocations: Vec<Invocation>,
    failures: Vec<(String, String)>,
) -> (sidecars: Sidecars)
    ensures
        sidecars.invocations.deep_view() == second(
            stable_sorted::<(String, String), Invocation>(
                invocation_keys(invocations.deep_view()),
            ),
        ),
        sidecars.errors.deep_view() == ascending::<String>(
            image(
                failures.deep_view(),
                |failure: (Seq<char>, Seq<char>)| Some(failure_text(failure)),
            ),
        ),
{
    let ghost all = invocations.deep_view();
    let mut entries: Vec<((String, String), Invocation)> = no_items();
    for invocation in it: invocations
        invariant
            all.len() == it.seq().len(),
            forall|i: int| 0 <= i < all.len() ==> #[trigger] all[i] == it.seq()[i].deep_view(),
            entries.deep_view() =~= invocation_keys(all).take(it.index() as int),
    {
        proof {
            assert(all[it.index() as int] == invocation.deep_view());
        }
        let key = (invocation.started.merge_key.0.clone(), invocation.id.0.clone());
        push_item(&mut entries, (key, invocation));
    }
    proof {
        assert(entries.deep_view() =~= invocation_keys(all));
    }
    let ghost texts = failures.deep_view();
    let ghost f = |failure: (Seq<char>, Seq<char>)| Some(failure_text(failure));
    let mut errors: SortedSet<String> = SortedSet::new();
    let mut index: usize = 0;
    proof {
        lemma_image_ends(texts, f);
    }
    while index < failures.len()
        invariant
            texts == failures.deep_view(),
            f == |failure: (Seq<char>, Seq<char>)| Some(failure_text(failure)),
            index <= texts.len(),
            errors.wf(),
            errors.deep_view() == image(texts.take(index as int), f),
        decreases texts.len() - index,
    {
        proof {
            lemma_image_step(texts, f, index as int);
            assert(texts[index as int] == failures[index as int].deep_view());
        }
        let mut text = failures[index].0.clone();
        text.append(": ");
        text.append(failures[index].1.as_str());
        errors.insert(text);
        index = index + 1;
    }
    proof {
        lemma_image_ends(texts, f);
        errors.lemma_seq();
    }
    Sidecars { invocations: take_second(stable_sort(entries)), errors: errors.into_vec() }
}

/// Facts that are in the order of their identities already stay as they are.
pub proof fn law_facts_in_order_stay<T: Identified>(facts: Seq<<T as DeepView>::V>)
    requires
        forall|i: int, j: int|
            0 <= i < j < facts.len() ==> !String::precedes(
                T::identity(#[trigger] facts[j]),
                T::identity(#[trigger] facts[i]),
            ),
    ensures
        in_order::<T>(facts) == facts,
{
    let entries = keyed::<T>(facts);
    assert(key_sorted::<String, T>(entries));
    lemma_stable_sorted_idempotent::<String, T>(entries);
    assert(second(entries) =~= facts);
}

} // verus!
