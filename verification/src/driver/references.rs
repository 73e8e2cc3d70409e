//! References between definitions.

use vstd::prelude::*;

use crate::collections::{
    append_items, collect_items, collected, flatten_places, flattened, lemma_collected_member,
    lemma_flattened_member, no_items, push_item, SortedMap,
};
use crate::driver::definitions::{
    associated, containing_adt, data_type_around, emits, emits_definition, emitted,
    enclosing_module, held_by, holder_kind, is_associated, is_emitted, local_parent, module_around,
    nearest_emitted, nearest_emitted_definition, parent_kind, places_of, DefKind, LocalDefinition,
    LocalDefinitionView, LocatedSpan, LocatedSpanView, ResolvedReference, ResolvedReferenceView,
    SpanAttribution, SpanAttributionView,
};
use crate::driver::roots::{new_root, root_of};
use crate::protocol::{CompilerDefId, ReferenceKind, Root, RootKind, RootView};

verus! {

/// A reference from one definition to another, and where it is.
#[derive(Debug, PartialEq, Eq)]
pub struct FoundReference {
    pub from: CompilerDefId,
    pub to: CompilerDefId,
    pub kind: ReferenceKind,
    pub location: Option<LocatedSpan>,
}

/// The model of [`FoundReference`].
#[verifier::ext_equal]
pub struct FoundReferenceView {
    pub from: CompilerDefId,
    pub to: CompilerDefId,
    pub kind: ReferenceKind,
    pub location: Option<LocatedSpanView>,
}

impl DeepView for FoundReference {
    type V = FoundReferenceView;

    open spec fn deep_view(&self) -> FoundReferenceView {
        FoundReferenceView {
            from: self.from,
            to: self.to,
            kind: self.kind,
            location: self.location.deep_view(),
        }
    }
}

impl Clone for FoundReference {
    fn clone(&self) -> (copy: Self)
        ensures
            copy.deep_view() == self.deep_view(),
    {
        let copy = FoundReference {
            from: self.from,
            to: self.to,
            kind: self.kind,
            location: self.location.clone(),
        };
        proof {
            assert(copy.location.deep_view() =~= self.location.deep_view());
        }
        copy
    }
}

/// The place that is known of code: its own, or that of the expansion that it stems from.
pub open spec fn known_place(attribution: SpanAttributionView) -> Option<LocatedSpanView> {
    match attribution.span {
        Some(span) => Some(span),
        None => attribution.callsite,
    }
}

/// The place that is known of code: its own, or that of the expansion that it stems from.
pub fn reference_span(attribution: &SpanAttribution) -> (place: Option<LocatedSpan>)
    ensures
        place.deep_view() == known_place(attribution.deep_view()),
{
    match &attribution.span {
        Some(span) => Some(span.clone()),
        None => match &attribution.callsite {
            Some(callsite) => Some(callsite.clone()),
            None => None,
        },
    }
}

/// A reference of a kind from a definition to each that some code names.
pub open spec fn resolved_from(from: CompilerDefId, kind: ReferenceKind) -> spec_fn(
    ResolvedReferenceView,
) -> Option<FoundReferenceView> {
    |reference: ResolvedReferenceView|
        Some(FoundReferenceView { from, to: reference.target, kind, location: reference.span })
}

/// The references of a kind from a definition to all that some code names.
pub open spec fn resolved_references(
    from: CompilerDefId,
    kind: ReferenceKind,
    references: Seq<ResolvedReferenceView>,
) -> Seq<FoundReferenceView> {
    collected(references, resolved_from(from, kind))
}

/// Lists the references of a kind from a definition to all that some code names.
pub fn list_resolved(
    from: CompilerDefId,
    kind: ReferenceKind,
    references: &Vec<ResolvedReference>,
) -> (list: Vec<FoundReference>)
    ensures
        list.deep_view() == resolved_references(from, kind, references.deep_view()),
{
    let ghost f = resolved_from(from, kind);
    let pick = |reference: &ResolvedReference| -> (found: Option<FoundReference>)
        ensures
            found.deep_view() == f(reference.deep_view()),
    {
        let copy = reference.clone();
        Some(FoundReference { from, to: copy.target, kind, location: copy.span })
    };
    collect_items(references, pick, Ghost(f))
}

/// The references from the body of the definition at a place.
pub open spec fn body_references(definitions: Seq<LocalDefinitionView>, at: int) -> Seq<
    FoundReferenceView,
> {
    match (definitions[at].body, nearest_emitted(definitions, at)) {
        (Some(references), Some(source)) => resolved_references(
            definitions[source].compiler_id,
            ReferenceKind::Body,
            references,
        ),
        _ => Seq::empty(),
    }
}

/// Lists the references from the body of the definition at a place.
pub fn list_body_references(definitions: &Vec<LocalDefinition>, at: usize) -> (list: Vec<
    FoundReference,
>)
    requires
        at < definitions.len(),
    ensures
        list.deep_view() == body_references(definitions.deep_view(), at as int),
{
    proof {
        assert(definitions.deep_view()[at as int] == definitions[at as int].deep_view());
    }
    match (&definitions[at].body, nearest_emitted_definition(definitions, at)) {
        (Some(references), Some(source)) => {
            proof {
                assert(definitions.deep_view()[source as int]
                    == definitions[source as int].deep_view());
            }
            list_resolved(definitions[source].compiler_id, ReferenceKind::Body, references)
        },
        _ => no_items(),
    }
}

/// What is said of a definition that global assembly names.
pub open spec fn assembly_root(definitions: Seq<LocalDefinitionView>) -> spec_fn(
    ResolvedReferenceView,
) -> Option<RootView> {
    |reference: ResolvedReferenceView|
        if emits(definitions, reference.target) {
            Some(
                root_of(
                    reference.target,
                    RootKind::Conservative,
                    "global assembly retains this symbol"@,
                ),
            )
        } else {
            None
        }
}

/// The definitions that global assembly at a place names.
pub open spec fn assembly_roots(definitions: Seq<LocalDefinitionView>, at: int) -> Seq<RootView> {
    match (definitions[at].body, nearest_emitted(definitions, at)) {
        (Some(references), Some(_)) => if definitions[at].kind == DefKind::GlobalAsm {
            collected(references, assembly_root(definitions))
        } else {
            Seq::empty()
        },
        _ => Seq::empty(),
    }
}

/// Lists the definitions that global assembly at a place names.
pub fn list_assembly_roots(
    definitions: &Vec<LocalDefinition>,
    places: &SortedMap<CompilerDefId, usize>,
    at: usize,
) -> (list: Vec<Root>)
    requires
        at < definitions.len(),
        places.wf(),
        places.deep_view() == places_of(definitions.deep_view()),
    ensures
        list.deep_view() == assembly_roots(definitions.deep_view(), at as int),
{
    let ghost f = assembly_root(definitions.deep_view());
    proof {
        assert(definitions.deep_view()[at as int] == definitions[at as int].deep_view());
    }
    if definitions[at].kind != DefKind::GlobalAsm {
        return no_items();
    }
    match (&definitions[at].body, nearest_emitted_definition(definitions, at)) {
        (Some(references), Some(_)) => {
            let pick = |reference: &ResolvedReference| -> (root: Option<Root>)
                requires
                    places.wf(),
                    places.deep_view() == places_of(definitions.deep_view()),
                ensures
                    root.deep_view() == f(reference.deep_view()),
            {
                if emits_definition(definitions, places, reference.target) {
                    Some(
                        new_root(
                            reference.target,
                            RootKind::Conservative,
                            "global assembly retains this symbol",
                        ),
                    )
                } else {
                    None
                }
            };
            collect_items(references, pick, Ghost(f))
        },
        _ => no_items(),
    }
}

/// A reference from the definition at a place, from where it is defined.
pub open spec fn reference_to(
    definitions: Seq<LocalDefinitionView>,
    at: int,
    to: CompilerDefId,
    kind: ReferenceKind,
) -> FoundReferenceView {
    FoundReferenceView {
        from: definitions[at].compiler_id,
        to,
        kind,
        location: known_place(definitions[at].location),
    }
}

fn refer_to(
    definitions: &Vec<LocalDefinition>,
    at: usize,
    to: CompilerDefId,
    kind: ReferenceKind,
) -> (reference: FoundReference)
    requires
        at < definitions.len(),
    ensures
        reference.deep_view() == reference_to(definitions.deep_view(), at as int, to, kind),
{
    proof {
        assert(definitions.deep_view()[at as int] == definitions[at as int].deep_view());
    }
    FoundReference {
        from: definitions[at].compiler_id,
        to,
        kind,
        location: reference_span(&definitions[at].location),
    }
}

/// The references from an item of a trait implementation to the item of the trait, and the
/// visibility that what it names must have.
pub open spec fn trait_item_references(definitions: Seq<LocalDefinitionView>, at: int) -> Seq<
    FoundReferenceView,
> {
    match definitions[at].trait_item {
        Some(item) => if holder_kind(definitions, at) == Some(DefKind::TraitImpl) {
            seq![reference_to(definitions, at, item, ReferenceKind::Interface)]
                + resolved_references(
                definitions[at].compiler_id,
                ReferenceKind::VisibilityRequirement,
                definitions[at].interface,
            )
        } else {
            Seq::empty()
        },
        None => Seq::empty(),
    }
}

fn list_trait_item_references(definitions: &Vec<LocalDefinition>, at: usize) -> (list: Vec<
    FoundReference,
>)
    requires
        at < definitions.len(),
    ensures
        list.deep_view() == trait_item_references(definitions.deep_view(), at as int),
{
    let ghost all = definitions.deep_view();
    proof {
        assert(all[at as int] == definitions[at as int].deep_view());
    }
    let mut list: Vec<FoundReference> = no_items();
    if let Some(item) = definitions[at].trait_item {
        let in_trait_impl = match parent_kind(definitions, at) {
            Some(kind) => kind == DefKind::TraitImpl,
            None => false,
        };
        if in_trait_impl {
            push_item(&mut list, refer_to(definitions, at, item, ReferenceKind::Interface));
            proof {
                assert(list.deep_view() =~= seq![
                    reference_to(all, at as int, item, ReferenceKind::Interface),
                ]);
            }
            append_items(
                &mut list,
                list_resolved(
                    definitions[at].compiler_id,
                    ReferenceKind::VisibilityRequirement,
                    &definitions[at].interface,
                ),
            );
        }
    }
    list
}

/// The references from an associated item to the trait or the type that it belongs to.
pub open spec fn owner_references(definitions: Seq<LocalDefinitionView>, at: int) -> Seq<
    FoundReferenceView,
> {
    match held_by(definitions, at) {
        Some(parent) => if !is_associated(definitions[at].kind) {
            Seq::empty()
        } else if definitions[parent].kind == DefKind::Trait {
            seq![
                reference_to(
                    definitions,
                    at,
                    definitions[parent].compiler_id,
                    ReferenceKind::Interface,
                ),
            ] + resolved_references(
                definitions[parent].compiler_id,
                ReferenceKind::VisibilityRequirement,
                definitions[at].interface,
            )
        } else if definitions[parent].kind == DefKind::InherentImpl {
            match definitions[parent].self_type {
                Some(owner) => seq![
                    reference_to(definitions, at, owner, ReferenceKind::Interface),
                ],
                None => Seq::empty(),
            }
        } else {
            Seq::empty()
        },
        None => Seq::empty(),
    }
}

fn list_owner_references(definitions: &Vec<LocalDefinition>, at: usize) -> (list: Vec<
    FoundReference,
>)
    requires
        at < definitions.len(),
    ensures
        list.deep_view() == owner_references(definitions.deep_view(), at as int),
{
    let ghost all = definitions.deep_view();
    proof {
        assert(all[at as int] == definitions[at as int].deep_view());
    }
    let mut list: Vec<FoundReference> = no_items();
    if let Some(parent) = local_parent(definitions, at) {
        proof {
            assert(all[parent as int] == definitions[parent as int].deep_view());
        }
        if associated(definitions[at].kind) {
            if definitions[parent].kind == DefKind::Trait {
                let owner = definitions[parent].compiler_id;
                push_item(&mut list, refer_to(definitions, at, owner, ReferenceKind::Interface));
                proof {
                    assert(list.deep_view() =~= seq![
                        reference_to(all, at as int, owner, ReferenceKind::Interface),
                    ]);
                }
                append_items(
                    &mut list,
                    list_resolved(
                        owner,
                        ReferenceKind::VisibilityRequirement,
                        &definitions[at].interface,
                    ),
                );
            } else if definitions[parent].kind == DefKind::InherentImpl {
                if let Some(owner) = definitions[parent].self_type {
                    push_item(
                        &mut list,
                        refer_to(definitions, at, owner, ReferenceKind::Interface),
                    );
                    proof {
                        assert(list.deep_view() =~= seq![
                            reference_to(all, at as int, owner, ReferenceKind::Interface),
                        ]);
                    }
                }
            }
        }
    }
    list
}

/// The reference from a definition to the module around it, and from a field or variant to its
/// type.
pub open spec fn container_references(definitions: Seq<LocalDefinitionView>, at: int) -> Seq<
    FoundReferenceView,
> {
    let module = match module_around(definitions, at) {
        Some(module) => seq![
            reference_to(
                definitions,
                at,
                definitions[module].compiler_id,
                ReferenceKind::VisibilityParent,
            ),
        ],
        None => Seq::<FoundReferenceView>::empty(),
    };
    let part = definitions[at].kind == DefKind::Field || definitions[at].kind == DefKind::Variant;
    match data_type_around(definitions, at) {
        Some(owner) => if part {
            module.push(
                reference_to(
                    definitions,
                    at,
                    definitions[owner].compiler_id,
                    ReferenceKind::Interface,
                ),
            )
        } else {
            module
        },
        None => module,
    }
}

fn list_container_references(definitions: &Vec<LocalDefinition>, at: usize) -> (list: Vec<
    FoundReference,
>)
    requires
        at < definitions.len(),
    ensures
        list.deep_view() == container_references(definitions.deep_view(), at as int),
{
    let ghost all = definitions.deep_view();
    proof {
        assert(all[at as int] == definitions[at as int].deep_view());
    }
    let mut list: Vec<FoundReference> = no_items();
    if let Some(module) = enclosing_module(definitions, at) {
        proof {
            assert(all[module as int] == definitions[module as int].deep_view());
        }
        let to = definitions[module].compiler_id;
        push_item(&mut list, refer_to(definitions, at, to, ReferenceKind::VisibilityParent));
        proof {
            assert(list.deep_view() =~= seq![
                reference_to(all, at as int, to, ReferenceKind::VisibilityParent),
            ]);
        }
    }
    let kind = definitions[at].kind;
    if kind == DefKind::Field || kind == DefKind::Variant {
        if let Some(owner) = containing_adt(definitions, at) {
            proof {
                assert(all[owner as int] == definitions[owner as int].deep_view());
            }
            let to = definitions[owner].compiler_id;
            push_item(&mut list, refer_to(definitions, at, to, ReferenceKind::Interface));
        }
    }
    list
}

/// The kind of the references that a definition makes outside of its body.
pub open spec fn outer_kind(kind: DefKind) -> ReferenceKind {
    if kind == DefKind::Use {
        ReferenceKind::Reexport
    } else {
        ReferenceKind::Interface
    }
}

/// The references from the definition at a place that are not from its body.
pub open spec fn interface_references(definitions: Seq<LocalDefinitionView>, at: int) -> Seq<
    FoundReferenceView,
> {
    if is_emitted(definitions, at) {
        resolved_references(
            definitions[at].compiler_id,
            outer_kind(definitions[at].kind),
            definitions[at].interface,
        ) + trait_item_references(definitions, at) + owner_references(definitions, at)
            + container_references(definitions, at)
    } else {
        Seq::empty()
    }
}

/// Lists the references from the definition at a place that are not from its body.
pub fn list_interface_references(definitions: &Vec<LocalDefinition>, at: usize) -> (list: Vec<
    FoundReference,
>)
    requires
        at < definitions.len(),
    ensures
        list.deep_view() == interface_references(definitions.deep_view(), at as int),
{
    proof {
        assert(definitions.deep_view()[at as int] == definitions[at as int].deep_view());
    }
    if !emitted(definitions, at) {
        return no_items();
    }
    let kind = if definitions[at].kind == DefKind::Use {
        ReferenceKind::Reexport
    } else {
        ReferenceKind::Interface
    };
    let mut list = list_resolved(definitions[at].compiler_id, kind, &definitions[at].interface);
    append_items(&mut list, list_trait_item_references(definitions, at));
    append_items(&mut list, list_owner_references(definitions, at));
    append_items(&mut list, list_container_references(definitions, at));
    list
}

/// All references that the definitions make.
pub open spec fn all_references(definitions: Seq<LocalDefinitionView>) -> Seq<FoundReferenceView> {
    flattened(definitions.len() as int, |at: int| body_references(definitions, at)) + flattened(
        definitions.len() as int,
        |at: int| interface_references(definitions, at),
    )
}

/// Whether a reference starts at a definition that is reported.
pub open spec fn starts_reported(
    definitions: Seq<LocalDefinitionView>,
    reference: FoundReferenceView,
) -> bool {
    exists|at: int|
        0 <= at < definitions.len() && is_emitted(definitions, at) && (
        #[trigger] definitions[at]).compiler_id == reference.from
}

/// The nearest reported definition is reported.
proof fn lemma_nearest_emitted(definitions: Seq<LocalDefinitionView>, at: int)
    requires
        at < definitions.len(),
    ensures
        nearest_emitted(definitions, at) matches Some(found) ==> 0 <= found < definitions.len()
            && is_emitted(definitions, found),
    decreases at,
{
    if at >= 0 && !is_emitted(definitions, at) {
        if let Some(parent) = held_by(definitions, at) {
            if 0 <= parent < at {
                lemma_nearest_emitted(definitions, parent);
            }
        }
    }
}

/// References of one definition start at it.
proof fn lemma_resolved_start(
    from: CompilerDefId,
    kind: ReferenceKind,
    references: Seq<ResolvedReferenceView>,
    reference: FoundReferenceView,
)
    ensures
        resolved_references(from, kind, references).contains(reference) ==> reference.from == from,
{
    if resolved_references(from, kind, references).contains(reference) {
        let at = lemma_collected_member(references, resolved_from(from, kind), reference);
    }
}

/// References outside of bodies start at reported definitions.
proof fn lemma_interface_starts(
    definitions: Seq<LocalDefinitionView>,
    at: int,
    reference: FoundReferenceView,
)
    requires
        0 <= at < definitions.len(),
        interface_references(definitions, at).contains(reference),
    ensures
        starts_reported(definitions, reference),
{
    let told = definitions[at];
    lemma_resolved_start(told.compiler_id, outer_kind(told.kind), told.interface, reference);
    lemma_resolved_start(
        told.compiler_id,
        ReferenceKind::VisibilityRequirement,
        told.interface,
        reference,
    );
    let own = resolved_references(told.compiler_id, outer_kind(told.kind), told.interface);
    let item = trait_item_references(definitions, at);
    let owner = owner_references(definitions, at);
    let container = container_references(definitions, at);
    let all = interface_references(definitions, at);
    let i = choose|i: int| 0 <= i < all.len() && all[i] == reference;
    if i < own.len() {
        assert(own[i] == reference);
        assert(own.contains(reference));
    } else if i < own.len() + item.len() {
        let rest = resolved_references(
            told.compiler_id,
            ReferenceKind::VisibilityRequirement,
            told.interface,
        );
        if i > own.len() {
            assert(rest[i - own.len() - 1] == reference);
            assert(rest.contains(reference));
        }
    } else if i < own.len() + item.len() + owner.len() {
        if let Some(parent) = held_by(definitions, at) {
            let rest = resolved_references(
                definitions[parent].compiler_id,
                ReferenceKind::VisibilityRequirement,
                told.interface,
            );
            lemma_resolved_start(
                definitions[parent].compiler_id,
                ReferenceKind::VisibilityRequirement,
                told.interface,
                reference,
            );
            let k = i - own.len() - item.len();
            if k > 0 {
                assert(rest[k - 1] == reference);
                assert(rest.contains(reference));
                assert(is_emitted(definitions, parent));
            }
        }
    } else {
        let k = i - own.len() - item.len() - owner.len();
        assert(container[k] == reference);
    }
}

/// Every reference starts at a definition that is reported.
pub proof fn law_references_start_at_reported_definitions(
    definitions: Seq<LocalDefinitionView>,
    index: int,
)
    requires
        0 <= index < all_references(definitions).len(),
    ensures
        starts_reported(definitions, all_references(definitions)[index]),
{
    let reference = all_references(definitions)[index];
    let count = definitions.len() as int;
    let f = |at: int| body_references(definitions, at);
    let g = |at: int| interface_references(definitions, at);
    let bodies = flattened(count, f);
    if index < bodies.len() {
        assert(bodies[index] == reference);
        let at = lemma_flattened_member(count, f, reference);
        lemma_nearest_emitted(definitions, at);
        match (definitions[at].body, nearest_emitted(definitions, at)) {
            (Some(references), Some(source)) => {
                lemma_resolved_start(
                    definitions[source].compiler_id,
                    ReferenceKind::Body,
                    references,
                    reference,
                );
            },
            _ => {},
        }
    } else {
        assert(flattened(count, g)[index - bodies.len()] == reference);
        let at = lemma_flattened_member(count, g, reference);
        lemma_interface_starts(definitions, at, reference);
    }
}

/// All definitions that global assembly names.
pub open spec fn all_assembly_roots(definitions: Seq<LocalDefinitionView>) -> Seq<RootView> {
    flattened(definitions.len() as int, |at: int| assembly_roots(definitions, at))
}

/// Lists all references that the definitions make.
pub fn collect_references(definitions: &Vec<LocalDefinition>) -> (list: Vec<FoundReference>)
    ensures
        list.deep_view() == all_references(definitions.deep_view()),
{
    let ghost all = definitions.deep_view();
    let ghost from_body = |at: int| body_references(all, at);
    let ghost from_interface = |at: int| interface_references(all, at);
    let pick_body = |at: usize| -> (list: Vec<FoundReference>)
        requires
            at < definitions.len(),
        ensures
            list.deep_view() == from_body(at as int),
    {
        list_body_references(definitions, at)
    };
    let pick_interface = |at: usize| -> (list: Vec<FoundReference>)
        requires
            at < definitions.len(),
        ensures
            list.deep_view() == from_interface(at as int),
    {
        list_interface_references(definitions, at)
    };
    let mut list = flatten_places(definitions.len(), pick_body, Ghost(from_body));
    append_items(
        &mut list,
        flatten_places(definitions.len(), pick_interface, Ghost(from_interface)),
    );
    list
}

/// Lists all definitions that global assembly names.
pub fn collect_assembly_roots(
    definitions: &Vec<LocalDefinition>,
    places: &SortedMap<CompilerDefId, usize>,
) -> (list: Vec<Root>)
    requires
        places.wf(),
        places.deep_view() == places_of(definitions.deep_view()),
    ensures
        list.deep_view() == all_assembly_roots(definitions.deep_view()),
{
    let ghost all = definitions.deep_view();
    let ghost f = |at: int| assembly_roots(all, at);
    let pick = |at: usize| -> (list: Vec<Root>)
        requires
            at < definitions.len(),
            places.wf(),
            places.deep_view() == places_of(definitions.deep_view()),
        ensures
            list.deep_view() == f(at as int),
    {
        list_assembly_roots(definitions, places, at)
    };
    flatten_places(definitions.len(), pick, Ghost(f))
}

} // verus!
