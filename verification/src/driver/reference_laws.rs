//! Which references and roots the definitions of a crate have.

use vstd::prelude::*;

use crate::collections::{
    ascending, assembled, chosen, flattened, image, lemma_ascending_exists, lemma_collected_member,
    lemma_flattened_member, lemma_image_finite,
};
use crate::compiler::reach::{law_reach_is_closed, law_reach_is_least};
use crate::compiler::world_laws::lemma_kept;
use crate::driver::definitions::{
    data_type_around, emits, held_by, identities, is_editable, local_place, module_around,
    nearest_emitted, places_of, reported_kind, DefKind, LocalDefinitionView, ResolvedReferenceView,
};
use crate::driver::references::{
    all_assembly_roots, all_references, assembly_root, assembly_roots, body_references,
    container_references, interface_references, known_place, owner_references, reference_to,
    resolved_from, resolved_references, trait_item_references, FoundReferenceView,
};
use crate::driver::roots::{
    alias_at, alias_step, aliases, associated_type_root, attribute_roots, dispatch_root,
    entry_roots, exported_macro, exported_macro_roots, exported_macros, exposed, exposed_by,
    exposed_root, exposed_roots, harness_root, implementing, implementing_at, import_at,
    import_module_root, macro_roots, proc_macro_root, public_imports, reexport_roots, reexported,
    reference_roots, root_of, BindingExposure, BindingNamespace, CrateFacts, VisibilityBinding,
};
use crate::protocol::{
    CompilerDefId, DefinitionKind, ExpansionOrigin, NominalVisibility, ReferenceKind, RootKind,
    RootView,
};

verus! {

/// What is in one of the lists is in the lists put together.
proof fn lemma_flattened_kept<B>(count: int, f: spec_fn(int) -> Seq<B>, at: int, item: B)
    requires
        0 <= at < count,
        f(at).contains(item),
    ensures
        flattened(count, f).contains(item),
    decreases count,
{
    let earlier = flattened(count - 1, f);
    let all = flattened(count, f);
    if at == count - 1 {
        let last = f(at);
        let i = choose|i: int| 0 <= i < last.len() && last[i] == item;
        assert(all[earlier.len() + i] == item);
    } else {
        lemma_flattened_kept(count - 1, f, at, item);
        let i = choose|i: int| 0 <= i < earlier.len() && earlier[i] == item;
        assert(all[i] == item);
    }
}

/// What is chosen is what the function yields at a place.
proof fn lemma_chosen<B>(count: int, f: spec_fn(int) -> Option<B>, item: B)
    ensures
        chosen(count, f).contains(item) <==> exists|at: int| 0 <= at < count && #[trigger] f(at)
            == Some(item),
    decreases count,
{
    if count > 0 {
        let earlier = chosen(count - 1, f);
        let all = chosen(count, f);
        lemma_chosen(count - 1, f, item);
        if all.contains(item) {
            let i = choose|i: int| 0 <= i < all.len() && all[i] == item;
            if i < earlier.len() {
                assert(earlier[i] == item);
            } else {
                assert(f(count - 1) == Some(item));
            }
        }
        if earlier.contains(item) {
            let i = choose|i: int| 0 <= i < earlier.len() && earlier[i] == item;
            assert(all[i] == item);
        }
        if f(count - 1) == Some(item) {
            assert(all[earlier.len() as int] == item);
        }
    }
}

/// What is in one of two lists is in both put together, and nothing else is.
proof fn lemma_both<A>(a: Seq<A>, b: Seq<A>, item: A)
    ensures
        (a + b).contains(item) <==> a.contains(item) || b.contains(item),
{
    let all = a + b;
    if all.contains(item) {
        let i = choose|i: int| 0 <= i < all.len() && all[i] == item;
        if i < a.len() {
            assert(a[i] == item);
        } else {
            assert(b[i - a.len()] == item);
        }
    }
    if a.contains(item) {
        let i = choose|i: int| 0 <= i < a.len() && a[i] == item;
        assert(all[i] == item);
    }
    if b.contains(item) {
        let i = choose|i: int| 0 <= i < b.len() && b[i] == item;
        assert(all[a.len() + i] == item);
    }
}

/// Whether a list of resolved references holds one to a target, at a place.
pub open spec fn names(list: Seq<ResolvedReferenceView>, reference: FoundReferenceView) -> bool {
    exists|n: int|
        0 <= n < list.len() && (#[trigger] list[n]).target == reference.to && list[n].span
            == reference.location
}

proof fn lemma_resolved(
    from: CompilerDefId,
    kind: ReferenceKind,
    list: Seq<ResolvedReferenceView>,
    reference: FoundReferenceView,
)
    ensures
        resolved_references(from, kind, list).contains(reference) <==> reference.from == from
            && reference.kind == kind && names(list, reference),
{
    let f = resolved_from(from, kind);
    if resolved_references(from, kind, list).contains(reference) {
        let at = lemma_collected_member(list, f, reference);
        assert(list[at].target == reference.to);
    }
    if reference.from == from && reference.kind == kind && names(list, reference) {
        let n = choose|n: int|
            0 <= n < list.len() && (#[trigger] list[n]).target == reference.to && list[n].span
                == reference.location;
        lemma_kept(list, f, n);
        assert(f(list[n]) == Some(reference));
    }
}

/// Whether a kind is that of an item of a trait or an implementation.
pub open spec fn is_member(kind: DefKind) -> bool {
    kind == DefKind::AssocFn || kind == DefKind::AssocConst || kind == DefKind::AssocTy
}

/// Whether a reference is one that a body makes: of the nearest definition around it that is
/// reported.
pub open spec fn made_in_body(
    definitions: Seq<LocalDefinitionView>,
    at: int,
    reference: FoundReferenceView,
) -> bool {
    &&& reference.kind == ReferenceKind::Body
    &&& definitions[at].body is Some
    &&& names(definitions[at].body->0, reference)
    &&& nearest_emitted(definitions, at) is Some
    &&& reference.from == definitions[nearest_emitted(definitions, at)->0].compiler_id
}

/// Whether a reference leads from a definition, as a whole, to another one.
pub open spec fn made_as_whole(
    definitions: Seq<LocalDefinitionView>,
    at: int,
    reference: FoundReferenceView,
    to: CompilerDefId,
    kind: ReferenceKind,
) -> bool {
    &&& reference.from == definitions[at].compiler_id
    &&& reference.to == to
    &&& reference.kind == kind
    &&& reference.location == known_place(definitions[at].location)
}

/// Whether a reference is one that a definition makes by what it shows: to what its interface names,
/// or what it reexports; from an item of a trait implementation to the item of the trait; from an
/// associated item to its trait or type; from a field or variant to its type; and to the module
/// around it. Interfaces of trait items bind the visibility of what they name.
pub open spec fn made_in_interface(
    definitions: Seq<LocalDefinitionView>,
    at: int,
    reference: FoundReferenceView,
) -> bool {
    let definition = definitions[at];
    let parent = held_by(definitions, at);
    let own = reference.from == definition.compiler_id;
    &&& reported_kind(definition.kind, at == 0) is Some
    &&& {
        ||| own && definition.kind == DefKind::Use && reference.kind == ReferenceKind::Reexport
            && names(definition.interface, reference)
        ||| own && definition.kind != DefKind::Use && reference.kind == ReferenceKind::Interface
            && names(definition.interface, reference)
        ||| parent is Some && definitions[parent->0].kind == DefKind::TraitImpl
            && definition.trait_item is Some && made_as_whole(
            definitions,
            at,
            reference,
            definition.trait_item->0,
            ReferenceKind::Interface,
        )
        ||| parent is Some && definitions[parent->0].kind == DefKind::TraitImpl
            && definition.trait_item is Some && own && reference.kind
            == ReferenceKind::VisibilityRequirement && names(definition.interface, reference)
        ||| parent is Some && definitions[parent->0].kind == DefKind::Trait && is_member(
            definition.kind,
        ) && made_as_whole(
            definitions,
            at,
            reference,
            definitions[parent->0].compiler_id,
            ReferenceKind::Interface,
        )
        ||| parent is Some && definitions[parent->0].kind == DefKind::Trait && is_member(
            definition.kind,
        ) && reference.from == definitions[parent->0].compiler_id && reference.kind
            == ReferenceKind::VisibilityRequirement && names(definition.interface, reference)
        ||| parent is Some && definitions[parent->0].kind == DefKind::InherentImpl
            && is_member(definition.kind) && definitions[parent->0].self_type is Some
            && made_as_whole(
            definitions,
            at,
            reference,
            definitions[parent->0].self_type->0,
            ReferenceKind::Interface,
        )
        ||| module_around(definitions, at) is Some && made_as_whole(
            definitions,
            at,
            reference,
            definitions[module_around(definitions, at)->0].compiler_id,
            ReferenceKind::VisibilityParent,
        )
        ||| (definition.kind == DefKind::Field || definition.kind == DefKind::Variant)
            && data_type_around(definitions, at) is Some && made_as_whole(
            definitions,
            at,
            reference,
            definitions[data_type_around(definitions, at)->0].compiler_id,
            ReferenceKind::Interface,
        )
    }
}

proof fn lemma_one<A>(x: A, item: A)
    ensures
        seq![x].contains(item) <==> x == item,
{
    if seq![x].contains(item) {
        let i = choose|i: int| 0 <= i < 1 && seq![x][i] == item;
        assert(seq![x][0] == x);
    }
    if x == item {
        assert(seq![x][0] == item);
    }
}

proof fn lemma_pushed<A>(s: Seq<A>, x: A, item: A)
    ensures
        s.push(x).contains(item) <==> s.contains(item) || x == item,
{
    assert(s.push(x) =~= s + seq![x]);
    lemma_both(s, seq![x], item);
    lemma_one(x, item);
}

proof fn lemma_interface(
    definitions: Seq<LocalDefinitionView>,
    at: int,
    reference: FoundReferenceView,
)
    ensures
        interface_references(definitions, at).contains(reference) <==> made_in_interface(
            definitions,
            at,
            reference,
        ),
{
    let definition = definitions[at];
    let kind = if definition.kind == DefKind::Use {
        ReferenceKind::Reexport
    } else {
        ReferenceKind::Interface
    };
    let own = resolved_references(definition.compiler_id, kind, definition.interface);
    let item = trait_item_references(definitions, at);
    let owner = owner_references(definitions, at);
    let container = container_references(definitions, at);
    lemma_both(own, item, reference);
    lemma_both(own + item, owner, reference);
    lemma_both(own + item + owner, container, reference);
    lemma_resolved(definition.compiler_id, kind, definition.interface, reference);
    let bound = resolved_references(
        definition.compiler_id,
        ReferenceKind::VisibilityRequirement,
        definition.interface,
    );
    lemma_resolved(
        definition.compiler_id,
        ReferenceKind::VisibilityRequirement,
        definition.interface,
        reference,
    );
    if definition.trait_item is Some {
        let whole = reference_to(
            definitions,
            at,
            definition.trait_item->0,
            ReferenceKind::Interface,
        );
        lemma_both(seq![whole], bound, reference);
        lemma_one(whole, reference);
    }
    if held_by(definitions, at) is Some {
        let parent = held_by(definitions, at)->0;
        let whole = reference_to(
            definitions,
            at,
            definitions[parent].compiler_id,
            ReferenceKind::Interface,
        );
        let outer = resolved_references(
            definitions[parent].compiler_id,
            ReferenceKind::VisibilityRequirement,
            definition.interface,
        );
        lemma_resolved(
            definitions[parent].compiler_id,
            ReferenceKind::VisibilityRequirement,
            definition.interface,
            reference,
        );
        lemma_both(seq![whole], outer, reference);
        lemma_one(whole, reference);
        if definitions[parent].self_type is Some {
            lemma_one(
                reference_to(
                    definitions,
                    at,
                    definitions[parent].self_type->0,
                    ReferenceKind::Interface,
                ),
                reference,
            );
        }
    }
    let module = match module_around(definitions, at) {
        Some(module) => seq![
            reference_to(
                definitions,
                at,
                definitions[module].compiler_id,
                ReferenceKind::VisibilityParent,
            ),
        ],
        None => Seq::<FoundReferenceView>::empty(),
    };
    if module_around(definitions, at) is Some {
        lemma_one(
            reference_to(
                definitions,
                at,
                definitions[module_around(definitions, at)->0].compiler_id,
                ReferenceKind::VisibilityParent,
            ),
            reference,
        );
    }
    if data_type_around(definitions, at) is Some {
        lemma_pushed(
            module,
            reference_to(
                definitions,
                at,
                definitions[data_type_around(definitions, at)->0].compiler_id,
                ReferenceKind::Interface,
            ),
            reference,
        );
    }
}

/// Whether a reference is one that a definition makes, in its body or by what it shows.
pub open spec fn made_at(
    definitions: Seq<LocalDefinitionView>,
    at: int,
    reference: FoundReferenceView,
) -> bool {
    made_in_body(definitions, at, reference) || made_in_interface(definitions, at, reference)
}

/// The references of a crate are those that its bodies and its interfaces make, and no others.
pub proof fn law_references_are_made_in_bodies_and_interfaces(
    definitions: Seq<LocalDefinitionView>,
    reference: FoundReferenceView,
)
    ensures
        all_references(definitions).contains(reference) <==> exists|at: int|
            0 <= at < definitions.len() && #[trigger] made_at(definitions, at, reference),
{
    let count = definitions.len() as int;
    let f = |at: int| body_references(definitions, at);
    let g = |at: int| interface_references(definitions, at);
    lemma_both(flattened(count, f), flattened(count, g), reference);
    assert forall|at: int| 0 <= at < count implies (#[trigger] f(at)).contains(reference)
        == made_in_body(definitions, at, reference) by {
        if definitions[at].body is Some && nearest_emitted(definitions, at) is Some {
            lemma_resolved(
                definitions[nearest_emitted(definitions, at)->0].compiler_id,
                ReferenceKind::Body,
                definitions[at].body->0,
                reference,
            );
        }
    }
    assert forall|at: int| 0 <= at < count implies (#[trigger] g(at)).contains(reference)
        == made_in_interface(definitions, at, reference) by {
        lemma_interface(definitions, at, reference);
    }
    if flattened(count, f).contains(reference) {
        let at = lemma_flattened_member(count, f, reference);
        assert(made_at(definitions, at, reference));
    }
    if flattened(count, g).contains(reference) {
        let at = lemma_flattened_member(count, g, reference);
        assert(made_at(definitions, at, reference));
    }
    if exists|at: int|
        0 <= at < definitions.len() && #[trigger] made_at(definitions, at, reference) {
        let at = choose|at: int|
            0 <= at < definitions.len() && #[trigger] made_at(definitions, at, reference);
        if made_in_body(definitions, at, reference) {
            assert(f(at).contains(reference));
            lemma_flattened_kept(count, f, at, reference);
        } else {
            assert(g(at).contains(reference));
            lemma_flattened_kept(count, g, at, reference);
        }
    }
}

/// Different kinds of definitions are reported as different kinds, but that implementations are
/// reported alike, and the root module as the crate.
pub proof fn law_kinds_are_told_apart(a: DefKind, b: DefKind)
    ensures
        reported_kind(a, false) is Some && reported_kind(a, false) == reported_kind(b, false)
            ==> a == b || reported_kind(a, false) == Some(DefinitionKind::Implementation),
        reported_kind(a, false) == Some(DefinitionKind::Implementation) <==> a
            == DefKind::InherentImpl || a == DefKind::TraitImpl,
        reported_kind(DefKind::Mod, true) == Some(DefinitionKind::Crate),
        a != DefKind::Mod ==> reported_kind(a, true) == reported_kind(a, false),
        reported_kind(a, false) != Some(DefinitionKind::Crate),
{
}

/// The visibility of items of traits and their implementations, of variants and fields of enums,
/// and of the crate itself cannot be edited; that of items of types and of fields of structs can.
pub proof fn law_editable_visibilities(definitions: Seq<LocalDefinitionView>, at: int)
    ensures
        is_member(definitions[at].kind) ==> (is_editable(definitions, at) <==> held_by(
            definitions,
            at,
        ) is Some && definitions[held_by(definitions, at)->0].kind == DefKind::InherentImpl),
        definitions[at].kind == DefKind::Variant || definitions[at].kind == DefKind::Ctor
            || definitions[at].kind == DefKind::Macro || definitions[at].kind
            == DefKind::TraitImpl || definitions[at].kind == DefKind::InherentImpl
            ==> !is_editable(definitions, at),
        definitions[at].kind == DefKind::Mod ==> (is_editable(definitions, at) <==> at != 0),
        definitions[at].kind == DefKind::Field ==> (is_editable(definitions, at)
            <==> data_type_around(definitions, at) is Some && definitions[data_type_around(
            definitions,
            at,
        )->0].kind != DefKind::Enum),
        definitions[at].kind == DefKind::Struct || definitions[at].kind == DefKind::Enum
            || definitions[at].kind == DefKind::Trait || definitions[at].kind == DefKind::Fn
            || definitions[at].kind == DefKind::Const || definitions[at].kind == DefKind::Static
            || definitions[at].kind == DefKind::Use ==> is_editable(definitions, at),
{
}

/// Whether a root is of a definition, of a kind, for a reason.
pub open spec fn is_root(
    root: RootView,
    definition: CompilerDefId,
    kind: RootKind,
    reason: Seq<char>,
) -> bool {
    root.definition == definition && root.kind == kind && root.reason == reason && root.id.len() == 0
}

/// Whether a definition by itself is the reason for a root: the entry point of a test harness; code
/// of a trait or an implementation, which may run by dispatch; code that may be dead, or that has a
/// symbol; a public associated type; a procedural macro.
pub open spec fn rooted(
    definitions: Seq<LocalDefinitionView>,
    facts: CrateFacts,
    at: int,
    root: RootView,
) -> bool {
    let definition = definitions[at];
    let parent = held_by(definitions, at);
    ||| facts.test_harness && definition.kind == DefKind::Fn && parent == Some(0int)
        && definition.name == Some("main"@) && definition.location.origin
        == ExpansionOrigin::BuiltinDesugaring && is_root(
        root,
        definition.compiler_id,
        RootKind::EntryPoint,
        "rustc test harness entry point"@,
    )
    ||| definition.body is Some && (definition.kind == DefKind::AssocFn || definition.kind
        == DefKind::AssocConst) && parent is Some && (definitions[parent->0].kind == DefKind::Trait
        || definitions[parent->0].kind == DefKind::TraitImpl) && is_root(
        root,
        definition.compiler_id,
        RootKind::Conservative,
        "trait-associated code may execute through indirect dispatch"@,
    )
    ||| reported_kind(definition.kind, at == 0) is Some && definition.dead_code_allowed && is_root(
        root,
        definition.compiler_id,
        RootKind::Conservative,
        "dead_code is explicitly allowed for this definition"@,
    )
    ||| (definition.kind == DefKind::Fn || definition.kind == DefKind::AssocFn || definition.kind
        == DefKind::Static) && definition.retained_symbol && is_root(
        root,
        definition.compiler_id,
        RootKind::Conservative,
        "codegen attributes make this definition externally addressable or retained"@,
    )
    ||| definition.kind == DefKind::AssocTy && parent is Some && definitions[parent->0].kind
        == DefKind::InherentImpl && definition.visibility == NominalVisibility::Public
        && definition.externally_reachable && is_root(
        root,
        definition.compiler_id,
        RootKind::RequiredPublic,
        "public inherent associated types are conservatively retained"@,
    )
    ||| facts.proc_macro && definition.kind == DefKind::Macro && definition.visibility
        == NominalVisibility::Public && is_root(
        root,
        definition.compiler_id,
        RootKind::RequiredPublic,
        "rustc requires proc-macro entry points to remain public"@,
    )
    ||| (definition.kind == DefKind::Use || definition.kind == DefKind::ExternCrate)
        && definition.visibility == NominalVisibility::Public && definition.exported
        && module_around(definitions, at) is Some && is_root(
        root,
        definitions[module_around(definitions, at)->0].compiler_id,
        RootKind::RequiredPublic,
        "a public reexport requires its containing namespace to remain public"@,
    )
}

/// Whether the entry point of the crate is the reason for a root.
pub open spec fn entered(
    definitions: Seq<LocalDefinitionView>,
    facts: CrateFacts,
    root: RootView,
) -> bool {
    facts.entry is Some && emits(definitions, facts.entry->0) && is_root(
        root,
        facts.entry->0,
        RootKind::EntryPoint,
        "rustc entry point"@,
    )
}

/// A crate has a root for its entry point, and for every definition that is a reason for one by
/// itself. Every other root of it comes from exported macros, from types that implementations
/// expose, or from reexports.
pub proof fn law_roots_are_due(
    definitions: Seq<LocalDefinitionView>,
    facts: CrateFacts,
    bindings: Seq<VisibilityBinding>,
    references: Seq<FoundReferenceView>,
    root: RootView,
)
    ensures
        reference_roots(definitions, facts, bindings, references).contains(root) <==> {
            ||| entered(definitions, facts, root)
            ||| exists|at: int|
                0 <= at < definitions.len() && #[trigger] rooted(definitions, facts, at, root)
            ||| macro_roots(definitions, bindings).contains(root)
            ||| exposed_roots(definitions, references).contains(root)
            ||| reexport_roots(definitions, bindings).contains(root)
        },
{
    let count = definitions.len() as int;
    let entry = entry_roots(definitions, facts);
    let harness = harness_root(definitions, facts);
    let dispatch = dispatch_root(definitions);
    let attributes = |at: int| attribute_roots(definitions, at);
    let types = associated_type_root(definitions);
    let imports = import_module_root(definitions);
    let procedures = proc_macro_root(definitions, facts);
    let a = entry;
    let b = chosen(count, harness);
    let c = chosen(count, dispatch);
    let d = flattened(count, attributes);
    let e = macro_roots(definitions, bindings);
    let f = chosen(count, types);
    let g = exposed_roots(definitions, references);
    let h = reexport_roots(definitions, bindings);
    let i = chosen(count, imports);
    let j = chosen(count, procedures);
    lemma_both(a, b, root);
    lemma_both(a + b, c, root);
    lemma_both(a + b + c, d, root);
    lemma_both(a + b + c + d, e, root);
    lemma_both(a + b + c + d + e, f, root);
    lemma_both(a + b + c + d + e + f, g, root);
    lemma_both(a + b + c + d + e + f + g, h, root);
    lemma_both(a + b + c + d + e + f + g + h, i, root);
    lemma_both(a + b + c + d + e + f + g + h + i, j, root);
    lemma_chosen(count, harness, root);
    lemma_chosen(count, dispatch, root);
    lemma_chosen(count, types, root);
    lemma_chosen(count, imports, root);
    lemma_chosen(count, procedures, root);
    lemma_entry(definitions, facts, root);
    assert forall|at: int| 0 <= at < count implies (#[trigger] rooted(definitions, facts, at, root)
        <==> harness(at) == Some(root) || dispatch(at) == Some(root) || attributes(at).contains(
        root,
    ) || types(at) == Some(root) || imports(at) == Some(root) || procedures(at) == Some(root)) by {
        lemma_rooted(definitions, facts, at, root);
    }
    if b.contains(root) {
        let at = choose|at: int| 0 <= at < count && #[trigger] harness(at) == Some(root);
        assert(rooted(definitions, facts, at, root));
    }
    if c.contains(root) {
        let at = choose|at: int| 0 <= at < count && #[trigger] dispatch(at) == Some(root);
        assert(rooted(definitions, facts, at, root));
    }
    if d.contains(root) {
        let at = lemma_flattened_member(count, attributes, root);
        assert(rooted(definitions, facts, at, root));
    }
    if f.contains(root) {
        let at = choose|at: int| 0 <= at < count && #[trigger] types(at) == Some(root);
        assert(rooted(definitions, facts, at, root));
    }
    if i.contains(root) {
        let at = choose|at: int| 0 <= at < count && #[trigger] imports(at) == Some(root);
        assert(rooted(definitions, facts, at, root));
    }
    if j.contains(root) {
        let at = choose|at: int| 0 <= at < count && #[trigger] procedures(at) == Some(root);
        assert(rooted(definitions, facts, at, root));
    }
    if exists|at: int|
        0 <= at < definitions.len() && #[trigger] rooted(definitions, facts, at, root) {
        let at = choose|at: int|
            0 <= at < definitions.len() && #[trigger] rooted(definitions, facts, at, root);
        if attributes(at).contains(root) {
            lemma_flattened_kept(count, attributes, at, root);
        }
    }
}

proof fn lemma_entry(definitions: Seq<LocalDefinitionView>, facts: CrateFacts, root: RootView)
    ensures
        entry_roots(definitions, facts).contains(root) <==> entered(definitions, facts, root),
{
    if facts.entry is Some {
        lemma_same_root(root, facts.entry->0, RootKind::EntryPoint, "rustc entry point"@);
        lemma_one(
            root_of(
                facts.entry->0,
                RootKind::EntryPoint,
                "rustc entry point"@,
            ),
            root,
        );
    }
}

/// A root is given by its definition, kind and reason.
proof fn lemma_same_root(
    root: RootView,
    definition: CompilerDefId,
    kind: RootKind,
    reason: Seq<char>,
)
    ensures
        is_root(root, definition, kind, reason) <==> root == root_of(
            definition,
            kind,
            reason,
        ),
{
    if is_root(root, definition, kind, reason) {
        assert(root.id =~= Seq::<char>::empty());
    }
}

proof fn lemma_rooted(
    definitions: Seq<LocalDefinitionView>,
    facts: CrateFacts,
    at: int,
    root: RootView,
)
    ensures
        rooted(definitions, facts, at, root) <==> harness_root(definitions, facts)(at) == Some(root)
            || dispatch_root(definitions)(at) == Some(root) || attribute_roots(
            definitions,
            at,
        ).contains(root) || associated_type_root(definitions)(at) == Some(root)
            || import_module_root(definitions)(at) == Some(root) || proc_macro_root(
            definitions,
            facts,
        )(at) == Some(root),
{
    let id = definitions[at].compiler_id;
    lemma_same_root(root, id, RootKind::EntryPoint, "rustc test harness entry point"@);
    lemma_same_root(
        root,
        id,
        RootKind::Conservative,
        "trait-associated code may execute through indirect dispatch"@,
    );
    lemma_same_root(
        root,
        id,
        RootKind::Conservative,
        "dead_code is explicitly allowed for this definition"@,
    );
    lemma_same_root(
        root,
        id,
        RootKind::Conservative,
        "codegen attributes make this definition externally addressable or retained"@,
    );
    lemma_same_root(
        root,
        id,
        RootKind::RequiredPublic,
        "public inherent associated types are conservatively retained"@,
    );
    lemma_same_root(
        root,
        id,
        RootKind::RequiredPublic,
        "rustc requires proc-macro entry points to remain public"@,
    );
    if module_around(definitions, at) is Some {
        lemma_same_root(
            root,
            definitions[module_around(definitions, at)->0].compiler_id,
            RootKind::RequiredPublic,
            "a public reexport requires its containing namespace to remain public"@,
        );
    }
    let allowed = if definitions[at].dead_code_allowed {
        seq![
            root_of(
                id,
                RootKind::Conservative,
                "dead_code is explicitly allowed for this definition"@,
            ),
        ]
    } else {
        Seq::<RootView>::empty()
    };
    lemma_one(
        root_of(
            id,
            RootKind::Conservative,
            "dead_code is explicitly allowed for this definition"@,
        ),
        root,
    );
    lemma_pushed(
        allowed,
        root_of(
            id,
            RootKind::Conservative,
            "codegen attributes make this definition externally addressable or retained"@,
        ),
        root,
    );
}

/// Whether a definition with an identity is an item of an implementation of a trait that other crates
/// reach.
pub open spec fn is_reachable_item(
    definitions: Seq<LocalDefinitionView>,
    at: int,
    id: CompilerDefId,
) -> bool {
    &&& definitions[at].compiler_id == id
    &&& is_member(definitions[at].kind)
    &&& held_by(definitions, at) is Some
    &&& definitions[held_by(definitions, at)->0].kind == DefKind::TraitImpl
    &&& definitions[held_by(definitions, at)->0].externally_reachable
}

/// Whether an identity is that of an item of an implementation of a trait that other crates reach.
pub open spec fn implements(definitions: Seq<LocalDefinitionView>, id: CompilerDefId) -> bool {
    exists|at: int| 0 <= at < definitions.len() && #[trigger] is_reachable_item(definitions, at, id)
}

/// Whether a definition with an identity is a type alias.
pub open spec fn is_alias(
    definitions: Seq<LocalDefinitionView>,
    at: int,
    id: CompilerDefId,
) -> bool {
    definitions[at].compiler_id == id && definitions[at].kind == DefKind::TyAlias
}

/// Whether an identity is that of a type alias.
pub open spec fn renames(definitions: Seq<LocalDefinitionView>, id: CompilerDefId) -> bool {
    exists|at: int| 0 <= at < definitions.len() && #[trigger] is_alias(definitions, at, id)
}

/// Whether a set holds the types that reachable implementations of traits bind, and with an alias
/// what it stands for.
pub open spec fn holds_bound_types(
    definitions: Seq<LocalDefinitionView>,
    references: Seq<FoundReferenceView>,
    set: Set<CompilerDefId>,
) -> bool {
    forall|n: int|
        0 <= n < references.len() ==> {
            &&& (#[trigger] references[n]).kind == ReferenceKind::VisibilityRequirement
                && implements(definitions, references[n].from) ==> set.contains(references[n].to)
            &&& references[n].kind == ReferenceKind::Interface && renames(
                definitions,
                references[n].from,
            ) && set.contains(references[n].from) ==> set.contains(references[n].to)
        }
}

proof fn lemma_implements(definitions: Seq<LocalDefinitionView>, id: CompilerDefId)
    ensures
        implementing(definitions).contains(id) <==> implements(definitions, id),
{
    let count = definitions.len() as int;
    let f = implementing_at(definitions);
    lemma_chosen(count, f, id);
    lemma_same_items(chosen(count, f), id);
    if implementing(definitions).contains(id) {
        let at = choose|at: int| 0 <= at < count && #[trigger] f(at) == Some(id);
        assert(is_reachable_item(definitions, at, id));
    }
    if implements(definitions, id) {
        let at = choose|at: int|
            0 <= at < definitions.len() && #[trigger] is_reachable_item(definitions, at, id);
        assert(f(at) == Some(id));
    }
}

proof fn lemma_renames(definitions: Seq<LocalDefinitionView>, id: CompilerDefId)
    ensures
        aliases(definitions).contains(id) <==> renames(definitions, id),
{
    let count = definitions.len() as int;
    let f = alias_at(definitions);
    lemma_chosen(count, f, id);
    lemma_same_items(chosen(count, f), id);
    if aliases(definitions).contains(id) {
        let at = choose|at: int| 0 <= at < count && #[trigger] f(at) == Some(id);
        assert(is_alias(definitions, at, id));
    }
    if renames(definitions, id) {
        let at = choose|at: int|
            0 <= at < definitions.len() && #[trigger] is_alias(definitions, at, id);
        assert(f(at) == Some(id));
    }
}

proof fn lemma_same_items(list: Seq<CompilerDefId>, id: CompilerDefId)
    ensures
        image(list, |id: CompilerDefId| Some(id)).contains(id) <==> list.contains(id),
{
    if list.contains(id) {
        let i = choose|i: int| 0 <= i < list.len() && list[i] == id;
        assert(list[i] == id);
    }
}

proof fn lemma_exposed(
    definitions: Seq<LocalDefinitionView>,
    references: Seq<FoundReferenceView>,
    id: CompilerDefId,
)
    ensures
        exposed(definitions, references).contains(id) <==> forall|set: Set<CompilerDefId>| #[trigger]
            holds_bound_types(definitions, references, set) ==> set.contains(id),
{
    let starts = image(references, exposed_by(definitions));
    let steps = image(references, alias_step(definitions));
    let all = exposed(definitions, references);
    law_reach_is_closed(starts, steps);
    assert forall|n: int| 0 <= n < references.len() implies {
        &&& (#[trigger] references[n]).kind == ReferenceKind::VisibilityRequirement && implements(
            definitions,
            references[n].from,
        ) ==> all.contains(references[n].to)
        &&& references[n].kind == ReferenceKind::Interface && renames(
            definitions,
            references[n].from,
        ) && all.contains(references[n].from) ==> all.contains(references[n].to)
    } by {
        let reference = references[n];
        lemma_implements(definitions, reference.from);
        lemma_renames(definitions, reference.from);
        if reference.kind == ReferenceKind::VisibilityRequirement && implements(
            definitions,
            reference.from,
        ) {
            assert(exposed_by(definitions)(references[n]) == Some(reference.to));
            assert(starts.contains(reference.to));
        }
        if reference.kind == ReferenceKind::Interface && renames(definitions, reference.from) {
            assert(alias_step(definitions)(references[n]) == Some((reference.from, reference.to)));
            assert(steps.contains((reference.from, reference.to)));
        }
    }
    assert(holds_bound_types(definitions, references, all));
    assert forall|set: Set<CompilerDefId>| #[trigger]
        holds_bound_types(definitions, references, set) && all.contains(id) implies set.contains(
        id,
    ) by {
        assert forall|a: CompilerDefId| starts.contains(a) implies set.contains(a) by {
            let n = choose|n: int|
                0 <= n < references.len() && exposed_by(definitions)(#[trigger] references[n])
                    == Some(a);
            lemma_implements(definitions, references[n].from);
            lemma_renames(definitions, references[n].from);
        }
        assert forall|a: CompilerDefId, b: CompilerDefId|
            set.contains(a) && #[trigger] steps.contains((a, b)) implies set.contains(b) by {
            let n = choose|n: int|
                0 <= n < references.len() && alias_step(definitions)(#[trigger] references[n])
                    == Some((a, b));
            lemma_implements(definitions, references[n].from);
            lemma_renames(definitions, references[n].from);
        }
        law_reach_is_least(starts, steps, set);
    }
}

/// The types that have to be public for the sake of implementations are those reported ones, but
/// aliases, that no set can leave out that holds what reachable implementations of traits bind, and
/// with an alias what it stands for.
pub proof fn law_implementations_expose_types(
    definitions: Seq<LocalDefinitionView>,
    references: Seq<FoundReferenceView>,
    root: RootView,
)
    ensures
        exposed_roots(definitions, references).contains(root) <==> {
            &&& is_root(
                root,
                root.definition,
                RootKind::RequiredPublic,
                "reachable trait implementation exposes this type"@,
            )
            &&& emits(definitions, root.definition)
            &&& !renames(definitions, root.definition)
            &&& forall|set: Set<CompilerDefId>| #[trigger]
                holds_bound_types(definitions, references, set) ==> set.contains(root.definition)
        },
{
    let id = root.definition;
    let all = exposed(definitions, references);
    let f = exposed_root(definitions);
    lemma_exposed_finite(definitions, references);
    lemma_ascending_exists::<CompilerDefId>(all);
    let list = ascending::<CompilerDefId>(all);
    lemma_exposed(definitions, references, id);
    lemma_implements(definitions, id);
    lemma_renames(definitions, id);
    lemma_same_root(
        root,
        id,
        RootKind::RequiredPublic,
        "reachable trait implementation exposes this type"@,
    );
    if exposed_roots(definitions, references).contains(root) {
        let at = lemma_collected_member(list, f, root);
        assert(list[at] == id);
        assert(list.to_set().contains(id));
    }
    if all.contains(id) && f(id) == Some(root) {
        assert(list.to_set().contains(id));
        let at = choose|at: int| 0 <= at < list.len() && list[at] == id;
        lemma_kept(list, f, at);
    }
}

/// Whether a binding exports a macro of the crate by itself.
pub open spec fn exports_macro(
    definitions: Seq<LocalDefinitionView>,
    binding: VisibilityBinding,
    place: usize,
) -> bool {
    &&& local_place(definitions, binding.target) == Some(place)
    &&& binding.namespace == BindingNamespace::Macro
    &&& binding.exposure == BindingExposure::Direct
    &&& definitions[place as int].kind == DefKind::Macro
}

/// Whether a binding names a reported definition through a public import, but by no glob.
pub open spec fn reexports(
    definitions: Seq<LocalDefinitionView>,
    binding: VisibilityBinding,
    place: usize,
) -> bool {
    &&& local_place(definitions, binding.target) == Some(place)
    &&& reported_kind(definitions[place as int].kind, place == 0) is Some
    &&& binding.exposure != BindingExposure::Direct
    &&& binding.exposure != BindingExposure::GlobReexport
    &&& binding.exposing_import is Some
    &&& exists|at: int|
        0 <= at < definitions.len() && (#[trigger] definitions[at]).compiler_id
            == binding.exposing_import->0 && (definitions[at].kind == DefKind::Use
            || definitions[at].kind == DefKind::ExternCrate) && definitions[at].visibility
            == NominalVisibility::Public && definitions[at].exported
}

/// Exported macros and what public imports name have to be public; so have the modules around
/// exported macros. Nothing else has to be for their sake.
pub proof fn law_bindings_require_their_targets(
    definitions: Seq<LocalDefinitionView>,
    bindings: Seq<VisibilityBinding>,
    root: RootView,
)
    ensures
        macro_roots(definitions, bindings).contains(root) <==> exists|n: int, place: usize|
            0 <= n < bindings.len() && #[trigger] exports_macro(definitions, bindings[n], place) && {
                ||| is_root(
                    root,
                    definitions[place as int].compiler_id,
                    RootKind::RequiredPublic,
                    "a directly exported macro may be invoked by a selected consumer"@,
                )
                ||| module_around(definitions, place as int) is Some && is_root(
                    root,
                    definitions[module_around(definitions, place as int)->0].compiler_id,
                    RootKind::RequiredPublic,
                    "a directly exported macro requires its containing namespace"@,
                )
            },
        reexport_roots(definitions, bindings).contains(root) <==> exists|n: int, place: usize|
            0 <= n < bindings.len() && #[trigger] reexports(definitions, bindings[n], place)
                && is_root(
                root,
                definitions[place as int].compiler_id,
                RootKind::RequiredPublic,
                "a public reexport requires this local target to remain public"@,
            ),
{
    lemma_macro_roots(definitions, bindings, root);
    lemma_reexport_roots(definitions, bindings, root);
}

proof fn lemma_macro_roots(
    definitions: Seq<LocalDefinitionView>,
    bindings: Seq<VisibilityBinding>,
    root: RootView,
)
    ensures
        macro_roots(definitions, bindings).contains(root) <==> exists|n: int, place: usize|
            0 <= n < bindings.len() && #[trigger] exports_macro(definitions, bindings[n], place)
                && for_macro(definitions, place, root),
{
    let f = exported_macro(definitions);
    let set = image(bindings, f);
    lemma_image_finite(bindings, f);
    lemma_ascending_exists::<usize>(set);
    let macros = exported_macros(definitions, bindings);
    let g = |i: int| exported_macro_roots(definitions, macros[i]);
    if macro_roots(definitions, bindings).contains(root) {
        let i = lemma_flattened_member(macros.len() as int, g, root);
        let place = macros[i];
        assert(macros.to_set().contains(place));
        let n = choose|n: int| 0 <= n < bindings.len() && f(#[trigger] bindings[n]) == Some(place);
        lemma_for_macro(definitions, place, root);
        assert(exports_macro(definitions, bindings[n], place));
    }
    if exists|n: int, place: usize|
        0 <= n < bindings.len() && #[trigger] exports_macro(definitions, bindings[n], place)
            && for_macro(definitions, place, root) {
        let (n, place) = choose|n: int, place: usize|
            0 <= n < bindings.len() && #[trigger] exports_macro(definitions, bindings[n], place)
                && for_macro(definitions, place, root);
        assert(f(bindings[n]) == Some(place));
        assert(set.contains(place));
        assert(macros.to_set().contains(place));
        let i = choose|i: int| 0 <= i < macros.len() && macros[i] == place;
        lemma_for_macro(definitions, place, root);
        assert(g(i).contains(root));
        lemma_flattened_kept(macros.len() as int, g, i, root);
    }
}

/// Whether an exported macro is the reason for a root.
pub open spec fn for_macro(
    definitions: Seq<LocalDefinitionView>,
    place: usize,
    root: RootView,
) -> bool {
    ||| is_root(
        root,
        definitions[place as int].compiler_id,
        RootKind::RequiredPublic,
        "a directly exported macro may be invoked by a selected consumer"@,
    )
    ||| module_around(definitions, place as int) is Some && is_root(
        root,
        definitions[module_around(definitions, place as int)->0].compiler_id,
        RootKind::RequiredPublic,
        "a directly exported macro requires its containing namespace"@,
    )
}

proof fn lemma_for_macro(
    definitions: Seq<LocalDefinitionView>,
    place: usize,
    root: RootView,
)
    ensures
        exported_macro_roots(definitions, place).contains(root) <==> for_macro(
            definitions,
            place,
            root,
        ),
{
    let own = root_of(
        definitions[place as int].compiler_id,
        RootKind::RequiredPublic,
        "a directly exported macro may be invoked by a selected consumer"@,
    );
    lemma_one(own, root);
    lemma_same_root(
        root,
        definitions[place as int].compiler_id,
        RootKind::RequiredPublic,
        "a directly exported macro may be invoked by a selected consumer"@,
    );
    if module_around(definitions, place as int) is Some {
        let module = definitions[module_around(definitions, place as int)->0].compiler_id;
        lemma_same_root(
            root,
            module,
            RootKind::RequiredPublic,
            "a directly exported macro requires its containing namespace"@,
        );
        lemma_pushed(
            seq![own],
            root_of(
                module,
                RootKind::RequiredPublic,
                "a directly exported macro requires its containing namespace"@,
            ),
            root,
        );
    }
}

proof fn lemma_reexport_roots(
    definitions: Seq<LocalDefinitionView>,
    bindings: Seq<VisibilityBinding>,
    root: RootView,
)
    ensures
        reexport_roots(definitions, bindings).contains(root) <==> exists|n: int, place: usize|
            0 <= n < bindings.len() && #[trigger] reexports(definitions, bindings[n], place)
                && is_root(
                root,
                definitions[place as int].compiler_id,
                RootKind::RequiredPublic,
                "a public reexport requires this local target to remain public"@,
            ),
{
    let f = reexported(definitions);
    let set = image(bindings, f);
    lemma_image_finite(bindings, f);
    lemma_ascending_exists::<usize>(set);
    let places = ascending::<usize>(set);
    let g = |place: usize|
        Some(
            root_of(
                definitions[place as int].compiler_id,
                RootKind::RequiredPublic,
                "a public reexport requires this local target to remain public"@,
            ),
        );
    if reexport_roots(definitions, bindings).contains(root) {
        let i = lemma_collected_member(places, g, root);
        let place = places[i];
        assert(places.to_set().contains(place));
        let n = choose|n: int| 0 <= n < bindings.len() && f(#[trigger] bindings[n]) == Some(place);
        lemma_public_import(definitions, bindings[n].exposing_import->0);
        assert(reexports(definitions, bindings[n], place));
    }
    if exists|n: int, place: usize|
        0 <= n < bindings.len() && #[trigger] reexports(definitions, bindings[n], place) && is_root(
            root,
            definitions[place as int].compiler_id,
            RootKind::RequiredPublic,
            "a public reexport requires this local target to remain public"@,
        ) {
        let (n, place) = choose|n: int, place: usize|
            0 <= n < bindings.len() && #[trigger] reexports(definitions, bindings[n], place)
                && is_root(
                root,
                definitions[place as int].compiler_id,
                RootKind::RequiredPublic,
                "a public reexport requires this local target to remain public"@,
            );
        lemma_public_import(definitions, bindings[n].exposing_import->0);
        assert(f(bindings[n]) == Some(place));
        assert(set.contains(place));
        assert(places.to_set().contains(place));
        let i = choose|i: int| 0 <= i < places.len() && places[i] == place;
        lemma_same_root(
            root,
            definitions[place as int].compiler_id,
            RootKind::RequiredPublic,
            "a public reexport requires this local target to remain public"@,
        );
        lemma_kept(places, g, i);
    }
}

proof fn lemma_public_import(definitions: Seq<LocalDefinitionView>, id: CompilerDefId)
    ensures
        public_imports(definitions).contains(id) <==> exists|at: int|
            0 <= at < definitions.len() && (#[trigger] definitions[at]).compiler_id == id && (
            definitions[at].kind == DefKind::Use || definitions[at].kind == DefKind::ExternCrate)
                && definitions[at].visibility == NominalVisibility::Public
                && definitions[at].exported,
{
    let count = definitions.len() as int;
    let f = import_at(definitions);
    lemma_chosen(count, f, id);
    lemma_same_items(chosen(count, f), id);
    if public_imports(definitions).contains(id) {
        let at = choose|at: int| 0 <= at < count && #[trigger] f(at) == Some(id);
        assert(definitions[at].compiler_id == id);
    }
    if exists|at: int|
        0 <= at < definitions.len() && (#[trigger] definitions[at]).compiler_id == id && (
        definitions[at].kind == DefKind::Use || definitions[at].kind == DefKind::ExternCrate)
            && definitions[at].visibility == NominalVisibility::Public && definitions[at].exported {
        let at = choose|at: int|
            0 <= at < definitions.len() && (#[trigger] definitions[at]).compiler_id == id && (
            definitions[at].kind == DefKind::Use || definitions[at].kind == DefKind::ExternCrate)
                && definitions[at].visibility == NominalVisibility::Public
                && definitions[at].exported;
        assert(f(at) == Some(id));
    }
}

/// What is not reported itself belongs to the same reported definition as what holds it.
pub proof fn law_bodies_belong_to_reported_holders(
    definitions: Seq<LocalDefinitionView>,
    at: int,
)
    requires
        0 <= at < definitions.len(),
    ensures
        reported_kind(definitions[at].kind, at == 0) is Some ==> nearest_emitted(definitions, at)
            == Some(at),
        reported_kind(definitions[at].kind, at == 0) is None && definitions[at].parent is Some
            && definitions[at].parent->0 < at ==> nearest_emitted(definitions, at)
            == nearest_emitted(definitions, definitions[at].parent->0 as int),
        definitions[at].parent is None && reported_kind(definitions[at].kind, at == 0) is None
            ==> nearest_emitted(definitions, at) is None,
{
    reveal_with_fuel(nearest_emitted, 2);
}

/// The module around a definition is what holds it, or what holds the foreign module around it,
/// where that is a module other than the crate itself.
pub proof fn law_modules_hold_their_items(
    definitions: Seq<LocalDefinitionView>,
    at: int,
    parent: usize,
)
    requires
        0 <= parent < at < definitions.len(),
        definitions[at].parent == Some(parent),
    ensures
        definitions[parent as int].kind == DefKind::Mod && parent != 0 ==> module_around(
            definitions,
            at,
        ) == Some(parent as int),
        definitions[parent as int].kind == DefKind::ForeignMod ==> match module_around(
            definitions,
            at,
        ) {
            Some(module) => definitions[parent as int].parent == Some(module as usize) && 0 < module
                < parent && definitions[module].kind == DefKind::Mod,
            None => definitions[parent as int].parent is Some && 0 < definitions[parent as int].parent->0
                < parent ==> definitions[definitions[parent as int].parent->0 as int].kind
                != DefKind::Mod,
        },
        definitions[parent as int].kind != DefKind::Mod && definitions[parent as int].kind
            != DefKind::ForeignMod || parent == 0 && definitions[0].kind == DefKind::Mod
            ==> module_around(definitions, at) is None,
{
}

/// The type around a definition is what holds it, where that is a struct, union or enum, and else
/// the type around what holds it.
pub proof fn law_types_hold_their_parts(
    definitions: Seq<LocalDefinitionView>,
    at: int,
    parent: usize,
)
    requires
        0 <= parent < at < definitions.len(),
        definitions[at].parent == Some(parent),
    ensures
        definitions[parent as int].kind == DefKind::Struct || definitions[parent as int].kind
            == DefKind::Union || definitions[parent as int].kind == DefKind::Enum
            ==> data_type_around(definitions, at) == Some(parent as int),
        definitions[parent as int].kind != DefKind::Struct && definitions[parent as int].kind
            != DefKind::Union && definitions[parent as int].kind != DefKind::Enum
            ==> data_type_around(definitions, at) == data_type_around(definitions, parent as int),
{
    reveal_with_fuel(data_type_around, 2);
}

/// A definition with an identity of its own is found by it, and is reported where its kind is. An
/// identity that no definition has is not found.
pub proof fn law_definitions_are_found_by_identity(
    definitions: Seq<LocalDefinitionView>,
    at: int,
    id: CompilerDefId,
)
    requires
        0 <= at < definitions.len() <= usize::MAX,
    ensures
        definitions[at].compiler_id == id && (forall|other: int|
            0 <= other < definitions.len() && other != at ==> (
            #[trigger] definitions[other]).compiler_id != id) ==> local_place(definitions, id)
            == Some(at as usize) && (emits(definitions, id) <==> reported_kind(
            definitions[at].kind,
            at == 0,
        ) is Some),
        (forall|other: int|
            0 <= other < definitions.len() ==> (#[trigger] definitions[other]).compiler_id != id)
            ==> local_place(definitions, id) is None && !emits(definitions, id),
{
    let entries = identities(definitions);
    lemma_assembled(entries, id);
    if places_of(definitions).contains_key(id) {
        let i = choose|i: int|
            0 <= i < entries.len() && #[trigger] entries[i] == (id, places_of(definitions)[id]);
        assert(definitions[i].compiler_id == id);
    }
    assert(entries[at].0 == definitions[at].compiler_id);
}

/// A key has a value where an entry has it, and the value is that of an entry with it.
proof fn lemma_assembled<K, T>(entries: Seq<(K, T)>, key: K)
    ensures
        forall|i: int|
            0 <= i < entries.len() && (#[trigger] entries[i]).0 == key ==> assembled(
                entries,
            ).contains_key(key),
        assembled(entries).contains_key(key) ==> exists|i: int|
            0 <= i < entries.len() && #[trigger] entries[i] == (key, assembled(entries)[key]),
    decreases entries.len(),
{
    if entries.len() > 0 {
        let before = entries.drop_last();
        lemma_assembled(before, key);
        assert forall|i: int|
            0 <= i < entries.len() && (#[trigger] entries[i]).0 == key implies assembled(
            entries,
        ).contains_key(key) by {
            if i < before.len() {
                assert(before[i].0 == key);
            }
        }
        if assembled(entries).contains_key(key) {
            if entries.last().0 == key {
                assert(entries[entries.len() - 1] == (key, assembled(entries)[key]));
            } else {
                let i = choose|i: int|
                    0 <= i < before.len() && #[trigger] before[i] == (key, assembled(before)[key]);
                assert(entries[i] == (key, assembled(entries)[key]));
            }
        }
    }
}

/// What global assembly names is kept, where it is reported, and nothing else is kept for its sake.
pub proof fn law_assembly_keeps_what_it_names(
    definitions: Seq<LocalDefinitionView>,
    root: RootView,
)
    ensures
        all_assembly_roots(definitions).contains(root) <==> exists|at: int, n: int|
            0 <= at < definitions.len() && definitions[at].kind == DefKind::GlobalAsm
                && nearest_emitted(definitions, at) is Some && definitions[at].body is Some && 0
                <= n < (definitions[at].body->0).len() && emits(definitions, root.definition)
                && (#[trigger] (definitions[at].body->0)[n]).target == root.definition && is_root(
                root,
                root.definition,
                RootKind::Conservative,
                "global assembly retains this symbol"@,
            ),
{
    let count = definitions.len() as int;
    let f = |at: int| assembly_roots(definitions, at);
    let g = assembly_root(definitions);
    lemma_same_root(
        root,
        root.definition,
        RootKind::Conservative,
        "global assembly retains this symbol"@,
    );
    if all_assembly_roots(definitions).contains(root) {
        let at = lemma_flattened_member(count, f, root);
        let list = definitions[at].body->0;
        let n = lemma_collected_member(list, g, root);
        assert((definitions[at].body->0)[n].target == root.definition);
    }
    if exists|at: int, n: int|
        0 <= at < definitions.len() && definitions[at].kind == DefKind::GlobalAsm
            && nearest_emitted(definitions, at) is Some && definitions[at].body is Some && 0 <= n < (
        definitions[at].body->0).len() && emits(definitions, root.definition) && (
        #[trigger] (definitions[at].body->0)[n]).target == root.definition && is_root(
            root,
            root.definition,
            RootKind::Conservative,
            "global assembly retains this symbol"@,
        ) {
        let (at, n) = choose|at: int, n: int|
            0 <= at < definitions.len() && definitions[at].kind == DefKind::GlobalAsm
                && nearest_emitted(definitions, at) is Some && definitions[at].body is Some && 0
                <= n < (definitions[at].body->0).len() && emits(definitions, root.definition) && (
            #[trigger] (definitions[at].body->0)[n]).target == root.definition && is_root(
                root,
                root.definition,
                RootKind::Conservative,
                "global assembly retains this symbol"@,
            );
        lemma_kept(definitions[at].body->0, g, n);
        assert(f(at).contains(root));
        lemma_flattened_kept(count, f, at, root);
    }
}

/// Finitely many types are exposed.
proof fn lemma_exposed_finite(
    definitions: Seq<LocalDefinitionView>,
    references: Seq<FoundReferenceView>,
)
    ensures
        exposed(definitions, references).finite(),
{
    let starts = image(references, exposed_by(definitions));
    let steps = image(references, alias_step(definitions));
    let ends = steps.map(|step: (CompilerDefId, CompilerDefId)| step.1);
    lemma_image_finite(references, exposed_by(definitions));
    lemma_image_finite(references, alias_step(definitions));
    steps.lemma_map_finite(|step: (CompilerDefId, CompilerDefId)| step.1);
    vstd::set_lib::lemma_set_union_finite_iff(starts, ends);
    let closed = starts.union(ends);
    assert forall|a: CompilerDefId, b: CompilerDefId|
        closed.contains(a) && #[trigger] steps.contains((a, b)) implies closed.contains(b) by {
        let f = |step: (CompilerDefId, CompilerDefId)| step.1;
        assert(steps.map(f).contains(f((a, b))));
    }
    law_reach_is_least(starts, steps, closed);
    vstd::set_lib::lemma_set_subset_finite(closed, exposed(definitions, references));
}

} // verus!
