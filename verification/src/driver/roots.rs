//! Definitions that are used from outside of what is seen: the roots of reachability.

use vstd::prelude::*;

use crate::collections::{
    append_items, ascending, chosen, collect_items, collect_places, collect_set, collected,
    flatten_places, flattened, image, no_items, push_item, SortedMap, SortedSet,
};
use crate::compiler::reach::{reach, reachable};
use crate::driver::definitions::{
    associated, emits, emits_definition, emitted, enclosing_module, find_local, held_by,
    holder_kind, is_associated, is_emitted, local_parent, local_place, module_around, parent_kind,
    places_of, DefKind, LocalDefinition, LocalDefinitionView,
};
use crate::driver::references::{FoundReference, FoundReferenceView};
use crate::protocol::{
    CompilerDefId, ExpansionOrigin, FactId, NominalVisibility, ReferenceKind, Root, RootKind,
    RootView,
};
use crate::text::{no_text, same};

verus! {

/// The namespace of a name.
#[derive(Clone, Copy, Debug, PartialEq, Eq, Structural)]
pub enum BindingNamespace {
    Type,
    Value,
    Macro,
}

impl DeepView for BindingNamespace {
    type V = BindingNamespace;

    open spec fn deep_view(&self) -> BindingNamespace {
        *self
    }
}

/// How a name comes to be in a module.
#[derive(Clone, Copy, Debug, PartialEq, Eq, Structural)]
pub enum BindingExposure {
    Direct,
    SingleReexport,
    GlobReexport,
    ExternCrate,
    MacroUse,
    MacroExport,
}

impl DeepView for BindingExposure {
    type V = BindingExposure;

    open spec fn deep_view(&self) -> BindingExposure {
        *self
    }
}

/// A public name of a module that can be reached.
#[derive(Clone, Copy, Debug, PartialEq, Eq, Structural)]
pub struct VisibilityBinding {
    pub target: CompilerDefId,
    pub namespace: BindingNamespace,
    pub exposure: BindingExposure,
    pub exposing_import: Option<CompilerDefId>,
}

impl DeepView for VisibilityBinding {
    type V = VisibilityBinding;

    open spec fn deep_view(&self) -> VisibilityBinding {
        *self
    }
}

/// Through what a name was brought into a module.
#[derive(Clone, Copy, Debug, PartialEq, Eq, Structural)]
pub enum Reexport {
    Single(CompilerDefId),
    Glob(CompilerDefId),
    ExternCrate(CompilerDefId),
    MacroUse,
    MacroExport,
}

impl DeepView for Reexport {
    type V = Reexport;

    open spec fn deep_view(&self) -> Reexport {
        *self
    }
}

/// The definition that a name stands for.
#[derive(Clone, Copy, Debug, PartialEq, Eq, Structural)]
pub struct ChildTarget {
    pub kind: DefKind,
    pub id: CompilerDefId,
}

impl DeepView for ChildTarget {
    type V = ChildTarget;

    open spec fn deep_view(&self) -> ChildTarget {
        *self
    }
}

/// A name in a module.
#[derive(Clone, Copy, Debug, PartialEq, Eq, Structural)]
pub struct ModuleChild {
    /// The place of the module.
    pub module: usize,
    pub public: bool,
    /// What the name stands for, where that is a definition.
    pub target: Option<ChildTarget>,
    /// The import that brought the name here, where one did.
    pub reexport: Option<Reexport>,
}

impl DeepView for ModuleChild {
    type V = ModuleChild;

    open spec fn deep_view(&self) -> ModuleChild {
        *self
    }
}

/// What the compiler says of the crate as a whole.
#[derive(Clone, Copy, Debug, PartialEq, Eq, Structural)]
pub struct CrateFacts {
    /// The function that the program starts with.
    pub entry: Option<CompilerDefId>,
    /// Whether the crate is compiled as a test.
    pub test_harness: bool,
    /// Whether the crate holds procedural macros.
    pub proc_macro: bool,
}

impl DeepView for CrateFacts {
    type V = CrateFacts;

    open spec fn deep_view(&self) -> CrateFacts {
        *self
    }
}

/// A root that has no identity of its own yet.
pub open spec fn root_of(definition: CompilerDefId, kind: RootKind, reason: Seq<char>) -> RootView {
    RootView { id: Seq::empty(), definition, kind, reason }
}

/// Makes a root that has no identity of its own yet.
pub fn new_root(definition: CompilerDefId, kind: RootKind, reason: &str) -> (root: Root)
    ensures
        root.deep_view() == root_of(definition, kind, reason@),
{
    Root { id: FactId(no_text()), definition, kind, reason: reason.to_owned() }
}

/// The namespace of the names of definitions of a kind, where they have names.
pub open spec fn namespace_of(kind: DefKind) -> Option<BindingNamespace> {
    match kind {
        DefKind::Macro => Some(BindingNamespace::Macro),
        DefKind::Fn
        | DefKind::Const
        | DefKind::Static
        | DefKind::NestedStatic
        | DefKind::Ctor
        | DefKind::AssocFn
        | DefKind::AssocConst => Some(BindingNamespace::Value),
        DefKind::Mod
        | DefKind::Struct
        | DefKind::Union
        | DefKind::Enum
        | DefKind::Variant
        | DefKind::Trait
        | DefKind::TyAlias
        | DefKind::ForeignTy
        | DefKind::TraitAlias
        | DefKind::AssocTy
        | DefKind::ExternCrate
        | DefKind::ForeignMod
        | DefKind::OpaqueTy => Some(BindingNamespace::Type),
        _ => None,
    }
}

/// The namespace of the names of definitions of a kind, where they have names.
pub fn binding_namespace(kind: DefKind) -> (namespace: Option<BindingNamespace>)
    ensures
        namespace == namespace_of(kind),
{
    match kind {
        DefKind::Macro => Some(BindingNamespace::Macro),
        DefKind::Fn
        | DefKind::Const
        | DefKind::Static
        | DefKind::NestedStatic
        | DefKind::Ctor
        | DefKind::AssocFn
        | DefKind::AssocConst => Some(BindingNamespace::Value),
        DefKind::Mod
        | DefKind::Struct
        | DefKind::Union
        | DefKind::Enum
        | DefKind::Variant
        | DefKind::Trait
        | DefKind::TyAlias
        | DefKind::ForeignTy
        | DefKind::TraitAlias
        | DefKind::AssocTy
        | DefKind::ExternCrate
        | DefKind::ForeignMod
        | DefKind::OpaqueTy => Some(BindingNamespace::Type),
        _ => None,
    }
}

/// How a name comes to be in a module, and the import that does it.
pub open spec fn exposure_of(reexport: Option<Reexport>) -> (
    BindingExposure,
    Option<CompilerDefId>,
) {
    match reexport {
        None => (BindingExposure::Direct, None),
        Some(Reexport::Single(import)) => (BindingExposure::SingleReexport, Some(import)),
        Some(Reexport::Glob(import)) => (BindingExposure::GlobReexport, Some(import)),
        Some(Reexport::ExternCrate(import)) => (BindingExposure::ExternCrate, Some(import)),
        Some(Reexport::MacroUse) => (BindingExposure::MacroUse, None),
        Some(Reexport::MacroExport) => (BindingExposure::MacroExport, None),
    }
}

/// How a name comes to be in a module, and the import that does it.
pub fn binding_exposure(reexport: Option<Reexport>) -> (exposure: (
    BindingExposure,
    Option<CompilerDefId>,
))
    ensures
        exposure == exposure_of(reexport),
{
    match reexport {
        None => (BindingExposure::Direct, None),
        Some(Reexport::Single(import)) => (BindingExposure::SingleReexport, Some(import)),
        Some(Reexport::Glob(import)) => (BindingExposure::GlobReexport, Some(import)),
        Some(Reexport::ExternCrate(import)) => (BindingExposure::ExternCrate, Some(import)),
        Some(Reexport::MacroUse) => (BindingExposure::MacroUse, None),
        Some(Reexport::MacroExport) => (BindingExposure::MacroExport, None),
    }
}

/// Whether a definition is from another crate or can be reached from there.
pub open spec fn open_to_others(definitions: Seq<LocalDefinitionView>, id: CompilerDefId) -> bool {
    match local_place(definitions, id) {
        Some(place) => definitions[place as int].externally_reachable,
        None => true,
    }
}

/// Whether the definition at a place is a module that other crates can reach.
pub open spec fn is_open_module(definitions: Seq<LocalDefinitionView>, at: usize) -> bool {
    at < definitions.len() && definitions[at as int].kind == DefKind::Mod && (at == 0
        || definitions[at as int].externally_reachable)
}

/// Picks a name that other crates can reach.
pub open spec fn visible_binding(definitions: Seq<LocalDefinitionView>) -> spec_fn(
    ModuleChild,
) -> Option<VisibilityBinding> {
    |child: ModuleChild|
        match child.target {
            Some(target) => match namespace_of(target.kind) {
                Some(namespace) => if is_open_module(definitions, child.module) && child.public
                    && open_to_others(definitions, target.id) {
                    Some(
                        VisibilityBinding {
                            target: target.id,
                            namespace,
                            exposure: exposure_of(child.reexport).0,
                            exposing_import: exposure_of(child.reexport).1,
                        },
                    )
                } else {
                    None
                },
                None => None,
            },
            None => None,
        }
}

fn bind(
    definitions: &Vec<LocalDefinition>,
    places: &SortedMap<CompilerDefId, usize>,
    child: &ModuleChild,
) -> (binding: Option<VisibilityBinding>)
    requires
        places.wf(),
        places.deep_view() == places_of(definitions.deep_view()),
    ensures
        binding == visible_binding(definitions.deep_view())(*child),
{
    let ghost all = definitions.deep_view();
    proof {
        assert(all.len() == definitions.len());
    }
    if child.module >= definitions.len() {
        return None;
    }
    proof {
        assert(all[child.module as int] == definitions[child.module as int].deep_view());
    }
    let module = &definitions[child.module];
    if module.kind != DefKind::Mod || !(child.module == 0 || module.externally_reachable)
        || !child.public {
        return None;
    }
    let target = match child.target {
        Some(target) => target,
        None => return None,
    };
    if let Some(place) = find_local(definitions, places, target.id) {
        proof {
            assert(all[place as int] == definitions[place as int].deep_view());
        }
        if !definitions[place].externally_reachable {
            return None;
        }
    }
    match binding_namespace(target.kind) {
        Some(namespace) => {
            let exposure = binding_exposure(child.reexport);
            Some(
                VisibilityBinding {
                    target: target.id,
                    namespace,
                    exposure: exposure.0,
                    exposing_import: exposure.1,
                },
            )
        },
        None => None,
    }
}

/// Lists the names that other crates can reach.
pub fn collect_visibility_bindings(
    definitions: &Vec<LocalDefinition>,
    places: &SortedMap<CompilerDefId, usize>,
    children: &Vec<ModuleChild>,
) -> (bindings: Vec<VisibilityBinding>)
    requires
        places.wf(),
        places.deep_view() == places_of(definitions.deep_view()),
    ensures
        bindings.deep_view() == collected(
            children.deep_view(),
            visible_binding(definitions.deep_view()),
        ),
{
    let ghost f = visible_binding(definitions.deep_view());
    let pick = |child: &ModuleChild| -> (binding: Option<VisibilityBinding>)
        requires
            places.wf(),
            places.deep_view() == places_of(definitions.deep_view()),
        ensures
            binding.deep_view() == f(child.deep_view()),
    {
        bind(definitions, places, child)
    };
    collect_items(children, pick, Ghost(f))
}

/// The function that the program starts with.
pub open spec fn entry_roots(definitions: Seq<LocalDefinitionView>, facts: CrateFacts) -> Seq<
    RootView,
> {
    match facts.entry {
        Some(entry) => if emits(definitions, entry) {
            seq![root_of(entry, RootKind::EntryPoint, "rustc entry point"@)]
        } else {
            Seq::empty()
        },
        None => Seq::empty(),
    }
}

fn list_entry_roots(
    definitions: &Vec<LocalDefinition>,
    places: &SortedMap<CompilerDefId, usize>,
    facts: CrateFacts,
) -> (list: Vec<Root>)
    requires
        places.wf(),
        places.deep_view() == places_of(definitions.deep_view()),
    ensures
        list.deep_view() == entry_roots(definitions.deep_view(), facts),
{
    let mut list: Vec<Root> = no_items();
    if let Some(entry) = facts.entry {
        if emits_definition(definitions, places, entry) {
            push_item(&mut list, new_root(entry, RootKind::EntryPoint, "rustc entry point"));
            proof {
                assert(list.deep_view() =~= seq![
                    root_of(entry, RootKind::EntryPoint, "rustc entry point"@),
                ]);
            }
        }
    }
    list
}

/// Picks the function that a test harness starts with.
pub open spec fn harness_root(
    definitions: Seq<LocalDefinitionView>,
    facts: CrateFacts,
) -> spec_fn(int) -> Option<RootView> {
    |at: int|
        if facts.test_harness && definitions[at].kind == DefKind::Fn && held_by(definitions, at)
            == Some(0int) && definitions[at].name == Some("main"@)
            && definitions[at].location.origin == ExpansionOrigin::BuiltinDesugaring {
            Some(
                root_of(
                    definitions[at].compiler_id,
                    RootKind::EntryPoint,
                    "rustc test harness entry point"@,
                ),
            )
        } else {
            None
        }
}

fn pick_harness_root(definitions: &Vec<LocalDefinition>, facts: CrateFacts, at: usize) -> (root:
    Option<Root>)
    requires
        at < definitions.len(),
    ensures
        root.deep_view() == harness_root(definitions.deep_view(), facts)(at as int),
{
    proof {
        assert(definitions.deep_view()[at as int] == definitions[at as int].deep_view());
    }
    let in_crate = match local_parent(definitions, at) {
        Some(parent) => parent == 0,
        None => false,
    };
    let named_main = match &definitions[at].name {
        Some(name) => same(name.as_str(), "main"),
        None => false,
    };
    if facts.test_harness && definitions[at].kind == DefKind::Fn && in_crate && named_main
        && definitions[at].location.origin == ExpansionOrigin::BuiltinDesugaring {
        Some(
            new_root(
                definitions[at].compiler_id,
                RootKind::EntryPoint,
                "rustc test harness entry point",
            ),
        )
    } else {
        None
    }
}

/// Picks code that a trait leads to.
pub open spec fn dispatch_root(definitions: Seq<LocalDefinitionView>) -> spec_fn(int) -> Option<
    RootView,
> {
    |at: int|
        if definitions[at].body is Some && (definitions[at].kind == DefKind::AssocFn
            || definitions[at].kind == DefKind::AssocConst) && (holder_kind(definitions, at)
            == Some(DefKind::Trait) || holder_kind(definitions, at) == Some(DefKind::TraitImpl)) {
            Some(
                root_of(
                    definitions[at].compiler_id,
                    RootKind::Conservative,
                    "trait-associated code may execute through indirect dispatch"@,
                ),
            )
        } else {
            None
        }
}

fn pick_dispatch_root(definitions: &Vec<LocalDefinition>, at: usize) -> (root: Option<Root>)
    requires
        at < definitions.len(),
    ensures
        root.deep_view() == dispatch_root(definitions.deep_view())(at as int),
{
    proof {
        assert(definitions.deep_view()[at as int] == definitions[at as int].deep_view());
    }
    let kind = definitions[at].kind;
    let of_trait = match parent_kind(definitions, at) {
        Some(kind) => kind == DefKind::Trait || kind == DefKind::TraitImpl,
        None => false,
    };
    if definitions[at].body.is_some() && (kind == DefKind::AssocFn || kind == DefKind::AssocConst)
        && of_trait {
        Some(
            new_root(
                definitions[at].compiler_id,
                RootKind::Conservative,
                "trait-associated code may execute through indirect dispatch",
            ),
        )
    } else {
        None
    }
}

/// What keeps the definition at a place, by its own attributes.
pub open spec fn attribute_roots(definitions: Seq<LocalDefinitionView>, at: int) -> Seq<RootView> {
    let allowed = if definitions[at].dead_code_allowed {
        seq![
            root_of(
                definitions[at].compiler_id,
                RootKind::Conservative,
                "dead_code is explicitly allowed for this definition"@,
            ),
        ]
    } else {
        Seq::<RootView>::empty()
    };
    let has_symbol = definitions[at].kind == DefKind::Fn || definitions[at].kind
        == DefKind::AssocFn || definitions[at].kind == DefKind::Static;
    if !is_emitted(definitions, at) {
        Seq::empty()
    } else if has_symbol && definitions[at].retained_symbol {
        allowed.push(
            root_of(
                definitions[at].compiler_id,
                RootKind::Conservative,
                "codegen attributes make this definition externally addressable or retained"@,
            ),
        )
    } else {
        allowed
    }
}

fn list_attribute_roots(definitions: &Vec<LocalDefinition>, at: usize) -> (list: Vec<Root>)
    requires
        at < definitions.len(),
    ensures
        list.deep_view() == attribute_roots(definitions.deep_view(), at as int),
{
    proof {
        assert(definitions.deep_view()[at as int] == definitions[at as int].deep_view());
    }
    let mut list: Vec<Root> = no_items();
    if !emitted(definitions, at) {
        return list;
    }
    let id = definitions[at].compiler_id;
    if definitions[at].dead_code_allowed {
        push_item(
            &mut list,
            new_root(
                id,
                RootKind::Conservative,
                "dead_code is explicitly allowed for this definition",
            ),
        );
        proof {
            assert(list.deep_view() =~= seq![
                root_of(
                    id,
                    RootKind::Conservative,
                    "dead_code is explicitly allowed for this definition"@,
                ),
            ]);
        }
    }
    let kind = definitions[at].kind;
    if (kind == DefKind::Fn || kind == DefKind::AssocFn || kind == DefKind::Static)
        && definitions[at].retained_symbol {
        push_item(
            &mut list,
            new_root(
                id,
                RootKind::Conservative,
                "codegen attributes make this definition externally addressable or retained",
            ),
        );
    }
    list
}

/// Picks the place of a macro that is public where it is defined.
pub open spec fn exported_macro(definitions: Seq<LocalDefinitionView>) -> spec_fn(
    VisibilityBinding,
) -> Option<usize> {
    |binding: VisibilityBinding|
        match local_place(definitions, binding.target) {
            Some(place) => if binding.namespace == BindingNamespace::Macro && binding.exposure
                == BindingExposure::Direct && definitions[place as int].kind == DefKind::Macro {
                Some(place)
            } else {
                None
            },
            None => None,
        }
}

/// The macros that are public where they are defined, in order.
pub open spec fn exported_macros(
    definitions: Seq<LocalDefinitionView>,
    bindings: Seq<VisibilityBinding>,
) -> Seq<usize> {
    ascending::<usize>(image(bindings, exported_macro(definitions)))
}

/// A macro that is public where it is defined, and the module around it.
pub open spec fn exported_macro_roots(definitions: Seq<LocalDefinitionView>, at: usize) -> Seq<
    RootView,
> {
    let own = seq![
        root_of(
            definitions[at as int].compiler_id,
            RootKind::RequiredPublic,
            "a directly exported macro may be invoked by a selected consumer"@,
        ),
    ];
    match module_around(definitions, at as int) {
        Some(module) => own.push(
            root_of(
                definitions[module].compiler_id,
                RootKind::RequiredPublic,
                "a directly exported macro requires its containing namespace"@,
            ),
        ),
        None => own,
    }
}

fn list_exported_macro_roots(definitions: &Vec<LocalDefinition>, at: usize) -> (list: Vec<Root>)
    requires
        at < definitions.len(),
    ensures
        list.deep_view() == exported_macro_roots(definitions.deep_view(), at),
{
    let ghost all = definitions.deep_view();
    proof {
        assert(all[at as int] == definitions[at as int].deep_view());
    }
    let mut list: Vec<Root> = no_items();
    push_item(
        &mut list,
        new_root(
            definitions[at].compiler_id,
            RootKind::RequiredPublic,
            "a directly exported macro may be invoked by a selected consumer",
        ),
    );
    proof {
        assert(list.deep_view() =~= seq![
            root_of(
                all[at as int].compiler_id,
                RootKind::RequiredPublic,
                "a directly exported macro may be invoked by a selected consumer"@,
            ),
        ]);
    }
    if let Some(module) = enclosing_module(definitions, at) {
        proof {
            assert(all[module as int] == definitions[module as int].deep_view());
        }
        push_item(
            &mut list,
            new_root(
                definitions[module].compiler_id,
                RootKind::RequiredPublic,
                "a directly exported macro requires its containing namespace",
            ),
        );
    }
    list
}

/// All macros that are public where they are defined, and the modules around them.
pub open spec fn macro_roots(
    definitions: Seq<LocalDefinitionView>,
    bindings: Seq<VisibilityBinding>,
) -> Seq<RootView> {
    let macros = exported_macros(definitions, bindings);
    flattened(macros.len() as int, |i: int| exported_macro_roots(definitions, macros[i]))
}

fn list_macro_roots(
    definitions: &Vec<LocalDefinition>,
    places: &SortedMap<CompilerDefId, usize>,
    bindings: &Vec<VisibilityBinding>,
) -> (list: Vec<Root>)
    requires
        places.wf(),
        places.deep_view() == places_of(definitions.deep_view()),
    ensures
        list.deep_view() == macro_roots(definitions.deep_view(), bindings.deep_view()),
{
    let ghost all = definitions.deep_view();
    let ghost f = exported_macro(all);
    let pick = |binding: &VisibilityBinding| -> (place: Option<usize>)
        requires
            places.wf(),
            places.deep_view() == places_of(definitions.deep_view()),
        ensures
            place.deep_view() == f(binding.deep_view()),
    {
        pick_exported_macro(definitions, places, binding)
    };
    let macros = collect_set(bindings, pick, Ghost(f));
    proof {
        macros.lemma_seq();
        assert forall|i: int| 0 <= i < macros.seq().len() implies #[trigger] macros.seq()[i]
            < all.len() by {
            assert(macros.deep_view().contains(macros.seq()[i]));
            let found = macros.seq()[i];
            let s = bindings.deep_view();
            let j = choose|j: int| 0 <= j < s.len() && f(#[trigger] s[j]) == Some(found);
            crate::driver::definitions::lemma_places(all, s[j].target);
        }
    }
    let ghost order = macros.seq();
    let ghost g = |i: int| exported_macro_roots(all, order[i]);
    let expand = |i: usize| -> (list: Vec<Root>)
        requires
            macros.wf(),
            i < macros.seq().len(),
            forall|i: int|
                0 <= i < macros.seq().len() ==> #[trigger] macros.seq()[i] < definitions.len(),
        ensures
            list.deep_view() == g(i as int),
    {
        list_exported_macro_roots(definitions, *macros.get(i))
    };
    flatten_places(macros.len(), expand, Ghost(g))
}

fn pick_exported_macro(
    definitions: &Vec<LocalDefinition>,
    places: &SortedMap<CompilerDefId, usize>,
    binding: &VisibilityBinding,
) -> (place: Option<usize>)
    requires
        places.wf(),
        places.deep_view() == places_of(definitions.deep_view()),
    ensures
        place == exported_macro(definitions.deep_view())(*binding),
{
    match find_local(definitions, places, binding.target) {
        Some(place) => {
            proof {
                assert(definitions.deep_view()[place as int]
                    == definitions[place as int].deep_view());
            }
            if binding.namespace == BindingNamespace::Macro && binding.exposure
                == BindingExposure::Direct && definitions[place].kind == DefKind::Macro {
                Some(place)
            } else {
                None
            }
        },
        None => None,
    }
}

/// Picks a public associated type of an inherent implementation.
pub open spec fn associated_type_root(definitions: Seq<LocalDefinitionView>) -> spec_fn(
    int,
) -> Option<RootView> {
    |at: int|
        if definitions[at].kind == DefKind::AssocTy && holder_kind(definitions, at) == Some(
            DefKind::InherentImpl,
        ) && definitions[at].visibility == NominalVisibility::Public
            && definitions[at].externally_reachable {
            Some(
                root_of(
                    definitions[at].compiler_id,
                    RootKind::RequiredPublic,
                    "public inherent associated types are conservatively retained"@,
                ),
            )
        } else {
            None
        }
}

fn pick_associated_type_root(definitions: &Vec<LocalDefinition>, at: usize) -> (root: Option<Root>)
    requires
        at < definitions.len(),
    ensures
        root.deep_view() == associated_type_root(definitions.deep_view())(at as int),
{
    proof {
        assert(definitions.deep_view()[at as int] == definitions[at as int].deep_view());
    }
    let inherent = match parent_kind(definitions, at) {
        Some(kind) => kind == DefKind::InherentImpl,
        None => false,
    };
    if definitions[at].kind == DefKind::AssocTy && inherent && definitions[at].visibility
        == NominalVisibility::Public && definitions[at].externally_reachable {
        Some(
            new_root(
                definitions[at].compiler_id,
                RootKind::RequiredPublic,
                "public inherent associated types are conservatively retained",
            ),
        )
    } else {
        None
    }
}

/// Picks the identity of a type alias.
pub open spec fn alias_at(definitions: Seq<LocalDefinitionView>) -> spec_fn(int) -> Option<
    CompilerDefId,
> {
    |at: int|
        if definitions[at].kind == DefKind::TyAlias {
            Some(definitions[at].compiler_id)
        } else {
            None
        }
}

/// All type aliases.
pub open spec fn aliases(definitions: Seq<LocalDefinitionView>) -> Set<CompilerDefId> {
    image(
        chosen(definitions.len() as int, alias_at(definitions)),
        |id: CompilerDefId| Some(id),
    )
}

/// Picks the identity of an item of a trait implementation that other crates can reach.
pub open spec fn implementing_at(definitions: Seq<LocalDefinitionView>) -> spec_fn(int) -> Option<
    CompilerDefId,
> {
    |at: int|
        match held_by(definitions, at) {
            Some(parent) => if is_associated(definitions[at].kind) && definitions[parent].kind
                == DefKind::TraitImpl && definitions[parent].externally_reachable {
                Some(definitions[at].compiler_id)
            } else {
                None
            },
            None => None,
        }
}

/// All items of trait implementations that other crates can reach.
pub open spec fn implementing(definitions: Seq<LocalDefinitionView>) -> Set<CompilerDefId> {
    image(
        chosen(definitions.len() as int, implementing_at(definitions)),
        |id: CompilerDefId| Some(id),
    )
}

/// Picks what an item of a reachable trait implementation exposes.
pub open spec fn exposed_by(definitions: Seq<LocalDefinitionView>) -> spec_fn(
    FoundReferenceView,
) -> Option<CompilerDefId> {
    |reference: FoundReferenceView|
        if reference.kind == ReferenceKind::VisibilityRequirement && implementing(
            definitions,
        ).contains(reference.from) {
            Some(reference.to)
        } else {
            None
        }
}

/// Picks the step from a type alias to what its type names.
pub open spec fn alias_step(definitions: Seq<LocalDefinitionView>) -> spec_fn(
    FoundReferenceView,
) -> Option<(CompilerDefId, CompilerDefId)> {
    |reference: FoundReferenceView|
        if reference.kind == ReferenceKind::Interface && aliases(definitions).contains(
            reference.from,
        ) {
            Some((reference.from, reference.to))
        } else {
            None
        }
}

/// All that reachable trait implementations expose, also behind type aliases.
pub open spec fn exposed(
    definitions: Seq<LocalDefinitionView>,
    references: Seq<FoundReferenceView>,
) -> Set<CompilerDefId> {
    reach(
        image(references, exposed_by(definitions)),
        image(references, alias_step(definitions)),
    )
}

/// Picks what a reachable trait implementation exposes and is no type alias.
pub open spec fn exposed_root(definitions: Seq<LocalDefinitionView>) -> spec_fn(
    CompilerDefId,
) -> Option<RootView> {
    |id: CompilerDefId|
        if !aliases(definitions).contains(id) && emits(definitions, id) {
            Some(
                root_of(
                    id,
                    RootKind::RequiredPublic,
                    "reachable trait implementation exposes this type"@,
                ),
            )
        } else {
            None
        }
}

/// All that reachable trait implementations expose and is no type alias.
pub open spec fn exposed_roots(
    definitions: Seq<LocalDefinitionView>,
    references: Seq<FoundReferenceView>,
) -> Seq<RootView> {
    collected(
        ascending::<CompilerDefId>(exposed(definitions, references)),
        exposed_root(definitions),
    )
}

fn gather(ids: &Vec<CompilerDefId>) -> (set: SortedSet<CompilerDefId>)
    ensures
        set.wf(),
        set.deep_view() == image(ids.deep_view(), |id: CompilerDefId| Some(id)),
{
    let ghost f = |id: CompilerDefId| Some(id);
    let pick = |id: &CompilerDefId| -> (picked: Option<CompilerDefId>)
        ensures
            picked.deep_view() == f(id.deep_view()),
    {
        Some(*id)
    };
    collect_set(ids, pick, Ghost(f))
}

fn list_aliases(definitions: &Vec<LocalDefinition>) -> (set: SortedSet<CompilerDefId>)
    ensures
        set.wf(),
        set.deep_view() == aliases(definitions.deep_view()),
{
    let ghost f = alias_at(definitions.deep_view());
    let pick = |at: usize| -> (id: Option<CompilerDefId>)
        requires
            at < definitions.len(),
        ensures
            id.deep_view() == f(at as int),
    {
        proof {
            assert(definitions.deep_view()[at as int] == definitions[at as int].deep_view());
        }
        if definitions[at].kind == DefKind::TyAlias {
            Some(definitions[at].compiler_id)
        } else {
            None
        }
    };
    gather(&collect_places(definitions.len(), pick, Ghost(f)))
}

fn list_implementing(definitions: &Vec<LocalDefinition>) -> (set: SortedSet<CompilerDefId>)
    ensures
        set.wf(),
        set.deep_view() == implementing(definitions.deep_view()),
{
    let ghost f = implementing_at(definitions.deep_view());
    let pick = |at: usize| -> (id: Option<CompilerDefId>)
        requires
            at < definitions.len(),
        ensures
            id.deep_view() == f(at as int),
    {
        pick_implementing(definitions, at)
    };
    gather(&collect_places(definitions.len(), pick, Ghost(f)))
}

fn pick_implementing(definitions: &Vec<LocalDefinition>, at: usize) -> (id: Option<CompilerDefId>)
    requires
        at < definitions.len(),
    ensures
        id == implementing_at(definitions.deep_view())(at as int),
{
    let ghost all = definitions.deep_view();
    proof {
        assert(all[at as int] == definitions[at as int].deep_view());
    }
    match local_parent(definitions, at) {
        Some(parent) => {
            proof {
                assert(all[parent as int] == definitions[parent as int].deep_view());
            }
            if associated(definitions[at].kind) && definitions[parent].kind == DefKind::TraitImpl
                && definitions[parent].externally_reachable {
                Some(definitions[at].compiler_id)
            } else {
                None
            }
        },
        None => None,
    }
}

fn list_exposed_roots(
    definitions: &Vec<LocalDefinition>,
    places: &SortedMap<CompilerDefId, usize>,
    references: &Vec<FoundReference>,
) -> (list: Vec<Root>)
    requires
        places.wf(),
        places.deep_view() == places_of(definitions.deep_view()),
    ensures
        list.deep_view() == exposed_roots(definitions.deep_view(), references.deep_view()),
{
    let ghost all = definitions.deep_view();
    let alias_set = list_aliases(definitions);
    let implementing_set = list_implementing(definitions);
    let ghost f = exposed_by(all);
    let pick_exposed = |reference: &FoundReference| -> (id: Option<CompilerDefId>)
        requires
            implementing_set.wf(),
            implementing_set.deep_view() == implementing(definitions.deep_view()),
        ensures
            id.deep_view() == f(reference.deep_view()),
    {
        if reference.kind == ReferenceKind::VisibilityRequirement && implementing_set.contains(
            &reference.from,
        ) {
            Some(reference.to)
        } else {
            None
        }
    };
    let ghost g = alias_step(all);
    let pick_step = |reference: &FoundReference| -> (step: Option<(CompilerDefId, CompilerDefId)>)
        requires
            alias_set.wf(),
            alias_set.deep_view() == aliases(definitions.deep_view()),
        ensures
            step.deep_view() == g(reference.deep_view()),
    {
        if reference.kind == ReferenceKind::Interface && alias_set.contains(&reference.from) {
            Some((reference.from, reference.to))
        } else {
            None
        }
    };
    let pending = collect_set(references, pick_exposed, Ghost(f));
    let steps = collect_set(references, pick_step, Ghost(g));
    let found = reachable(&pending, &steps);
    proof {
        found.lemma_seq();
    }
    let ids = found.into_vec();
    let ghost h = exposed_root(all);
    let pick_root = |id: &CompilerDefId| -> (root: Option<Root>)
        requires
            alias_set.wf(),
            alias_set.deep_view() == aliases(definitions.deep_view()),
            places.wf(),
            places.deep_view() == places_of(definitions.deep_view()),
        ensures
            root.deep_view() == h(id.deep_view()),
    {
        if !alias_set.contains(id) && emits_definition(definitions, places, *id) {
            Some(
                new_root(
                    *id,
                    RootKind::RequiredPublic,
                    "reachable trait implementation exposes this type",
                ),
            )
        } else {
            None
        }
    };
    collect_items(&ids, pick_root, Ghost(h))
}

/// Whether the definition at a place is an import that other crates see.
pub open spec fn is_public_import(definitions: Seq<LocalDefinitionView>, at: int) -> bool {
    (definitions[at].kind == DefKind::Use || definitions[at].kind == DefKind::ExternCrate)
        && definitions[at].visibility == NominalVisibility::Public && definitions[at].exported
}

fn public_import(definitions: &Vec<LocalDefinition>, at: usize) -> (result: bool)
    requires
        at < definitions.len(),
    ensures
        result == is_public_import(definitions.deep_view(), at as int),
{
    proof {
        assert(definitions.deep_view()[at as int] == definitions[at as int].deep_view());
    }
    let kind = definitions[at].kind;
    (kind == DefKind::Use || kind == DefKind::ExternCrate) && definitions[at].visibility
        == NominalVisibility::Public && definitions[at].exported
}

/// Picks the identity of an import that other crates see.
pub open spec fn import_at(definitions: Seq<LocalDefinitionView>) -> spec_fn(int) -> Option<
    CompilerDefId,
> {
    |at: int|
        if is_public_import(definitions, at) {
            Some(definitions[at].compiler_id)
        } else {
            None
        }
}

/// All imports that other crates see.
pub open spec fn public_imports(definitions: Seq<LocalDefinitionView>) -> Set<CompilerDefId> {
    image(
        chosen(definitions.len() as int, import_at(definitions)),
        |id: CompilerDefId| Some(id),
    )
}

/// Picks the place of a definition that a public import brings to other crates.
pub open spec fn reexported(definitions: Seq<LocalDefinitionView>) -> spec_fn(
    VisibilityBinding,
) -> Option<usize> {
    |binding: VisibilityBinding|
        match (binding.exposing_import, local_place(definitions, binding.target)) {
            (Some(import), Some(place)) => if public_imports(definitions).contains(import)
                && binding.exposure != BindingExposure::Direct && binding.exposure
                != BindingExposure::GlobReexport && is_emitted(definitions, place as int) {
                Some(place)
            } else {
                None
            },
            _ => None,
        }
}

/// All definitions that public imports bring to other crates.
pub open spec fn reexport_roots(
    definitions: Seq<LocalDefinitionView>,
    bindings: Seq<VisibilityBinding>,
) -> Seq<RootView> {
    collected(
        ascending::<usize>(image(bindings, reexported(definitions))),
        |place: usize|
            Some(
                root_of(
                    definitions[place as int].compiler_id,
                    RootKind::RequiredPublic,
                    "a public reexport requires this local target to remain public"@,
                ),
            ),
    )
}

fn list_public_imports(definitions: &Vec<LocalDefinition>) -> (set: SortedSet<CompilerDefId>)
    ensures
        set.wf(),
        set.deep_view() == public_imports(definitions.deep_view()),
{
    let ghost f = import_at(definitions.deep_view());
    let pick = |at: usize| -> (id: Option<CompilerDefId>)
        requires
            at < definitions.len(),
        ensures
            id.deep_view() == f(at as int),
    {
        proof {
            assert(definitions.deep_view()[at as int] == definitions[at as int].deep_view());
        }
        if public_import(definitions, at) {
            Some(definitions[at].compiler_id)
        } else {
            None
        }
    };
    gather(&collect_places(definitions.len(), pick, Ghost(f)))
}

fn pick_reexported(
    definitions: &Vec<LocalDefinition>,
    places: &SortedMap<CompilerDefId, usize>,
    imports: &SortedSet<CompilerDefId>,
    binding: &VisibilityBinding,
) -> (place: Option<usize>)
    requires
        places.wf(),
        places.deep_view() == places_of(definitions.deep_view()),
        imports.wf(),
        imports.deep_view() == public_imports(definitions.deep_view()),
    ensures
        place == reexported(definitions.deep_view())(*binding),
{
    match (binding.exposing_import, find_local(definitions, places, binding.target)) {
        (Some(import), Some(place)) => if imports.contains(&import) && binding.exposure
            != BindingExposure::Direct && binding.exposure != BindingExposure::GlobReexport
            && emitted(definitions, place) {
            Some(place)
        } else {
            None
        },
        _ => None,
    }
}

fn list_reexport_roots(
    definitions: &Vec<LocalDefinition>,
    places: &SortedMap<CompilerDefId, usize>,
    bindings: &Vec<VisibilityBinding>,
) -> (list: Vec<Root>)
    requires
        places.wf(),
        places.deep_view() == places_of(definitions.deep_view()),
    ensures
        list.deep_view() == reexport_roots(definitions.deep_view(), bindings.deep_view()),
{
    let ghost all = definitions.deep_view();
    let imports = list_public_imports(definitions);
    let ghost f = reexported(all);
    let pick = |binding: &VisibilityBinding| -> (place: Option<usize>)
        requires
            places.wf(),
            places.deep_view() == places_of(definitions.deep_view()),
            imports.wf(),
            imports.deep_view() == public_imports(definitions.deep_view()),
        ensures
            place.deep_view() == f(binding.deep_view()),
    {
        pick_reexported(definitions, places, &imports, binding)
    };
    let targets = collect_set(bindings, pick, Ghost(f));
    let ghost order = targets.seq();
    let ghost g = |place: usize|
        Some(
            root_of(
                all[place as int].compiler_id,
                RootKind::RequiredPublic,
                "a public reexport requires this local target to remain public"@,
            ),
        );
    proof {
        targets.lemma_seq();
        assert(all.len() == definitions.len());
        assert forall|i: int| 0 <= i < order.len() implies #[trigger] order[i] < all.len() by {
            assert(targets.deep_view().contains(order[i]));
            let found = order[i];
            let s = bindings.deep_view();
            let j = choose|j: int| 0 <= j < s.len() && f(#[trigger] s[j]) == Some(found);
            crate::driver::definitions::lemma_places(all, s[j].target);
        }
    }
    let mut list: Vec<Root> = no_items();
    let mut index: usize = 0;
    proof {
        assert(order.take(0) =~= Seq::<usize>::empty());
    }
    while index < targets.len()
        invariant
            all == definitions.deep_view(),
            targets.wf(),
            order == targets.seq(),
            g == |place: usize|
                Some(
                    root_of(
                        all[place as int].compiler_id,
                        RootKind::RequiredPublic,
                        "a public reexport requires this local target to remain public"@,
                    ),
                ),
            forall|i: int| 0 <= i < order.len() ==> #[trigger] order[i] < all.len(),
            index <= order.len(),
            list.deep_view() == collected(order.take(index as int), g),
        decreases order.len() - index,
    {
        let place: usize = *targets.get(index);
        proof {
            assert(order[index as int] == place);
            assert(all[place as int] == definitions[place as int].deep_view());
            crate::collections::lemma_collected_step(order, g, index as int);
        }
        push_item(
            &mut list,
            new_root(
                definitions[place].compiler_id,
                RootKind::RequiredPublic,
                "a public reexport requires this local target to remain public",
            ),
        );
        index = index + 1;
    }
    proof {
        assert(order.take(order.len() as int) =~= order);
    }
    list
}

/// Picks the module around an import that other crates see.
pub open spec fn import_module_root(definitions: Seq<LocalDefinitionView>) -> spec_fn(
    int,
) -> Option<RootView> {
    |at: int|
        match module_around(definitions, at) {
            Some(module) => if is_public_import(definitions, at) {
                Some(
                    root_of(
                        definitions[module].compiler_id,
                        RootKind::RequiredPublic,
                        "a public reexport requires its containing namespace to remain public"@,
                    ),
                )
            } else {
                None
            },
            None => None,
        }
}

fn pick_import_module_root(definitions: &Vec<LocalDefinition>, at: usize) -> (root: Option<Root>)
    requires
        at < definitions.len(),
    ensures
        root.deep_view() == import_module_root(definitions.deep_view())(at as int),
{
    match enclosing_module(definitions, at) {
        Some(module) => {
            proof {
                assert(definitions.deep_view()[module as int]
                    == definitions[module as int].deep_view());
            }
            if public_import(definitions, at) {
                Some(
                    new_root(
                        definitions[module].compiler_id,
                        RootKind::RequiredPublic,
                        "a public reexport requires its containing namespace to remain public",
                    ),
                )
            } else {
                None
            }
        },
        None => None,
    }
}

/// Picks a procedural macro.
pub open spec fn proc_macro_root(
    definitions: Seq<LocalDefinitionView>,
    facts: CrateFacts,
) -> spec_fn(int) -> Option<RootView> {
    |at: int|
        if facts.proc_macro && definitions[at].kind == DefKind::Macro && definitions[at].visibility
            == NominalVisibility::Public {
            Some(
                root_of(
                    definitions[at].compiler_id,
                    RootKind::RequiredPublic,
                    "rustc requires proc-macro entry points to remain public"@,
                ),
            )
        } else {
            None
        }
}

fn pick_proc_macro_root(definitions: &Vec<LocalDefinition>, facts: CrateFacts, at: usize) -> (root:
    Option<Root>)
    requires
        at < definitions.len(),
    ensures
        root.deep_view() == proc_macro_root(definitions.deep_view(), facts)(at as int),
{
    proof {
        assert(definitions.deep_view()[at as int] == definitions[at as int].deep_view());
    }
    if facts.proc_macro && definitions[at].kind == DefKind::Macro && definitions[at].visibility
        == NominalVisibility::Public {
        Some(
            new_root(
                definitions[at].compiler_id,
                RootKind::RequiredPublic,
                "rustc requires proc-macro entry points to remain public",
            ),
        )
    } else {
        None
    }
}

/// All definitions that are used from outside of what is seen.
pub open spec fn reference_roots(
    definitions: Seq<LocalDefinitionView>,
    facts: CrateFacts,
    bindings: Seq<VisibilityBinding>,
    references: Seq<FoundReferenceView>,
) -> Seq<RootView> {
    let count = definitions.len() as int;
    entry_roots(definitions, facts) + chosen(count, harness_root(definitions, facts)) + chosen(
        count,
        dispatch_root(definitions),
    ) + flattened(count, |at: int| attribute_roots(definitions, at)) + macro_roots(
        definitions,
        bindings,
    ) + chosen(count, associated_type_root(definitions)) + exposed_roots(definitions, references)
        + reexport_roots(definitions, bindings) + chosen(count, import_module_root(definitions))
        + chosen(count, proc_macro_root(definitions, facts))
}

/// Lists all definitions that are used from outside of what is seen.
pub fn collect_reference_roots(
    definitions: &Vec<LocalDefinition>,
    places: &SortedMap<CompilerDefId, usize>,
    facts: CrateFacts,
    bindings: &Vec<VisibilityBinding>,
    references: &Vec<FoundReference>,
) -> (roots: Vec<Root>)
    requires
        places.wf(),
        places.deep_view() == places_of(definitions.deep_view()),
    ensures
        roots.deep_view() == reference_roots(
            definitions.deep_view(),
            facts,
            bindings.deep_view(),
            references.deep_view(),
        ),
{
    let ghost all = definitions.deep_view();
    let ghost harness = harness_root(all, facts);
    let ghost dispatch = dispatch_root(all);
    let ghost attributes = |at: int| attribute_roots(all, at);
    let ghost associated_type = associated_type_root(all);
    let ghost import_module = import_module_root(all);
    let ghost proc_macros = proc_macro_root(all, facts);
    let pick_harness = |at: usize| -> (root: Option<Root>)
        requires
            at < definitions.len(),
        ensures
            root.deep_view() == harness(at as int),
    {
        pick_harness_root(definitions, facts, at)
    };
    let pick_dispatch = |at: usize| -> (root: Option<Root>)
        requires
            at < definitions.len(),
        ensures
            root.deep_view() == dispatch(at as int),
    {
        pick_dispatch_root(definitions, at)
    };
    let pick_attributes = |at: usize| -> (list: Vec<Root>)
        requires
            at < definitions.len(),
        ensures
            list.deep_view() == attributes(at as int),
    {
        list_attribute_roots(definitions, at)
    };
    let pick_associated_type = |at: usize| -> (root: Option<Root>)
        requires
            at < definitions.len(),
        ensures
            root.deep_view() == associated_type(at as int),
    {
        pick_associated_type_root(definitions, at)
    };
    let pick_import_module = |at: usize| -> (root: Option<Root>)
        requires
            at < definitions.len(),
        ensures
            root.deep_view() == import_module(at as int),
    {
        pick_import_module_root(definitions, at)
    };
    let pick_proc_macro = |at: usize| -> (root: Option<Root>)
        requires
            at < definitions.len(),
        ensures
            root.deep_view() == proc_macros(at as int),
    {
        pick_proc_macro_root(definitions, facts, at)
    };
    let count: usize = definitions.len();
    let mut roots = list_entry_roots(definitions, places, facts);
    append_items(&mut roots, collect_places(count, pick_harness, Ghost(harness)));
    append_items(&mut roots, collect_places(count, pick_dispatch, Ghost(dispatch)));
    append_items(&mut roots, flatten_places(count, pick_attributes, Ghost(attributes)));
    append_items(&mut roots, list_macro_roots(definitions, places, bindings));
    append_items(&mut roots, collect_places(count, pick_associated_type, Ghost(associated_type)));
    append_items(&mut roots, list_exposed_roots(definitions, places, references));
    append_items(&mut roots, list_reexport_roots(definitions, places, bindings));
    append_items(&mut roots, collect_places(count, pick_import_module, Ghost(import_module)));
    append_items(&mut roots, collect_places(count, pick_proc_macro, Ghost(proc_macros)));
    roots
}

} // verus!
