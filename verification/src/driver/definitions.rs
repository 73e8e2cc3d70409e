//! Definitions of the crate that is compiled, and how they are held by each other.

use vstd::prelude::*;

use crate::collections::{assemble, assembled, SortedMap};
use crate::order::Ordered;
use crate::protocol::{
    CompilerDefId, DefinitionKind, ExpansionOrigin, NominalVisibility, SourceFile, SourceFileView,
    SourceSpan, SourceSpanView,
};

verus! {

/// What the compiler calls a definition.
#[derive(Clone, Copy, Debug, PartialEq, Eq, Structural)]
pub enum DefKind {
    Mod,
    Struct,
    Union,
    Enum,
    Variant,
    Trait,
    TyAlias,
    ForeignTy,
    TraitAlias,
    AssocTy,
    Fn,
    Const,
    Static,
    NestedStatic,
    Ctor,
    AssocFn,
    AssocConst,
    Macro,
    ExternCrate,
    Use,
    ForeignMod,
    OpaqueTy,
    Field,
    InherentImpl,
    TraitImpl,
    TyParam,
    ConstParam,
    LifetimeParam,
    AnonConst,
    GlobalAsm,
    Closure,
    SyntheticCoroutineBody,
    InlineConst,
    TestBinderConstraints,
}

impl DeepView for DefKind {
    type V = DefKind;

    open spec fn deep_view(&self) -> DefKind {
        *self
    }
}

/// A place in a source file, with the file.
#[derive(Debug, PartialEq, Eq)]
pub struct LocatedSpan {
    pub source: SourceFile,
    pub span: SourceSpan,
}

/// The model of [`LocatedSpan`].
#[verifier::ext_equal]
pub struct LocatedSpanView {
    pub source: SourceFileView,
    pub span: SourceSpanView,
}

impl DeepView for LocatedSpan {
    type V = LocatedSpanView;

    open spec fn deep_view(&self) -> LocatedSpanView {
        LocatedSpanView {
            source: self.source.deep_view(),
            span: self.span.deep_view(),
        }
    }
}

impl Clone for LocatedSpan {
    fn clone(&self) -> (copy: Self)
        ensures
            copy.deep_view() == self.deep_view(),
    {
        let copy = LocatedSpan {
            source: self.source.clone(),
            span: self.span.clone(),
        };
        proof {
            assert(copy.source.deep_view() =~= self.source.deep_view());
            assert(copy.span.deep_view() =~= self.span.deep_view());
        }
        copy
    }
}

/// Where code is, and where the expansion that it stems from was asked for.
#[derive(Debug, PartialEq, Eq)]
pub struct SpanAttribution {
    pub span: Option<LocatedSpan>,
    pub callsite: Option<LocatedSpan>,
    pub origin: ExpansionOrigin,
}

/// The model of [`SpanAttribution`].
#[verifier::ext_equal]
pub struct SpanAttributionView {
    pub span: Option<LocatedSpanView>,
    pub callsite: Option<LocatedSpanView>,
    pub origin: ExpansionOrigin,
}

impl DeepView for SpanAttribution {
    type V = SpanAttributionView;

    open spec fn deep_view(&self) -> SpanAttributionView {
        SpanAttributionView {
            span: self.span.deep_view(),
            callsite: self.callsite.deep_view(),
            origin: self.origin,
        }
    }
}

impl Clone for SpanAttribution {
    fn clone(&self) -> (copy: Self)
        ensures
            copy.deep_view() == self.deep_view(),
    {
        let copy = SpanAttribution {
            span: self.span.clone(),
            callsite: self.callsite.clone(),
            origin: self.origin,
        };
        proof {
            assert(copy.span.deep_view() =~= self.span.deep_view());
            assert(copy.callsite.deep_view() =~= self.callsite.deep_view());
        }
        copy
    }
}

/// A definition that some code names, and where.
#[derive(Debug, PartialEq, Eq)]
pub struct ResolvedReference {
    pub target: CompilerDefId,
    pub span: Option<LocatedSpan>,
}

/// The model of [`ResolvedReference`].
#[verifier::ext_equal]
pub struct ResolvedReferenceView {
    pub target: CompilerDefId,
    pub span: Option<LocatedSpanView>,
}

impl DeepView for ResolvedReference {
    type V = ResolvedReferenceView;

    open spec fn deep_view(&self) -> ResolvedReferenceView {
        ResolvedReferenceView {
            target: self.target,
            span: self.span.deep_view(),
        }
    }
}

impl Clone for ResolvedReference {
    fn clone(&self) -> (copy: Self)
        ensures
            copy.deep_view() == self.deep_view(),
    {
        let copy = ResolvedReference {
            target: self.target,
            span: self.span.clone(),
        };
        proof {
            assert(copy.span.deep_view() =~= self.span.deep_view());
        }
        copy
    }
}

/// A definition of the crate that is compiled. The crate itself comes first, and every
/// definition comes after its parent.
#[derive(Debug, PartialEq, Eq)]
pub struct LocalDefinition {
    pub compiler_id: CompilerDefId,
    /// The place of the definition that holds this one.
    pub parent: Option<usize>,
    pub kind: DefKind,
    pub name: Option<String>,
    pub path: String,
    pub visibility: NominalVisibility,
    /// Whether it can be named or used from other crates.
    pub externally_reachable: bool,
    /// Whether it is exported by a path of public names.
    pub exported: bool,
    pub location: SpanAttribution,
    /// Whether the lint on unused code is off for it.
    pub dead_code_allowed: bool,
    /// Whether its code generation attributes keep it or name its symbol.
    pub retained_symbol: bool,
    /// The item of the trait that an associated item implements.
    pub trait_item: Option<CompilerDefId>,
    /// The type that an implementation is for, where that is a struct, union or enum.
    pub self_type: Option<CompilerDefId>,
    /// What its body names, where it has a body.
    pub body: Option<Vec<ResolvedReference>>,
    /// What it names outside of its body.
    pub interface: Vec<ResolvedReference>,
}

/// The model of [`LocalDefinition`].
#[verifier::ext_equal]
pub struct LocalDefinitionView {
    pub compiler_id: CompilerDefId,
    pub parent: Option<usize>,
    pub kind: DefKind,
    pub name: Option<Seq<char>>,
    pub path: Seq<char>,
    pub visibility: NominalVisibility,
    pub externally_reachable: bool,
    pub exported: bool,
    pub location: SpanAttributionView,
    pub dead_code_allowed: bool,
    pub retained_symbol: bool,
    pub trait_item: Option<CompilerDefId>,
    pub self_type: Option<CompilerDefId>,
    pub body: Option<Seq<ResolvedReferenceView>>,
    pub interface: Seq<ResolvedReferenceView>,
}

impl DeepView for LocalDefinition {
    type V = LocalDefinitionView;

    open spec fn deep_view(&self) -> LocalDefinitionView {
        LocalDefinitionView {
            compiler_id: self.compiler_id,
            parent: self.parent,
            kind: self.kind,
            name: self.name.deep_view(),
            path: self.path.deep_view(),
            visibility: self.visibility,
            externally_reachable: self.externally_reachable,
            exported: self.exported,
            location: self.location.deep_view(),
            dead_code_allowed: self.dead_code_allowed,
            retained_symbol: self.retained_symbol,
            trait_item: self.trait_item,
            self_type: self.self_type,
            body: self.body.deep_view(),
            interface: self.interface.deep_view(),
        }
    }
}

impl Clone for LocalDefinition {
    fn clone(&self) -> (copy: Self)
        ensures
            copy.deep_view() == self.deep_view(),
    {
        let copy = LocalDefinition {
            compiler_id: self.compiler_id,
            parent: self.parent,
            kind: self.kind,
            name: self.name.clone(),
            path: self.path.clone(),
            visibility: self.visibility,
            externally_reachable: self.externally_reachable,
            exported: self.exported,
            location: self.location.clone(),
            dead_code_allowed: self.dead_code_allowed,
            retained_symbol: self.retained_symbol,
            trait_item: self.trait_item,
            self_type: self.self_type,
            body: self.body.clone(),
            interface: self.interface.clone(),
        };
        proof {
            assert(copy.name.deep_view() =~= self.name.deep_view());
            assert(copy.location.deep_view() =~= self.location.deep_view());
            assert(copy.body.deep_view() =~= self.body.deep_view());
            assert(copy.interface.deep_view() =~= self.interface.deep_view());
        }
        copy
    }
}

/// The kind under which a definition is reported, where it is.
pub open spec fn reported_kind(kind: DefKind, is_crate: bool) -> Option<DefinitionKind> {
    match kind {
        DefKind::Mod => if is_crate {
            Some(DefinitionKind::Crate)
        } else {
            Some(DefinitionKind::Module)
        },
        DefKind::Struct => Some(DefinitionKind::Struct),
        DefKind::Union => Some(DefinitionKind::Union),
        DefKind::Enum => Some(DefinitionKind::Enum),
        DefKind::Variant => Some(DefinitionKind::Variant),
        DefKind::Trait => Some(DefinitionKind::Trait),
        DefKind::TyAlias => Some(DefinitionKind::TypeAlias),
        DefKind::ForeignTy => Some(DefinitionKind::ForeignType),
        DefKind::TraitAlias => Some(DefinitionKind::TraitAlias),
        DefKind::AssocTy => Some(DefinitionKind::AssociatedType),
        DefKind::Fn => Some(DefinitionKind::Function),
        DefKind::Const => Some(DefinitionKind::Constant),
        DefKind::Static => Some(DefinitionKind::Static),
        DefKind::Ctor => Some(DefinitionKind::Constructor),
        DefKind::AssocFn => Some(DefinitionKind::AssociatedFunction),
        DefKind::AssocConst => Some(DefinitionKind::AssociatedConstant),
        DefKind::Macro => Some(DefinitionKind::Macro),
        DefKind::ExternCrate => Some(DefinitionKind::ExternCrate),
        DefKind::Use => Some(DefinitionKind::Import),
        DefKind::ForeignMod => Some(DefinitionKind::ForeignModule),
        DefKind::OpaqueTy => Some(DefinitionKind::OpaqueType),
        DefKind::Field => Some(DefinitionKind::Field),
        DefKind::InherentImpl => Some(DefinitionKind::Implementation),
        DefKind::TraitImpl => Some(DefinitionKind::Implementation),
        _ => None,
    }
}

/// The kind under which a definition is reported, where it is.
pub fn definition_kind(kind: DefKind, is_crate: bool) -> (reported: Option<DefinitionKind>)
    ensures
        reported == reported_kind(kind, is_crate),
{
    match kind {
        DefKind::Mod => if is_crate {
            Some(DefinitionKind::Crate)
        } else {
            Some(DefinitionKind::Module)
        },
        DefKind::Struct => Some(DefinitionKind::Struct),
        DefKind::Union => Some(DefinitionKind::Union),
        DefKind::Enum => Some(DefinitionKind::Enum),
        DefKind::Variant => Some(DefinitionKind::Variant),
        DefKind::Trait => Some(DefinitionKind::Trait),
        DefKind::TyAlias => Some(DefinitionKind::TypeAlias),
        DefKind::ForeignTy => Some(DefinitionKind::ForeignType),
        DefKind::TraitAlias => Some(DefinitionKind::TraitAlias),
        DefKind::AssocTy => Some(DefinitionKind::AssociatedType),
        DefKind::Fn => Some(DefinitionKind::Function),
        DefKind::Const => Some(DefinitionKind::Constant),
        DefKind::Static => Some(DefinitionKind::Static),
        DefKind::Ctor => Some(DefinitionKind::Constructor),
        DefKind::AssocFn => Some(DefinitionKind::AssociatedFunction),
        DefKind::AssocConst => Some(DefinitionKind::AssociatedConstant),
        DefKind::Macro => Some(DefinitionKind::Macro),
        DefKind::ExternCrate => Some(DefinitionKind::ExternCrate),
        DefKind::Use => Some(DefinitionKind::Import),
        DefKind::ForeignMod => Some(DefinitionKind::ForeignModule),
        DefKind::OpaqueTy => Some(DefinitionKind::OpaqueType),
        DefKind::Field => Some(DefinitionKind::Field),
        DefKind::InherentImpl => Some(DefinitionKind::Implementation),
        DefKind::TraitImpl => Some(DefinitionKind::Implementation),
        _ => None,
    }
}

/// Whether the definition at a place is reported.
pub open spec fn is_emitted(definitions: Seq<LocalDefinitionView>, at: int) -> bool {
    reported_kind(definitions[at].kind, at == 0) is Some
}

/// Whether the definition at a place is reported.
pub fn emitted(definitions: &Vec<LocalDefinition>, at: usize) -> (result: bool)
    requires
        at < definitions.len(),
    ensures
        result == is_emitted(definitions.deep_view(), at as int),
{
    proof {
        assert(definitions.deep_view()[at as int] == definitions[at as int].deep_view());
    }
    definition_kind(definitions[at].kind, at == 0).is_some()
}

/// The place of the definition that holds the one at a place.
pub open spec fn held_by(definitions: Seq<LocalDefinitionView>, at: int) -> Option<int> {
    match definitions[at].parent {
        Some(parent) => if parent < at {
            Some(parent as int)
        } else {
            None
        },
        None => None,
    }
}

/// Finds the definition that holds the one at a place.
pub fn local_parent(definitions: &Vec<LocalDefinition>, at: usize) -> (parent: Option<usize>)
    requires
        at < definitions.len(),
    ensures
        match parent {
            Some(parent) => parent < at && held_by(definitions.deep_view(), at as int) == Some(
                parent as int,
            ),
            None => held_by(definitions.deep_view(), at as int) is None,
        },
{
    proof {
        assert(definitions.deep_view()[at as int] == definitions[at as int].deep_view());
    }
    match definitions[at].parent {
        Some(parent) => if parent < at {
            Some(parent)
        } else {
            None
        },
        None => None,
    }
}

/// The kind of the definition that holds the one at a place.
pub open spec fn holder_kind(definitions: Seq<LocalDefinitionView>, at: int) -> Option<DefKind> {
    match held_by(definitions, at) {
        Some(parent) => Some(definitions[parent].kind),
        None => None,
    }
}

/// Finds the kind of the definition that holds the one at a place.
pub fn parent_kind(definitions: &Vec<LocalDefinition>, at: usize) -> (kind: Option<DefKind>)
    requires
        at < definitions.len(),
    ensures
        kind == holder_kind(definitions.deep_view(), at as int),
{
    match local_parent(definitions, at) {
        Some(parent) => {
            proof {
                assert(definitions.deep_view()[parent as int]
                    == definitions[parent as int].deep_view());
            }
            Some(definitions[parent].kind)
        },
        None => None,
    }
}

/// The nearest reported definition: the one at a place, or the nearest that holds it.
pub open spec fn nearest_emitted(definitions: Seq<LocalDefinitionView>, at: int) -> Option<int>
    decreases at,
{
    if at < 0 {
        None
    } else if is_emitted(definitions, at) {
        Some(at)
    } else {
        match held_by(definitions, at) {
            Some(parent) => if 0 <= parent < at {
                nearest_emitted(definitions, parent)
            } else {
                None
            },
            None => None,
        }
    }
}

/// Finds the nearest reported definition: the one at a place, or the nearest that holds it.
pub fn nearest_emitted_definition(definitions: &Vec<LocalDefinition>, at: usize) -> (found: Option<
    usize,
>)
    requires
        at < definitions.len(),
    ensures
        match found {
            Some(found) => found <= at && nearest_emitted(definitions.deep_view(), at as int)
                == Some(found as int) && is_emitted(definitions.deep_view(), found as int),
            None => nearest_emitted(definitions.deep_view(), at as int) is None,
        },
    decreases at,
{
    if emitted(definitions, at) {
        return Some(at);
    }
    match local_parent(definitions, at) {
        Some(parent) => nearest_emitted_definition(definitions, parent),
        None => None,
    }
}

/// The nearest reported definition that holds the one at a place.
pub open spec fn emitted_holder(definitions: Seq<LocalDefinitionView>, at: int) -> Option<
    CompilerDefId,
> {
    match held_by(definitions, at) {
        Some(parent) => match nearest_emitted(definitions, parent) {
            Some(found) => Some(definitions[found].compiler_id),
            None => None,
        },
        None => None,
    }
}

/// Finds the nearest reported definition that holds the one at a place.
pub fn emitted_parent(definitions: &Vec<LocalDefinition>, at: usize) -> (parent: Option<
    CompilerDefId,
>)
    requires
        at < definitions.len(),
    ensures
        parent == emitted_holder(definitions.deep_view(), at as int),
{
    match local_parent(definitions, at) {
        Some(parent) => match nearest_emitted_definition(definitions, parent) {
            Some(found) => {
                proof {
                    assert(definitions.deep_view()[found as int]
                        == definitions[found as int].deep_view());
                }
                Some(definitions[found].compiler_id)
            },
            None => None,
        },
        None => None,
    }
}

/// The module, other than the crate, right around the definition at a place. Foreign blocks are
/// looked through.
pub open spec fn module_around(definitions: Seq<LocalDefinitionView>, at: int) -> Option<int> {
    match held_by(definitions, at) {
        None => None,
        Some(parent) => if parent != 0 && definitions[parent].kind == DefKind::Mod {
            Some(parent)
        } else if definitions[parent].kind != DefKind::ForeignMod {
            None
        } else {
            match held_by(definitions, parent) {
                Some(module) => if module != 0 && definitions[module].kind == DefKind::Mod {
                    Some(module)
                } else {
                    None
                },
                None => None,
            }
        },
    }
}

/// Finds the module, other than the crate, right around the definition at a place.
pub fn enclosing_module(definitions: &Vec<LocalDefinition>, at: usize) -> (module: Option<usize>)
    requires
        at < definitions.len(),
    ensures
        match module {
            Some(module) => module < at && module_around(definitions.deep_view(), at as int)
                == Some(module as int),
            None => module_around(definitions.deep_view(), at as int) is None,
        },
{
    let parent = match local_parent(definitions, at) {
        Some(parent) => parent,
        None => return None,
    };
    proof {
        assert(definitions.deep_view()[parent as int] == definitions[parent as int].deep_view());
    }
    if parent != 0 && definitions[parent].kind == DefKind::Mod {
        return Some(parent);
    }
    if definitions[parent].kind != DefKind::ForeignMod {
        return None;
    }
    match local_parent(definitions, parent) {
        Some(module) => {
            proof {
                assert(definitions.deep_view()[module as int]
                    == definitions[module as int].deep_view());
            }
            if module != 0 && definitions[module].kind == DefKind::Mod {
                Some(module)
            } else {
                None
            }
        },
        None => None,
    }
}

/// Whether a definition is a struct, a union or an enum.
pub open spec fn is_data_type(kind: DefKind) -> bool {
    kind == DefKind::Struct || kind == DefKind::Union || kind == DefKind::Enum
}

/// The nearest struct, union or enum that holds the definition at a place.
pub open spec fn data_type_around(definitions: Seq<LocalDefinitionView>, at: int) -> Option<int>
    decreases at,
{
    match held_by(definitions, at) {
        Some(parent) => if is_data_type(definitions[parent].kind) {
            Some(parent)
        } else if 0 <= parent < at {
            data_type_around(definitions, parent)
        } else {
            None
        },
        None => None,
    }
}

/// Finds the nearest struct, union or enum that holds the definition at a place.
pub fn containing_adt(definitions: &Vec<LocalDefinition>, at: usize) -> (found: Option<usize>)
    requires
        at < definitions.len(),
    ensures
        match found {
            Some(found) => found < at && data_type_around(definitions.deep_view(), at as int)
                == Some(found as int),
            None => data_type_around(definitions.deep_view(), at as int) is None,
        },
    decreases at,
{
    match local_parent(definitions, at) {
        Some(parent) => {
            proof {
                assert(definitions.deep_view()[parent as int]
                    == definitions[parent as int].deep_view());
            }
            let kind = definitions[parent].kind;
            if kind == DefKind::Struct || kind == DefKind::Union || kind == DefKind::Enum {
                Some(parent)
            } else {
                containing_adt(definitions, parent)
            }
        },
        None => None,
    }
}

/// Whether a definition is an associated item.
pub open spec fn is_associated(kind: DefKind) -> bool {
    kind == DefKind::AssocFn || kind == DefKind::AssocConst || kind == DefKind::AssocTy
}

/// Whether a definition is an associated item.
pub fn associated(kind: DefKind) -> (result: bool)
    ensures
        result == is_associated(kind),
{
    kind == DefKind::AssocFn || kind == DefKind::AssocConst || kind == DefKind::AssocTy
}

/// Whether the visibility of the definition at a place is written down where it is defined.
pub open spec fn is_editable(definitions: Seq<LocalDefinitionView>, at: int) -> bool {
    match definitions[at].kind {
        DefKind::AssocFn | DefKind::AssocConst | DefKind::AssocTy => holder_kind(definitions, at)
            == Some(DefKind::InherentImpl),
        DefKind::Mod => at != 0,
        DefKind::Struct
        | DefKind::Union
        | DefKind::Enum
        | DefKind::Trait
        | DefKind::TyAlias
        | DefKind::TraitAlias
        | DefKind::Fn
        | DefKind::Const
        | DefKind::Static
        | DefKind::ExternCrate
        | DefKind::Use => true,
        DefKind::Field => match data_type_around(definitions, at) {
            Some(found) => definitions[found].kind != DefKind::Enum,
            None => false,
        },
        _ => false,
    }
}

/// Whether the visibility of the definition at a place is written down where it is defined.
pub fn visibility_editable(definitions: &Vec<LocalDefinition>, at: usize) -> (result: bool)
    requires
        at < definitions.len(),
    ensures
        result == is_editable(definitions.deep_view(), at as int),
{
    proof {
        assert(definitions.deep_view()[at as int] == definitions[at as int].deep_view());
    }
    match definitions[at].kind {
        DefKind::AssocFn | DefKind::AssocConst | DefKind::AssocTy => match parent_kind(
            definitions,
            at,
        ) {
            Some(kind) => kind == DefKind::InherentImpl,
            None => false,
        },
        DefKind::Mod => at != 0,
        DefKind::Struct
        | DefKind::Union
        | DefKind::Enum
        | DefKind::Trait
        | DefKind::TyAlias
        | DefKind::TraitAlias
        | DefKind::Fn
        | DefKind::Const
        | DefKind::Static
        | DefKind::ExternCrate
        | DefKind::Use => true,
        DefKind::Field => match containing_adt(definitions, at) {
            Some(found) => {
                proof {
                    assert(definitions.deep_view()[found as int]
                        == definitions[found as int].deep_view());
                }
                definitions[found].kind != DefKind::Enum
            },
            None => false,
        },
        _ => false,
    }
}

/// The identities of the definitions, each with its place.
pub open spec fn identities(definitions: Seq<LocalDefinitionView>) -> Seq<(CompilerDefId, usize)> {
    Seq::new(definitions.len(), |i: int| (definitions[i].compiler_id, i as usize))
}

/// The places of the definitions by their identity.
pub open spec fn places_of(definitions: Seq<LocalDefinitionView>) -> Map<CompilerDefId, usize> {
    assembled(identities(definitions))
}

/// The places are those of definitions with the identity that is asked for.
pub proof fn lemma_places(definitions: Seq<LocalDefinitionView>, id: CompilerDefId)
    requires
        definitions.len() <= usize::MAX,
    ensures
        places_of(definitions).contains_key(id) ==> places_of(definitions)[id] < definitions.len()
            && definitions[places_of(definitions)[id] as int].compiler_id == id,
{
    lemma_places_upto(definitions, identities(definitions), id);
}

proof fn lemma_places_upto(
    definitions: Seq<LocalDefinitionView>,
    entries: Seq<(CompilerDefId, usize)>,
    id: CompilerDefId,
)
    requires
        entries.len() <= definitions.len() <= usize::MAX,
        forall|i: int|
            0 <= i < entries.len() ==> #[trigger] entries[i] == (
                definitions[i].compiler_id,
                i as usize,
            ),
    ensures
        assembled(entries).contains_key(id) ==> assembled(entries)[id] < definitions.len()
            && definitions[assembled(entries)[id] as int].compiler_id == id,
    decreases entries.len(),
{
    if entries.len() > 0 {
        lemma_places_upto(definitions, entries.drop_last(), id);
    }
}

/// Finds the places of all definitions by their identity.
pub fn index_definitions(definitions: &Vec<LocalDefinition>) -> (places: SortedMap<
    CompilerDefId,
    usize,
>)
    ensures
        places.wf(),
        places.deep_view() == places_of(definitions.deep_view()),
{
    let ghost all = definitions.deep_view();
    let mut entries: Vec<(CompilerDefId, usize)> = Vec::new();
    let mut at: usize = 0;
    while at < definitions.len()
        invariant
            all == definitions.deep_view(),
            at <= all.len(),
            entries.len() == at,
            forall|i: int|
                0 <= i < at ==> #[trigger] entries[i] == (all[i].compiler_id, i as usize),
        decreases all.len() - at,
    {
        proof {
            assert(all[at as int] == definitions[at as int].deep_view());
        }
        entries.push((definitions[at].compiler_id, at));
        at = at + 1;
    }
    proof {
        assert(entries.deep_view() =~= identities(all));
    }
    assemble(entries)
}

/// The place of the definition with an identity, where it is one of the crate.
pub open spec fn local_place(definitions: Seq<LocalDefinitionView>, id: CompilerDefId) -> Option<
    usize,
> {
    if places_of(definitions).contains_key(id) {
        Some(places_of(definitions)[id])
    } else {
        None
    }
}

/// Finds the definition with an identity, where it is one of the crate.
pub fn find_local(
    definitions: &Vec<LocalDefinition>,
    places: &SortedMap<CompilerDefId, usize>,
    id: CompilerDefId,
) -> (place: Option<usize>)
    requires
        places.wf(),
        places.deep_view() == places_of(definitions.deep_view()),
    ensures
        place == local_place(definitions.deep_view(), id),
        place matches Some(place) ==> place < definitions.len(),
{
    proof {
        assert(definitions.deep_view().len() == definitions.len());
        lemma_places(definitions.deep_view(), id);
    }
    match places.get(&id) {
        Some(place) => Some(*place),
        None => None,
    }
}

/// Whether a definition with an identity is reported.
pub open spec fn emits(definitions: Seq<LocalDefinitionView>, id: CompilerDefId) -> bool {
    match local_place(definitions, id) {
        Some(place) => is_emitted(definitions, place as int),
        None => false,
    }
}

/// Whether a definition with an identity is reported.
pub fn emits_definition(
    definitions: &Vec<LocalDefinition>,
    places: &SortedMap<CompilerDefId, usize>,
    id: CompilerDefId,
) -> (result: bool)
    requires
        places.wf(),
        places.deep_view() == places_of(definitions.deep_view()),
    ensures
        result == emits(definitions.deep_view(), id),
{
    match find_local(definitions, places, id) {
        Some(place) => emitted(definitions, place),
        None => false,
    }
}

} // verus!
