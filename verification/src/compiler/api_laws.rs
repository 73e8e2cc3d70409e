//! What public interfaces hold, and when they are known.

use vstd::prelude::*;

use crate::collections::{
    any_where, ascending, count_where, first_where, image, last_place, lemma_ascending_exists,
    lemma_collected_member, lemma_first_where, lemma_image_finite,
};
use crate::compiler::api_surface::{
    definitions_agree, exposed_above, exposed_paths, is_api_definition, last_colons, plain_library,
    public_definitions, reported_definition, retained_binding, retained_definition, unit_of,
    ApiBindingReportView, ApiDefinitionReportView, ApiUnitReportView,
};
use crate::compiler::closed_world::{has_library_kind, library_kind};
use crate::compiler::correlation_laws::lemma_sole;
use crate::compiler::effective_api::{
    api_key, api_of_expected, api_reasons, fragment_reason, gated_key, is_fragment, unexpected_reason,
    ApiInvocationView, ApiTargetKey, ApiTargetKeyView, GatedPackageView,
    GatedTargetView,
};
use crate::compiler::graph::{canonical_key, CanonicalPathView, GraphInvocationView, LocationsView};
use crate::compiler::inventory::AuditPackageView;
use crate::compiler::sidecar::definition_with;
use crate::compiler::world_laws::lemma_kept;
use crate::model::{CompilerTargetReportView, SemanticStatus};
use crate::protocol::{DefinitionKind, DefinitionView, PublicBindingView};

verus! {

/// Whether a kind of target is a library that is linked with.
pub open spec fn linked_kind(kind: Seq<char>) -> bool {
    kind == "lib"@ || kind == "rlib"@ || kind == "dylib"@ || kind == "cdylib"@ || kind
        == "staticlib"@
}

/// A target shows an interface just where it is production code and a procedural macro, or a
/// library for the target platform; its unit then has its name and says which of both it is.
pub proof fn law_interfaces_are_of_libraries(
    root: Seq<char>,
    packages: Seq<AuditPackageView>,
    input: GraphInvocationView,
)
    ensures
        ({
            let target = input.target;
            let shows = target.role == "production"@ && (target.kinds.contains("proc-macro"@) || (
            target.compilation_context == "target"@ && exists|n: int|
                0 <= n < target.kinds.len() && linked_kind(#[trigger] target.kinds[n])));
            &&& unit_of(root, packages, input) == Ok::<Option<ApiUnitReportView>, Seq<char>>(None)
                <==> !shows
            &&& unit_of(root, packages, input) matches Ok(Some(unit)) ==> {
                &&& unit.target == target.name
                &&& unit.kind == (if target.kinds.contains("proc-macro"@) {
                    "proc_macro"@
                } else {
                    "library"@
                })
                &&& exists|n: int|
                    0 <= n < packages.len() && (#[trigger] packages[n]).id == target.package_id
                        && packages[n].name == unit.package
            }
        }),
{
    let target = input.target;
    let f = plain_library();
    if any_where(target.kinds, f) {
        let n = choose|n: int| 0 <= n < target.kinds.len() && f(#[trigger] target.kinds[n]);
        assert(linked_kind(target.kinds[n]));
    }
    if exists|n: int| 0 <= n < target.kinds.len() && linked_kind(#[trigger] target.kinds[n]) {
        let n = choose|n: int| 0 <= n < target.kinds.len() && linked_kind(#[trigger] target.kinds[n]);
        assert(f(target.kinds[n]));
    }
    let p = |package: AuditPackageView| package.id == target.package_id;
    lemma_sole(packages, p);
}

/// Without two colons side by side there are no last ones.
proof fn lemma_no_colons(path: Seq<char>, from: int, before: int)
    requires
        0 <= from <= before <= path.len(),
        forall|i: int| from <= i < before ==> #[trigger] path[i] != ':',
        from >= 2 ==> path[from - 2] == ':' && path[from - 1] == ':',
    ensures
        from >= 2 ==> last_colons(path, before) == Some(from - 2),
        from == 0 ==> last_colons(path, before) is None,
    decreases before,
{
    if before > from {
        if before >= 2 {
            assert(path[before - 1] != ':');
            lemma_no_colons(path, from, before - 1);
        }
    }
}

/// What lies in an exposed module or type is exposed with it, and what does not lie in one is
/// exposed only by itself.
pub proof fn law_members_are_exposed_with_their_parents(
    parent: Seq<char>,
    name: Seq<char>,
    exposed: Set<Seq<char>>,
)
    requires
        forall|i: int| 0 <= i < name.len() ==> #[trigger] name[i] != ':',
    ensures
        exposed_above(parent + "::"@ + name, exposed) <==> exposed.contains(parent + "::"@ + name)
            || exposed_above(parent, exposed),
        exposed_above(name, exposed) <==> exposed.contains(name),
        exposed.contains(parent) ==> exposed_above(parent, exposed),
{
    reveal_strlit("::");
    let path = parent + "::"@ + name;
    let from = parent.len() + 2;
    assert(path[from - 2] == ':' && path[from - 1] == ':');
    assert forall|i: int| from <= i < path.len() implies #[trigger] path[i] != ':' by {
        assert(path[i] == name[i - from]);
    }
    lemma_no_colons(path, from as int, path.len() as int);
    lemma_no_colons(name, 0, name.len() as int);
    assert(path.take(parent.len() as int) =~= parent);
}

/// The interface of a unit holds just the definitions that can be reached from outside, under an
/// exposed path, and are neither crates, imports, implementations, foreign modules nor opaque
/// types, nor without a path of their own.
pub proof fn law_interfaces_hold_what_can_be_named(
    places: LocationsView,
    input: GraphInvocationView,
    unit: ApiUnitReportView,
    report: ApiDefinitionReportView,
)
    ensures
        public_definitions(places, input, unit).contains(report) <==> exists|n: int|
            0 <= n < input.invocation.definitions.len() && {
                let definition = #[trigger] input.invocation.definitions[n];
                &&& report == reported_definition(places, input, unit, definition)
                &&& definition.externally_reachable
                &&& exposed_above(definition.definition_path, exposed_paths(input))
                &&& definition.definition_path.len() == 0 || definition.definition_path[0] != '<'
                &&& definition.kind != DefinitionKind::Crate
                &&& definition.kind != DefinitionKind::Import
                &&& definition.kind != DefinitionKind::ExternCrate
                &&& definition.kind != DefinitionKind::Implementation
                &&& definition.kind != DefinitionKind::ForeignModule
                &&& definition.kind != DefinitionKind::OpaqueType
            },
{
    let all = input.invocation.definitions;
    let f = |definition: DefinitionView|
        if is_api_definition(definition, exposed_paths(input)) {
            Some(reported_definition(places, input, unit, definition))
        } else {
            None
        };
    if public_definitions(places, input, unit).contains(report) {
        let at = lemma_collected_member(all, f, report);
        assert(is_api_definition(all[at], exposed_paths(input)));
    }
    if exists|n: int|
        0 <= n < all.len() && f(#[trigger] all[n]) == Some(report) {
        let n = choose|n: int| 0 <= n < all.len() && f(#[trigger] all[n]) == Some(report);
        lemma_kept(all, f, n);
    }
    if exists|n: int|
        0 <= n < all.len() && {
            let definition = #[trigger] all[n];
            &&& report == reported_definition(places, input, unit, definition)
            &&& is_api_definition(definition, exposed_paths(input))
        } {
        let n = choose|n: int|
            0 <= n < all.len() && {
                let definition = #[trigger] all[n];
                &&& report == reported_definition(places, input, unit, definition)
                &&& is_api_definition(definition, exposed_paths(input))
            };
        assert(f(all[n]) == Some(report));
    }
}

/// A path is exposed just where a public binding leads to it that an invocation defines.
pub proof fn law_bindings_expose_their_targets(input: GraphInvocationView, path: Seq<char>)
    ensures
        exposed_paths(input).contains(path) <==> exists|n: int|
            0 <= n < input.invocation.bindings.len() && (
            #[trigger] input.invocation.bindings[n]).resolved_target_path == path
                && definition_with(
                input.invocation.definitions,
                input.invocation.bindings[n].target,
            ) is Some,
{
    let all = input.invocation.bindings;
    let f = |binding: PublicBindingView|
        if definition_with(input.invocation.definitions, binding.target) is Some {
            Some(binding.resolved_target_path)
        } else {
            None
        };
    if exposed_paths(input).contains(path) {
        let n = choose|n: int| 0 <= n < all.len() && f(#[trigger] all[n]) == Some(path);
        assert(all[n].resolved_target_path == path);
    }
    if exists|n: int|
        0 <= n < all.len() && (#[trigger] all[n]).resolved_target_path == path && definition_with(
            input.invocation.definitions,
            all[n].target,
        ) is Some {
        let n = choose|n: int|
            0 <= n < all.len() && (#[trigger] all[n]).resolved_target_path == path
                && definition_with(input.invocation.definitions, all[n].target) is Some;
        assert(f(all[n]) == Some(path));
    }
}

/// Of two reports on one definition or binding all but the place is kept from the first; a known
/// place is preferred to none.
pub proof fn law_known_places_are_preferred(
    first: ApiDefinitionReportView,
    second: ApiDefinitionReportView,
    one: ApiBindingReportView,
    other: ApiBindingReportView,
)
    ensures
        retained_definition(first, second).definition_path == first.definition_path,
        retained_definition(first, second).unit == first.unit,
        retained_definition(first, second).kind == first.kind,
        first.span is None && second.span is Some ==> retained_definition(first, second).span
            == second.span,
        first.span is Some && second.span is None ==> retained_definition(first, second) == first,
        retained_definition(first, second).span is None <==> first.span is None && second.span
            is None,
        retained_binding(one, other).name == one.name,
        retained_binding(one, other).resolved_target_path == one.resolved_target_path,
        one.span is None && other.span is Some ==> retained_binding(one, other).span == other.span,
        one.span is Some && other.span is None ==> retained_binding(one, other) == one,
        definitions_agree(first, second) <==> first.unit == second.unit && first.definition_path
            == second.definition_path && first.kind == second.kind && first.expansion_origin
            == second.expansion_origin,
{
}

/// Whether the interface of a target is to be seen: production code of a library, for the target
/// platform unless it is a procedural macro.
pub open spec fn to_be_seen(target: CompilerTargetReportView) -> bool {
    &&& target.role == "production"@
    &&& exists|n: int|
        0 <= n < target.kinds.len() && (linked_kind(#[trigger] target.kinds[n]) || target.kinds[n]
            == "proc-macro"@)
    &&& target.compilation_context == "target"@ || target.kinds.contains("proc-macro"@)
}

proof fn lemma_library(kinds: Seq<Seq<char>>)
    ensures
        has_library_kind(kinds) <==> exists|n: int|
            0 <= n < kinds.len() && (linked_kind(#[trigger] kinds[n]) || kinds[n]
                == "proc-macro"@),
{
    if has_library_kind(kinds) {
        let n = choose|n: int|
            0 <= n < kinds.len() && library_kind(
                #[trigger] kinds[n],
            );
        assert(linked_kind(kinds[n]) || kinds[n] == "proc-macro"@);
    }
    if exists|n: int|
        0 <= n < kinds.len() && (linked_kind(#[trigger] kinds[n]) || kinds[n] == "proc-macro"@) {
        let n = choose|n: int|
            0 <= n < kinds.len() && (linked_kind(#[trigger] kinds[n]) || kinds[n]
                == "proc-macro"@);
        assert(library_kind(kinds[n]));
    }
}

/// A target of a package is to be seen just where it is a library and all features that it requires
/// are enabled.
pub proof fn law_gated_targets_need_their_features(
    known: Seq<CanonicalPathView>,
    package: GatedPackageView,
    enabled: Seq<Seq<char>>,
    target: GatedTargetView,
)
    ensures
        gated_key(known, package, enabled)(target) is Some <==> (exists|n: int|
            0 <= n < target.kinds.len() && (linked_kind(#[trigger] target.kinds[n])
                || target.kinds[n] == "proc-macro"@)) && forall|n: int|
            0 <= n < target.required_features.len() ==> enabled.contains(
                #[trigger] target.required_features[n],
            ),
        gated_key(known, package, enabled)(target) matches Some(key) ==> key.package_id
            == package.id && key.name == target.name && key.source == canonical_key(
            known,
            target.source,
        ) && key.compilation_context == (if target.kinds.contains("proc-macro"@) {
            "host"@
        } else {
            "target"@
        }),
{
    lemma_library(target.kinds);
    let f = |feature: Seq<char>| !enabled.contains(feature);
    if any_where(target.required_features, f) {
        let n = choose|n: int|
            0 <= n < target.required_features.len() && f(#[trigger] target.required_features[n]);
        assert(!enabled.contains(target.required_features[n]));
    } else {
        assert forall|n: int| 0 <= n < target.required_features.len() implies enabled.contains(
            #[trigger] target.required_features[n],
        ) by {
            assert(!f(target.required_features[n]));
        }
    }
}

/// Whether an invocation compiled the target of a key, where it is to be seen.
pub open spec fn compiled_target(
    known: Seq<CanonicalPathView>,
    invocation: ApiInvocationView,
    key: ApiTargetKeyView,
) -> bool {
    invocation.target is Some && to_be_seen(invocation.target->0) && api_key(
        known,
        invocation.target->0,
    ) == key
}

/// Whether exactly one invocation compiled the target of a key, completely.
pub open spec fn compiled_once(
    known: Seq<CanonicalPathView>,
    invocations: Seq<ApiInvocationView>,
    key: ApiTargetKeyView,
) -> bool {
    exists|n: int|
        0 <= n < invocations.len() && #[trigger] compiled_target(known, invocations[n], key)
            && invocations[n].status == SemanticStatus::Complete && forall|m: int|
            0 <= m < invocations.len() && m != n ==> !#[trigger] compiled_target(
                known,
                invocations[m],
                key,
            )
}

proof fn lemma_fragment(
    known: Seq<CanonicalPathView>,
    expected: Map<ApiTargetKeyView, Seq<char>>,
    invocations: Seq<ApiInvocationView>,
    key: ApiTargetKeyView,
)
    ensures
        fragment_reason(known, expected, invocations)(key) is None <==> compiled_once(
            known,
            invocations,
            key,
        ),
{
    let f = is_fragment(known, key);
    assert forall|n: int| 0 <= n < invocations.len() implies f(#[trigger] invocations[n])
        == compiled_target(known, invocations[n], key) by {
        if invocations[n].target is Some {
            lemma_library(invocations[n].target->0.kinds);
        }
    }
    lemma_sole(invocations, f);
    lemma_first_where(invocations, f);
    if fragment_reason(known, expected, invocations)(key) is None {
        let found = first_where(invocations, f)->0;
        let n = choose|n: int| 0 <= n < invocations.len() && invocations[n] == found;
        assert(f(invocations[n]));
        assert(compiled_target(known, invocations[n], key));
        assert forall|m: int| 0 <= m < invocations.len() && m != n implies !#[trigger] compiled_target(
            known,
            invocations[m],
            key,
        ) by {
            if f(invocations[m]) {
                assert(false);
            }
        }
    }
    if compiled_once(known, invocations, key) {
        let n = choose|n: int|
            0 <= n < invocations.len() && #[trigger] compiled_target(known, invocations[n], key)
                && invocations[n].status == SemanticStatus::Complete && forall|m: int|
                0 <= m < invocations.len() && m != n ==> !#[trigger] compiled_target(
                    known,
                    invocations[m],
                    key,
                );
        assert(f(invocations[n]));
        if count_where(invocations, f) > 1 {
            let last = last_place(invocations, f)->0;
            let m = choose|m: int|
                0 <= m < invocations.len() && f(#[trigger] invocations[m])
                    && last_place(invocations, f) != Some(m);
            assert(f(invocations[last]));
            assert(compiled_target(known, invocations[m], key));
            assert(compiled_target(known, invocations[last], key));
        }
        let found = first_where(invocations, f)->0;
        let m = choose|m: int| 0 <= m < invocations.len() && invocations[m] == found;
        assert(compiled_target(known, invocations[m], key));
    }
}

/// The effective interface is known just where there is a target to be seen, the facts can be
/// trusted, every such target was compiled by exactly one invocation, completely, and no other
/// invocation compiled a target that is to be seen.
pub proof fn law_interfaces_are_known_from_whole_evidence(
    places: LocationsView,
    expected: Map<ApiTargetKeyView, Seq<char>>,
    trustworthy: bool,
    invocations: Seq<ApiInvocationView>,
)
    requires
        expected.dom().finite(),
    ensures
        api_of_expected(places, expected, trustworthy, invocations).report is Some <==> {
            &&& exists|key: ApiTargetKeyView| #[trigger] expected.contains_key(key)
            &&& trustworthy
            &&& forall|key: ApiTargetKeyView| #[trigger]
                expected.contains_key(key) ==> compiled_once(places.canonical, invocations, key)
            &&& forall|n: int|
                0 <= n < invocations.len() && (#[trigger] invocations[n]).target is Some
                    && to_be_seen(invocations[n].target->0) ==> expected.contains_key(
                    api_key(places.canonical, invocations[n].target->0),
                )
        },
{
    let known = places.canonical;
    let targets = ascending::<ApiTargetKey>(expected.dom());
    let f = fragment_reason(known, expected, invocations);
    let g = unexpected_reason(known, expected);
    let reasons = api_reasons(known, expected, trustworthy, invocations);
    let list = ascending::<String>(reasons);
    lemma_ascending_exists::<ApiTargetKey>(expected.dom());
    lemma_image_finite(invocations, g);
    lemma_image_finite(targets, f);
    lemma_ascending_exists::<String>(reasons);
    assert forall|key: ApiTargetKeyView| #[trigger]
        f(key) is None <==> compiled_once(known, invocations, key) by {
        lemma_fragment(known, expected, invocations, key);
    }
    assert forall|n: int| 0 <= n < invocations.len() implies (g(#[trigger] invocations[n]) is None
        <==> (invocations[n].target is Some && to_be_seen(invocations[n].target->0)
        ==> expected.contains_key(api_key(known, invocations[n].target->0)))) by {
        if invocations[n].target is Some {
            lemma_library(invocations[n].target->0.kinds);
        }
    }
    if targets.len() > 0 {
        assert(targets.to_set().contains(targets[0]));
        assert(expected.contains_key(targets[0]));
    }
    if exists|key: ApiTargetKeyView| #[trigger] expected.contains_key(key) {
        let key = choose|key: ApiTargetKeyView| #[trigger] expected.contains_key(key);
        assert(targets.to_set().contains(key));
    }
    if list.len() > 0 {
        assert(list.to_set().contains(list[0]));
        let reason = list[0];
        if image(invocations, g).contains(reason) {
            let n = choose|n: int|
                0 <= n < invocations.len() && g(#[trigger] invocations[n]) == Some(reason);
            assert(g(invocations[n]) is Some);
        } else if image(targets, f).contains(reason) {
            let n = choose|n: int| 0 <= n < targets.len() && f(#[trigger] targets[n]) == Some(reason);
            assert(targets.to_set().contains(targets[n]));
            assert(f(targets[n]) is Some);
            assert(expected.contains_key(targets[n]));
        }
    } else {
        assert forall|reason: Seq<char>| !reasons.contains(reason) by {
            assert(list.to_set().contains(reason) <==> list.contains(reason));
        }
        assert forall|key: ApiTargetKeyView| #[trigger]
            expected.contains_key(key) implies compiled_once(known, invocations, key) by {
            assert(targets.to_set().contains(key));
            let n = choose|n: int| 0 <= n < targets.len() && targets[n] == key;
            if let Some(reason) = f(targets[n]) {
                assert(image(targets, f).contains(reason));
                assert(reasons.contains(reason));
            }
        }
        assert forall|n: int|
            0 <= n < invocations.len() && (#[trigger] invocations[n]).target is Some && to_be_seen(
                invocations[n].target->0,
            ) implies expected.contains_key(api_key(known, invocations[n].target->0)) by {
            if let Some(reason) = g(invocations[n]) {
                assert(image(invocations, g).contains(reason));
                assert(reasons.contains(reason));
            }
        }
        if !trustworthy {
            assert(reasons.contains(
                "compiler sidecar or build-profile validation was incomplete"@,
            ));
        }
    }
}

} // verus!
