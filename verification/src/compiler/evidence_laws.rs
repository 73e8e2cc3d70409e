//! What is asked of macro facts, compilers and build plans.

use vstd::prelude::*;

use crate::collections::{
    any_where, collected, count_where, first_error, lemma_collected_member, lemma_count_bound,
    lemma_no_error, lemma_stable_sorted, lemma_stable_sorted_member, second, stable_sorted,
};
use crate::compiler::macro_complexity::{
    body_complaint, body_ids, decision_complaint, facts_complaint, invocation_shows,
    metrics_of, BodyView, DecisionKind, DecisionView, MacroInvocationView,
};
use crate::compiler::messages::in_order;
use crate::compiler::profile::{
    audit_package_of, conflict, conflicts, outside_error, package_root, request_error,
    requested_root, touches, unit_entry, units_of, ExpectedUnit, ExpectedUnitView,
    MetadataPackageView, ProfilePackageView, RawUnitView, UnitOrder,
};
use crate::compiler::support::{
    is_exact, is_older, manifest_error, same_build, support_error, toolchain_error, version_of,
    SupportManifestView,
};
use crate::compiler::world_laws::lemma_kept;
use crate::model::SemanticStatus;
use crate::paths::path_below;
use crate::protocol::{CompilerDefId, CompilerIdentityView, ExpansionOrigin};

verus! {

/// Whether code was written by a macro.
pub open spec fn expanded(origin: ExpansionOrigin) -> bool {
    match origin {
        ExpansionOrigin::LocalMacro | ExpansionOrigin::ExternalMacro => true,
        _ => false,
    }
}

/// Macro facts are accepted just where no body is told twice, bodies say which kind of macro wrote
/// them just where one did, and decisions are in bodies that were told and written by macros.
pub proof fn law_macro_facts_agree(bodies: Seq<BodyView>, decisions: Seq<DecisionView>)
    ensures
        facts_complaint(bodies, decisions) is None <==> {
            &&& forall|i: int, j: int|
                0 <= i < j < bodies.len() ==> (#[trigger] bodies[i]).compiler_id != (
                #[trigger] bodies[j]).compiler_id
            &&& forall|i: int|
                0 <= i < bodies.len() ==> {
                    let body = #[trigger] bodies[i];
                    &&& expanded(body.expansion_origin) == body.macro_kind is Some
                    &&& body.macro_definition is Some ==> expanded(body.expansion_origin)
                }
            &&& forall|i: int|
                0 <= i < decisions.len() ==> expanded((#[trigger] decisions[i]).expansion_origin)
                    && exists|n: int|
                    0 <= n < bodies.len() && (#[trigger] bodies[n]).compiler_id == decisions[i].body
        },
{
    let f = body_complaint(bodies);
    let g = decision_complaint(bodies, decisions);
    lemma_no_error(bodies.len() as int, f, 0);
    lemma_no_error(decisions.len() as int, g, 0);
    let h = |body: BodyView| Some(body.compiler_id);
    assert forall|id: CompilerDefId| #[trigger] body_ids(bodies).contains(id) <==> exists|n: int|
        0 <= n < bodies.len() && (#[trigger] bodies[n]).compiler_id == id by {
        if body_ids(bodies).contains(id) {
            let n = choose|n: int| 0 <= n < bodies.len() && h(#[trigger] bodies[n]) == Some(id);
            assert(bodies[n].compiler_id == id);
        }
        if exists|n: int| 0 <= n < bodies.len() && (#[trigger] bodies[n]).compiler_id == id {
            let n = choose|n: int| 0 <= n < bodies.len() && (#[trigger] bodies[n]).compiler_id == id;
            assert(h(bodies[n]) == Some(id));
        }
    }
    if facts_complaint(bodies, decisions) is None {
        assert forall|i: int, j: int| 0 <= i < j < bodies.len() implies (
        #[trigger] bodies[i]).compiler_id != (#[trigger] bodies[j]).compiler_id by {
            assert(f(j) is None);
        }
        assert forall|i: int| 0 <= i < bodies.len() implies {
            let body = #[trigger] bodies[i];
            &&& expanded(body.expansion_origin) == body.macro_kind is Some
            &&& body.macro_definition is Some ==> expanded(body.expansion_origin)
        } by {
            assert(f(i) is None);
        }
        assert forall|i: int| 0 <= i < decisions.len() implies expanded(
            (#[trigger] decisions[i]).expansion_origin,
        ) && exists|n: int|
            0 <= n < bodies.len() && (#[trigger] bodies[n]).compiler_id == decisions[i].body by {
            assert(g(i) is None);
            assert(body_ids(bodies).contains(decisions[i].body));
        }
    } else if first_error(bodies.len() as int, f, 0) is Some {
        let i = choose|i: int|
            0 <= i < bodies.len() && #[trigger] f(i) == first_error(bodies.len() as int, f, 0);
        assert(f(i) is Some);
        assert(bodies[i] == bodies[i]);
    } else {
        let i = choose|i: int|
            0 <= i < decisions.len() && #[trigger] g(i) == first_error(
                decisions.len() as int,
                g,
                0,
            );
        assert(g(i) is Some);
        assert(decisions[i] == decisions[i]);
    }
}

/// A decision more counts once; it adds to the complexity unless it is a match, whose alternatives
/// count instead. A body more adds to it just where a macro wrote it.
pub proof fn law_decisions_add_complexity(
    bodies: Seq<BodyView>,
    decisions: Seq<DecisionView>,
    body: BodyView,
    decision: DecisionView,
)
    requires
        bodies.len() + decisions.len() < u64::MAX,
    ensures
        ({
            let before = metrics_of(bodies, decisions).totals;
            let more = metrics_of(bodies, decisions.push(decision)).totals;
            let larger = metrics_of(bodies.push(body), decisions).totals;
            let step = if decision.kind == DecisionKind::Match {
                0int
            } else {
                1
            };
            let base = if expanded(body.expansion_origin) {
                1int
            } else {
                0
            };
            &&& more.decisions == before.decisions + 1
            &&& more.decision_delta == before.decision_delta + step
            &&& more.cyclomatic_delta == before.cyclomatic_delta + step
            &&& more.macro_body_bases == before.macro_body_bases
            &&& larger.decisions == before.decisions
            &&& larger.macro_body_bases == before.macro_body_bases + base
            &&& larger.cyclomatic_delta == before.cyclomatic_delta + base
        }),
{
    assert(decisions.push(decision).drop_last() =~= decisions);
    assert(bodies.push(body).drop_last() =~= bodies);
    lemma_counts_bounded(bodies, decisions);
}

/// The counts of bodies and decisions are no greater than their numbers.
proof fn lemma_counts_bounded(bodies: Seq<BodyView>, decisions: Seq<DecisionView>)
    ensures
        forall|property: spec_fn(BodyView) -> bool| #[trigger]
            count_where(bodies, property) <= bodies.len(),
        forall|property: spec_fn(DecisionView) -> bool| #[trigger]
            count_where(decisions, property) <= decisions.len(),
{
    assert forall|property: spec_fn(BodyView) -> bool| #[trigger]
        count_where(bodies, property) <= bodies.len() by {
        lemma_count_bound(bodies, property);
    }
    assert forall|property: spec_fn(DecisionView) -> bool| #[trigger]
        count_where(decisions, property) <= decisions.len() by {
        lemma_count_bound(decisions, property);
    }
}

/// Metrics of an invocation are shown just where its facts are complete, agree, and can be trusted;
/// facts that are complete but not so are partial.
pub proof fn law_macro_metrics_need_sound_facts(trustworthy: bool, invocation: MacroInvocationView)
    ensures
        ({
            let sound = trustworthy && facts_complaint(invocation.bodies, invocation.decisions)
                is None;
            let shown = invocation_shows(trustworthy, invocation);
            &&& shown.metrics is Some <==> invocation.status == SemanticStatus::Complete && sound
            &&& shown.metrics is Some ==> shown.metrics->0 == metrics_of(
                invocation.bodies,
                invocation.decisions,
            )
            &&& shown.status == SemanticStatus::Complete <==> invocation.status
                == SemanticStatus::Complete && sound
            &&& invocation.status != SemanticStatus::Complete ==> shown.status == invocation.status
            &&& shown.key == invocation.key
        }),
{
}

/// A compiler is supported just where the manifest is in order, was verified on its host, and lists
/// its very build: the release, the commit and the date of the commit.
pub proof fn law_supported_compilers_are_listed(
    manifest: SupportManifestView,
    compiler: CompilerIdentityView,
)
    ensures
        support_error(manifest, compiler) is None <==> manifest_error(manifest) is None
            && manifest.verified_host == compiler.host && exists|i: int|
            0 <= i < manifest.toolchains.len() && (#[trigger] manifest.toolchains[i]).release
                == compiler.release && manifest.toolchains[i].commit_hash == compiler.commit_hash
                && manifest.toolchains[i].commit_date == compiler.commit_date,
{
    if is_exact(manifest, compiler) {
        let i = choose|i: int|
            0 <= i < manifest.toolchains.len() && same_build(
                #[trigger] manifest.toolchains[i],
                compiler,
            );
        assert(manifest.toolchains[i].release == compiler.release);
    }
    if exists|i: int|
        0 <= i < manifest.toolchains.len() && (#[trigger] manifest.toolchains[i]).release
            == compiler.release && manifest.toolchains[i].commit_hash == compiler.commit_hash
            && manifest.toolchains[i].commit_date == compiler.commit_date {
        let i = choose|i: int|
            0 <= i < manifest.toolchains.len() && (#[trigger] manifest.toolchains[i]).release
                == compiler.release && manifest.toolchains[i].commit_hash == compiler.commit_hash
                && manifest.toolchains[i].commit_date == compiler.commit_date;
        assert(same_build(manifest.toolchains[i], compiler));
    }
}

/// In a manifest that is in order every release is listed once, has a version and a commit; it is
/// stable, of a date within the window, or in development, without one.
pub proof fn law_listed_releases_are_in_order(manifest: SupportManifestView, i: int, j: int)
    requires
        manifest_error(manifest) is None,
        0 <= i < j < manifest.toolchains.len(),
    ensures
        manifest.toolchains[i].release != manifest.toolchains[j].release,
        version_of(manifest.toolchains[j].release) is Some,
        manifest.toolchains[j].kind == "stable"@ || manifest.toolchains[j].kind == "development"@,
        manifest.toolchains[j].kind == "development"@ ==> manifest.toolchains[j].release_date
            is None,
        manifest.toolchains[j].release_date is Some ==> manifest.toolchains[j].kind == "stable"@,
        manifest.verified_host.len() > 0,
{
    let complaint = |k: int| toolchain_error(manifest, k);
    lemma_no_error(manifest.toolchains.len() as int, complaint, 0);
    assert(complaint(j) is None);
    assert(manifest.toolchains[i].release == manifest.toolchains[i].release);
    reveal_strlit("stable");
    reveal_strlit("development");
    assert("stable"@.len() != "development"@.len());
}

/// Versions are ordered by their numbers, one after the other.
pub proof fn law_older_versions(a: (u32, u32, u32), b: (u32, u32, u32), c: (u32, u32, u32))
    ensures
        !is_older(a, a),
        is_older(a, b) || a == b || is_older(b, a),
        is_older(a, b) && is_older(b, c) ==> is_older(a, c),
        a.0 < b.0 ==> is_older(a, b),
        a.0 == b.0 && a.1 < b.1 ==> is_older(a, b),
{
}

/// Every unit of a build plan is expected, but for the runs of build scripts, with its package,
/// target, source, features and platform; nothing else is.
pub proof fn law_expected_units_are_planned(units: Seq<RawUnitView>, unit: ExpectedUnitView)
    ensures
        units_of(units).contains(unit) <==> exists|n: int|
            0 <= n < units.len() && {
                let raw = #[trigger] units[n];
                &&& raw.mode != "run-custom-build"@
                &&& unit.package_id == raw.pkg_id
                &&& unit.target_name == raw.target.name
                &&& unit.target_source == raw.target.src_path
                &&& unit.platform == raw.platform
                &&& unit.target_kinds == in_order(raw.target.kind)
                &&& unit.target_crate_types == in_order(
                    raw.target.crate_types,
                )
                &&& unit.features == in_order(raw.features)
            },
{
    broadcast use vstd::seq_lib::group_to_multiset_ensures;

    let f = unit_entry();
    let entries = collected(units, f);
    let sorted = stable_sorted::<UnitOrder, ExpectedUnit>(entries);
    lemma_stable_sorted::<UnitOrder, ExpectedUnit>(entries);
    if units_of(units).contains(unit) {
        let n = choose|n: int| 0 <= n < second(sorted).len() && second(sorted)[n] == unit;
        lemma_stable_sorted_member::<UnitOrder, ExpectedUnit>(entries, n);
        let at = lemma_collected_member(units, f, sorted[n]);
        assert(units[at].mode != "run-custom-build"@);
    }
    if exists|n: int|
        0 <= n < units.len() && f(#[trigger] units[n]) is Some && (f(units[n])->0).1 == unit {
        let n = choose|n: int|
            0 <= n < units.len() && f(#[trigger] units[n]) is Some && (f(units[n])->0).1 == unit;
        lemma_kept(units, f, n);
        let entry = f(units[n])->0;
        assert(entries.to_multiset().count(entry) > 0);
        assert(sorted.to_multiset().count(entry) > 0);
        assert(sorted.contains(entry));
        let m = choose|m: int| 0 <= m < sorted.len() && sorted[m] == entry;
        assert(second(sorted)[m] == unit);
    }
    if exists|n: int|
        0 <= n < units.len() && {
            let raw = #[trigger] units[n];
            &&& raw.mode != "run-custom-build"@
            &&& unit.package_id == raw.pkg_id
            &&& unit.target_name == raw.target.name
            &&& unit.target_source == raw.target.src_path
            &&& unit.platform == raw.platform
            &&& unit.target_kinds == in_order(raw.target.kind)
            &&& unit.target_crate_types == in_order(
                raw.target.crate_types,
            )
            &&& unit.features == in_order(raw.features)
        } {
        let n = choose|n: int|
            0 <= n < units.len() && {
                let raw = #[trigger] units[n];
                &&& raw.mode != "run-custom-build"@
                &&& unit.package_id == raw.pkg_id
                &&& unit.target_name == raw.target.name
                &&& unit.target_source == raw.target.src_path
                &&& unit.platform == raw.platform
                &&& unit.target_kinds == in_order(raw.target.kind)
                &&& unit.target_crate_types == in_order(
                    raw.target.crate_types,
                )
                &&& unit.features == in_order(raw.features)
            };
        assert((f(units[n])->0).1 == unit);
    }
}

/// A package is asked for just where a requested path lies in it, or it lies in a requested path.
pub proof fn law_requested_packages(requested: Seq<Seq<char>>, package: MetadataPackageView)
    ensures
        requested_root(requested)(package) is Some <==> exists|n: int|
            0 <= n < requested.len() && (path_below(
                #[trigger] requested[n],
                package_root(package.manifest_path),
            ) is Some || path_below(package_root(package.manifest_path), requested[n]) is Some),
        requested_root(requested)(package) is Some ==> requested_root(requested)(package) == Some(
            package_root(package.manifest_path),
        ),
{
    let f = touches(package_root(package.manifest_path));
    if any_where(requested, f) {
        let n = choose|n: int| 0 <= n < requested.len() && f(#[trigger] requested[n]);
        assert(path_below(requested[n], package_root(package.manifest_path)) is Some || path_below(
            package_root(package.manifest_path),
            requested[n],
        ) is Some);
    }
    if exists|n: int|
        0 <= n < requested.len() && (path_below(
            #[trigger] requested[n],
            package_root(package.manifest_path),
        ) is Some || path_below(package_root(package.manifest_path), requested[n]) is Some) {
        let n = choose|n: int|
            0 <= n < requested.len() && (path_below(
                #[trigger] requested[n],
                package_root(package.manifest_path),
            ) is Some || path_below(package_root(package.manifest_path), requested[n]) is Some);
        assert(f(requested[n]));
    }
}

/// Only members of the workspace are looked at; each is selected just where its root is.
pub proof fn law_members_are_selected_by_root(
    members: Seq<Seq<char>>,
    roots: Seq<Seq<char>>,
    package: MetadataPackageView,
)
    ensures
        audit_package_of(members, roots)(package) is Some <==> members.contains(package.id),
        audit_package_of(members, roots)(package) matches Some(found) ==> found.id == package.id
            && found.name == package.name && found.root == package_root(package.manifest_path)
            && (found.selected <==> roots.contains(package_root(package.manifest_path))),
{
}

/// Requests are refused without a path, and with one that lies outside the root.
pub proof fn law_requests_lie_below_the_root(root: Seq<char>, requested: Seq<Seq<char>>)
    ensures
        request_error(root, requested) is None <==> requested.len() > 0 && forall|n: int|
            0 <= n < requested.len() ==> path_below(#[trigger] requested[n], root) is Some,
{
    let complaint = |i: int| outside_error(root, requested[i]);
    lemma_no_error(requested.len() as int, complaint, 0);
    if request_error(root, requested) is None {
        assert forall|n: int| 0 <= n < requested.len() implies path_below(
            #[trigger] requested[n],
            root,
        ) is Some by {
            assert(complaint(n) is None);
        }
    } else if requested.len() > 0 {
        let i = choose|i: int|
            0 <= i < requested.len() && #[trigger] complaint(i) == request_error(root, requested);
        assert(complaint(i) is Some);
        assert(path_below(requested[i], root) is None);
    }
}

/// A feature is in conflict just where it is excluded and enabled all the same.
pub proof fn law_enabled_features_cannot_be_excluded(
    package: ProfilePackageView,
    enabled: Seq<Seq<char>>,
    text: Seq<char>,
)
    ensures
        conflicts(package, enabled).contains(text) <==> exists|n: int|
            0 <= n < package.excluded.len() && enabled.contains(#[trigger] package.excluded[n])
                && text == conflict(package.name, package.excluded[n]),
        conflicts(package, enabled).len() == 0 <==> forall|n: int|
            0 <= n < package.excluded.len() ==> !enabled.contains(#[trigger] package.excluded[n]),
{
    let f = |feature: Seq<char>|
        if enabled.contains(feature) {
            Some(conflict(package.name, feature))
        } else {
            None
        };
    let all = conflicts(package, enabled);
    if all.contains(text) {
        let at = lemma_collected_member(package.excluded, f, text);
        assert(enabled.contains(package.excluded[at]));
    }
    if exists|n: int|
        0 <= n < package.excluded.len() && enabled.contains(#[trigger] package.excluded[n]) && text
            == conflict(package.name, package.excluded[n]) {
        let n = choose|n: int|
            0 <= n < package.excluded.len() && enabled.contains(#[trigger] package.excluded[n])
                && text == conflict(package.name, package.excluded[n]);
        lemma_kept(package.excluded, f, n);
    }
    if all.len() > 0 {
        assert(all.contains(all[0]));
        let at = lemma_collected_member(package.excluded, f, all[0]);
        assert(enabled.contains(package.excluded[at]));
    } else {
        assert forall|n: int| 0 <= n < package.excluded.len() implies !enabled.contains(
            #[trigger] package.excluded[n],
        ) by {
            if enabled.contains(package.excluded[n]) {
                lemma_kept(package.excluded, f, n);
            }
        }
    }
}

} // verus!
