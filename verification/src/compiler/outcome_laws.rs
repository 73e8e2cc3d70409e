//! What makes evidence complete, and how runs of Cargo are read.

use vstd::prelude::*;

use crate::collections::{
    any_where, ascending, collected, count_where, image, last_place, lemma_ascending_exists,
    lemma_collected_member, lemma_image_finite, lemma_stable_sorted, lemma_stable_sorted_member,
    second, stable_sorted,
};
use crate::compiler::cargo::{
    CargoArtifact, CargoArtifactView, CargoFailure, CargoFailureView, CargoProfileView,
};
use crate::compiler::correlation::CorrelatedInvocationView;
use crate::compiler::environment::{
    audited_target, field_of, flags_of, target_of, texts_of, ConfigValueView,
};
use crate::compiler::messages::{
    artifact_entry, artifacts_of, failure_entry, failures_of, finish_of, in_order, says_finished,
    ArtifactOrder, CargoMessageView, FailureOrder, MessageLevel,
};
use crate::compiler::outcome::{
    codegen_issues, feature_issue, has_status, issue_set, issues_of, level_text, missing_cfg,
    normal_cfg, observed_cfg, overall_product, pair_codegen_issues, platform_issue, product_in,
    product_label, product_of, with_optional, ProductObservationView, RunSettingsView, SemanticProduct,
    UnitReportView,
};
use crate::compiler::world_laws::lemma_kept;
use crate::model::SemanticStatus;
use crate::order::Ordered;
use crate::protocol::{Availability, CodegenProfileView, CompilationContext};

verus! {

/// A product is complete just where the compiler said so and nothing speaks against it. What the
/// compiler did not have stays unavailable; otherwise, where something speaks against it, it is
/// partial where there are facts and unavailable where there are none.
pub proof fn law_products_are_as_good_as_their_evidence(
    issues: Seq<Seq<char>>,
    integrity: Seq<Seq<char>>,
    facts: bool,
    raw: ProductObservationView,
)
    ensures
        ({
            let said = product_of(issues, integrity, facts, raw);
            let clean = issues.len() == 0 && integrity.len() == 0;
            &&& said.status == SemanticStatus::Complete <==> raw.availability
                == Availability::Complete && clean
            &&& raw.availability == Availability::Unavailable ==> said.status
                == SemanticStatus::Unavailable
            &&& raw.availability == Availability::Partial && clean ==> said.status
                == SemanticStatus::Partial
            &&& raw.availability != Availability::Unavailable && !clean ==> said.status == (if facts {
                SemanticStatus::Partial
            } else {
                SemanticStatus::Unavailable
            })
            &&& said.status == SemanticStatus::Complete ==> said.reason is None
            &&& !clean ==> said.reason is Some
        }),
{
    let all = issues.to_set().union(integrity.to_set());
    let told = with_optional(Set::empty(), raw.message);
    vstd::seq_lib::seq_to_set_is_finite(issues);
    vstd::seq_lib::seq_to_set_is_finite(integrity);
    vstd::set_lib::lemma_set_union_finite_iff(issues.to_set(), integrity.to_set());
    lemma_ascending_exists::<String>(all);
    let list = ascending::<String>(all);
    if list.len() == 0 {
        if issues.len() > 0 {
            assert(issues.contains(issues[0]));
            assert(all.contains(issues[0]));
            assert(list.to_set().contains(issues[0]));
        }
        if integrity.len() > 0 {
            assert(integrity.contains(integrity[0]));
            assert(all.contains(integrity[0]));
            assert(list.to_set().contains(integrity[0]));
        }
    } else {
        assert(list.to_set().contains(list[0]));
        assert(all.contains(list[0]));
        vstd::set_lib::lemma_set_union_finite_iff(told, all);
        lemma_ascending_exists::<String>(told.union(all));
        assert(ascending::<String>(told.union(all)).to_set().contains(list[0]));
    }
}

/// Codegen is in order just where rustc optimized as Cargo asked, with the same debug assertions and
/// overflow checks.
pub proof fn law_codegen_agrees(observed: CodegenProfileView, expected: CargoProfileView)
    ensures
        codegen_issues(observed, expected).len() == 0 <==> level_text(observed.optimization)
            == expected.opt_level && observed.debug_assertions == expected.debug_assertions
            && observed.overflow_checks == expected.overflow_checks,
{
}

/// Whether nothing speaks against an invocation: it was paired without an issue, has a profile,
/// succeeded, and its features, codegen and platform are those that Cargo asked for; for the target
/// platform it also saw every condition that was asked for.
pub open spec fn unobjectionable(settings: RunSettingsView, pair: CorrelatedInvocationView) -> bool {
    let host = pair.invocation.started.compilation_context == CompilationContext::Host;
    &&& pair.issue is None
    &&& pair.invocation.finished.rustc_success
    &&& pair.invocation.profile is Some
    &&& pair.cargo_features is Some ==> pair.cargo_features->0
        == pair.invocation.profile->0.features
    &&& pair.cargo_profile is Some ==> codegen_issues(
        pair.invocation.profile->0.codegen,
        pair.cargo_profile->0,
    ).len() == 0
    &&& pair.invocation.profile->0.target_triple == (if host {
        pair.invocation.profile->0.host_triple
    } else {
        settings.target
    })
    &&& !host ==> forall|n: int|
        0 <= n < settings.cfg.len() ==> observed_cfg(pair.invocation).contains(
            normal_cfg(#[trigger] settings.cfg[n]),
        )
}

/// There is no issue with an invocation just where nothing speaks against it.
pub proof fn law_issues_are_what_speaks_against(
    settings: RunSettingsView,
    pair: CorrelatedInvocationView,
)
    ensures
        issue_set(settings, pair) == Set::<Seq<char>>::empty() <==> unobjectionable(settings, pair),
        issues_of(settings, pair).len() == 0 <==> unobjectionable(settings, pair),
{
    let set = issue_set(settings, pair);
    let f = missing_cfg(observed_cfg(pair.invocation));
    let generated = pair_codegen_issues(pair);
    let host = pair.invocation.started.compilation_context == CompilationContext::Host;
    vstd::seq_lib::seq_to_set_is_finite(generated);
    lemma_image_finite(settings.cfg, f);
    lemma_issues_finite(settings, pair);
    lemma_ascending_exists::<String>(set);
    let list = ascending::<String>(set);
    if set == Set::<Seq<char>>::empty() {
        if pair.issue is Some {
            assert(set.contains(pair.issue->0));
        }
        if pair.invocation.profile is None {
            assert(set.contains("compiler invocation has no concrete profile"@));
        }
        if !pair.invocation.finished.rustc_success {
            assert(set.contains("rustc invocation failed"@));
        }
        if feature_issue(pair) is Some {
            assert(set.contains(feature_issue(pair)->0));
        }
        if generated.len() > 0 {
            assert(generated.contains(generated[0]));
            assert(set.contains(generated[0]));
        }
        if platform_issue(settings.target, pair) is Some {
            assert(set.contains(platform_issue(settings.target, pair)->0));
        }
        if !host {
            assert forall|n: int| 0 <= n < settings.cfg.len() implies observed_cfg(
                pair.invocation,
            ).contains(normal_cfg(#[trigger] settings.cfg[n])) by {
                if let Some(text) = f(settings.cfg[n]) {
                    assert(image(settings.cfg, f).contains(text));
                    assert(set.contains(text));
                }
            }
        }
        if list.len() > 0 {
            assert(list.to_set().contains(list[0]));
        }
    } else {
        if list.len() == 0 {
            assert(list.to_set() =~= Set::<Seq<char>>::empty());
        }
        if unobjectionable(settings, pair) {
            assert forall|text: Seq<char>| !set.contains(text) by {
                if !host && image(settings.cfg, f).contains(text) {
                    let n = choose|n: int|
                        0 <= n < settings.cfg.len() && f(#[trigger] settings.cfg[n]) == Some(text);
                    assert(f(settings.cfg[n]) is Some);
                }
                if generated.to_set().contains(text) {
                    assert(generated.contains(text));
                }
            }
            assert(set =~= Set::<Seq<char>>::empty());
        }
    }
}

/// There are finitely many issues.
proof fn lemma_issues_finite(settings: RunSettingsView, pair: CorrelatedInvocationView)
    ensures
        issue_set(settings, pair).finite(),
{
    let f = missing_cfg(observed_cfg(pair.invocation));
    vstd::seq_lib::seq_to_set_is_finite(pair_codegen_issues(pair));
    lemma_image_finite(settings.cfg, f);
}

/// A product is complete for a run just where the run went through, at least one invocation was
/// expected, as many were reported, and each of them reports the product complete.
pub proof fn law_complete_products(
    units: Seq<UnitReportView>,
    expected: usize,
    transport_clean: bool,
    product: SemanticProduct,
)
    ensures
        overall_product(units, expected, transport_clean, product).status
            == SemanticStatus::Complete <==> transport_clean && expected > 0 && units.len()
            == expected && {
            let statuses = collected(units, product_in(product_label(product)));
            &&& statuses.len() == expected
            &&& forall|n: int|
                0 <= n < statuses.len() ==> (#[trigger] statuses[n]).status
                    == SemanticStatus::Complete
        },
        overall_product(units, expected, transport_clean, product).status
            == SemanticStatus::Unavailable <==> forall|n: int|
            0 <= n < collected(units, product_in(product_label(product))).len() ==> (
            #[trigger] collected(units, product_in(product_label(product)))[n]).status
                == SemanticStatus::Unavailable,
        overall_product(units, expected, transport_clean, product).reason is None
            <==> overall_product(units, expected, transport_clean, product).status
            == SemanticStatus::Complete,
{
    reveal(overall_product);
    let statuses = collected(units, product_in(product_label(product)));
    let complete = has_status(SemanticStatus::Complete);
    let partial = has_status(SemanticStatus::Partial);
    lemma_all_counted(statuses, complete);
    if any_where(statuses, complete) {
        let n = choose|n: int| 0 <= n < statuses.len() && complete(#[trigger] statuses[n]);
        assert(statuses[n].status == SemanticStatus::Complete);
    }
    if any_where(statuses, partial) {
        let n = choose|n: int| 0 <= n < statuses.len() && partial(#[trigger] statuses[n]);
        assert(statuses[n].status == SemanticStatus::Partial);
    }
    if !any_where(statuses, complete) && !any_where(statuses, partial) {
        assert forall|n: int| 0 <= n < statuses.len() implies (#[trigger] statuses[n]).status
            == SemanticStatus::Unavailable by {
            assert(!complete(statuses[n]) && !partial(statuses[n]));
        }
    }
    if count_where(statuses, complete) == statuses.len() {
        assert forall|n: int| 0 <= n < statuses.len() implies (#[trigger] statuses[n]).status
            == SemanticStatus::Complete by {
            assert(complete(statuses[n]));
        }
        if statuses.len() > 0 {
            assert(complete(statuses[0]));
        }
    }
}

/// As many items count as there are just where all have the property.
proof fn lemma_all_counted<A>(s: Seq<A>, property: spec_fn(A) -> bool)
    ensures
        count_where(s, property) == s.len() <==> forall|n: int|
            0 <= n < s.len() ==> property(#[trigger] s[n]),
        count_where(s, property) <= s.len(),
    decreases s.len(),
{
    if s.len() > 0 {
        let head = s.drop_last();
        lemma_all_counted(head, property);
        assert(s[s.len() - 1] == s.last());
        if count_where(s, property) == s.len() {
            assert forall|n: int| 0 <= n < s.len() implies property(#[trigger] s[n]) by {
                if n < head.len() {
                    assert(head[n] == s[n]);
                    assert(property(head[n]));
                }
            }
        }
        if forall|n: int| 0 <= n < s.len() ==> property(#[trigger] s[n]) {
            assert forall|n: int| 0 <= n < head.len() implies property(#[trigger] head[n]) by {
                assert(head[n] == s[n]);
            }
        }
    }
}

/// The platform that is audited is the one that was asked for, else the one that Cargo is
/// configured for, else the host.
pub proof fn law_audited_platforms(
    requested: Option<Seq<char>>,
    configured: Option<ConfigValueView>,
    verbose: Seq<char>,
)
    ensures
        requested is Some ==> audited_target(requested, configured, verbose) == Ok::<
            Seq<char>,
            Seq<char>,
        >(requested->0),
        requested is None && configured is Some ==> audited_target(requested, configured, verbose)
            == target_of(configured->0),
        requested is None && configured is None && field_of(verbose, "host"@) is Some
            ==> audited_target(requested, configured, verbose) == Ok::<Seq<char>, Seq<char>>(
            field_of(verbose, "host"@)->0,
        ),
        requested is None && configured is None && field_of(verbose, "host"@) is None
            ==> audited_target(requested, configured, verbose) is Err,
        configured is Some && target_of(configured->0) is Ok <==> configured is Some && {
            ||| configured->0 is Text && configured->0->Text_0.len() > 0
            ||| configured->0 is List && configured->0->List_0.len() == 1
                && configured->0->List_0[0] is Text && configured->0->List_0[0]->Text_0.len() > 0
        },
{
}

/// Only texts, and lists of nothing but texts, are compiler flags.
pub proof fn law_flags_are_texts(value: Option<ConfigValueView>)
    ensures
        value is None ==> flags_of(value) == Ok::<Seq<Seq<char>>, Seq<char>>(Seq::empty()),
        value is Some && !(value->0 is Text) && !(value->0 is List) ==> flags_of(value) is Err,
        value is Some && value->0 is Text ==> flags_of(value) is Ok,
        value is Some && value->0 is List ==> (flags_of(value) is Ok <==> forall|n: int|
            0 <= n < value->0->List_0.len() ==> (#[trigger] value->0->List_0[n]) is Text),
        value is Some && value->0 is List && flags_of(value) is Ok ==> flags_of(value)->Ok_0.len()
            == value->0->List_0.len() && forall|n: int|
            0 <= n < value->0->List_0.len() ==> flags_of(value)->Ok_0[n] == (
            #[trigger] value->0->List_0[n])->Text_0,
{
    if value is Some && value->0 is List {
        lemma_texts(value->0->List_0);
    }
}

proof fn lemma_texts(items: Seq<ConfigValueView>)
    ensures
        texts_of(items) is Some <==> forall|n: int|
            0 <= n < items.len() ==> (#[trigger] items[n]) is Text,
        texts_of(items) matches Some(texts) ==> texts.len()
            == items.len() && forall|n: int|
            0 <= n < items.len() ==> texts[n] == (#[trigger] items[n])->Text_0,
    decreases items.len(),
{
    if items.len() > 0 {
        let head = items.drop_last();
        lemma_texts(head);
        assert(items[items.len() - 1] == items.last());
        assert forall|n: int| 0 <= n < head.len() implies #[trigger] head[n] == items[n] by {}
        if forall|n: int| 0 <= n < items.len() ==> (#[trigger] items[n]) is Text {
            assert forall|n: int| 0 <= n < head.len() implies (#[trigger] head[n]) is Text by {
                assert(items[n] is Text);
            }
        }
        if texts_of(items) is Some {
            assert forall|n: int| 0 <= n < items.len() implies (#[trigger] items[n]) is Text by {
                if n < head.len() {
                    assert(head[n] is Text);
                }
            }
            let texts = texts_of(items)->0;
            assert forall|n: int| 0 <= n < items.len() implies texts[n] == (
            #[trigger] items[n])->Text_0 by {
                if n < head.len() {
                    assert(head[n] == items[n]);
                    assert(texts[n] == texts_of(head)->0[n]);
                }
            }
        }
    }
}

/// Sorting keeps all entries.
proof fn lemma_sorted_keeps<K: Ordered, T: DeepView>(
    entries: Seq<(<K as DeepView>::V, <T as DeepView>::V)>,
    item: <T as DeepView>::V,
)
    ensures
        second(stable_sorted::<K, T>(entries)).contains(item) <==> exists|n: int|
            0 <= n < entries.len() && (#[trigger] entries[n]).1 == item,
{
    broadcast use vstd::seq_lib::group_to_multiset_ensures;

    let sorted = stable_sorted::<K, T>(entries);
    lemma_stable_sorted::<K, T>(entries);
    if second(sorted).contains(item) {
        let n = choose|n: int| 0 <= n < second(sorted).len() && second(sorted)[n] == item;
        lemma_stable_sorted_member::<K, T>(entries, n);
        let m = choose|m: int| 0 <= m < entries.len() && entries[m] == sorted[n];
        assert(entries[m].1 == item);
    }
    if exists|n: int| 0 <= n < entries.len() && (#[trigger] entries[n]).1 == item {
        let n = choose|n: int| 0 <= n < entries.len() && (#[trigger] entries[n]).1 == item;
        assert(entries.contains(entries[n]));
        assert(entries.to_multiset().count(entries[n]) > 0);
        assert(sorted.to_multiset().count(entries[n]) > 0);
        assert(sorted.contains(entries[n]));
        let m = choose|m: int| 0 <= m < sorted.len() && sorted[m] == entries[n];
        assert(second(sorted)[m] == item);
    }
}

/// Cargo's failures are what the compiler said as errors, crashes and failure notes; its artifacts
/// are those that it told of. Whether the build finished is what was said of it last.
pub proof fn law_runs_hold_what_cargo_told(
    messages: Seq<CargoMessageView>,
    artifact: CargoArtifactView,
    failure: CargoFailureView,
)
    ensures
        artifacts_of(messages).contains(artifact) <==> exists|n: int|
            0 <= n < messages.len() && (#[trigger] messages[n]) is Artifact && {
                let told = messages[n]->Artifact_0;
                artifact == CargoArtifactView {
                    target_crate_types: in_order(told.target_crate_types),
                    features: in_order(told.features),
                    ..told
                }
            },
        failures_of(messages).contains(failure) <==> exists|n: int|
            0 <= n < messages.len() && (#[trigger] messages[n]) is Compiler && {
                let said = messages[n]->Compiler_0;
                &&& match said.level {
                    MessageLevel::Ice | MessageLevel::Error | MessageLevel::FailureNote => true,
                    _ => false,
                }
                &&& failure == CargoFailureView {
                    target_crate_types: in_order(said.failure.target_crate_types),
                    ..said.failure
                }
            },
        finish_of(messages) is None <==> forall|n: int|
            0 <= n < messages.len() ==> !((#[trigger] messages[n]) is Finished),
        forall|n: int|
            0 <= n < messages.len() && (#[trigger] messages[n]) is Finished && (forall|m: int|
                n < m < messages.len() ==> !((#[trigger] messages[m]) is Finished)) ==> finish_of(
                messages,
            ) == Some(messages[n]->Finished_0),
{
    let f = artifact_entry();
    let g = failure_entry();
    let artifacts = collected(messages, f);
    let failures = collected(messages, g);
    lemma_sorted_keeps::<ArtifactOrder, CargoArtifact>(artifacts, artifact);
    lemma_sorted_keeps::<FailureOrder, CargoFailure>(failures, failure);
    if artifacts_of(messages).contains(artifact) {
        let m = choose|m: int| 0 <= m < artifacts.len() && (#[trigger] artifacts[m]).1 == artifact;
        assert(artifacts.contains(artifacts[m]));
        let n = lemma_collected_member(messages, f, artifacts[m]);
        assert(messages[n] is Artifact);
    }
    if exists|n: int|
        0 <= n < messages.len() && f(#[trigger] messages[n]) is Some && (f(messages[n])->0).1
            == artifact {
        let n = choose|n: int|
            0 <= n < messages.len() && f(#[trigger] messages[n]) is Some && (f(messages[n])->0).1
                == artifact;
        lemma_kept(messages, f, n);
        let m = choose|m: int| 0 <= m < artifacts.len() && artifacts[m] == f(messages[n])->0;
        assert(artifacts[m].1 == artifact);
    }
    if failures_of(messages).contains(failure) {
        let m = choose|m: int| 0 <= m < failures.len() && (#[trigger] failures[m]).1 == failure;
        assert(failures.contains(failures[m]));
        let n = lemma_collected_member(messages, g, failures[m]);
        assert(messages[n] is Compiler);
    }
    if exists|n: int|
        0 <= n < messages.len() && g(#[trigger] messages[n]) is Some && (g(messages[n])->0).1
            == failure {
        let n = choose|n: int|
            0 <= n < messages.len() && g(#[trigger] messages[n]) is Some && (g(messages[n])->0).1
                == failure;
        lemma_kept(messages, g, n);
        let m = choose|m: int| 0 <= m < failures.len() && failures[m] == g(messages[n])->0;
        assert(failures[m].1 == failure);
    }
    lemma_last(messages, says_finished());
    if finish_of(messages) is None {
        assert forall|n: int| 0 <= n < messages.len() implies !((
        #[trigger] messages[n]) is Finished) by {
            assert(!says_finished()(messages[n]));
        }
    } else {
        let at = last_place(messages, says_finished())->0;
        assert(messages[at] is Finished);
    }
    assert forall|n: int|
        0 <= n < messages.len() && (#[trigger] messages[n]) is Finished && (forall|m: int|
            n < m < messages.len() ==> !((#[trigger] messages[m]) is Finished)) implies finish_of(
        messages,
    ) == Some(messages[n]->Finished_0) by {
        assert(says_finished()(messages[n]));
        let at = last_place(messages, says_finished())->0;
        assert(messages[at] is Finished);
        assert(at == n);
    }
}

/// The last place with a property has it, and no later one does.
proof fn lemma_last<A>(s: Seq<A>, property: spec_fn(A) -> bool)
    ensures
        last_place(s, property) is None <==> forall|n: int|
            0 <= n < s.len() ==> !property(#[trigger] s[n]),
        last_place(s, property) matches Some(at) ==> 0 <= at < s.len() && property(s[at])
            && forall|n: int| at < n < s.len() ==> !property(#[trigger] s[n]),
    decreases s.len(),
{
    if s.len() > 0 {
        let head = s.drop_last();
        lemma_last(head, property);
        assert(s[s.len() - 1] == s.last());
        assert forall|n: int| 0 <= n < head.len() implies #[trigger] head[n] == s[n] by {}
        if !property(s.last()) {
            if last_place(head, property) is None {
                assert forall|n: int| 0 <= n < s.len() implies !property(#[trigger] s[n]) by {
                    if n < head.len() {
                        assert(!property(head[n]));
                    }
                }
            } else {
                let at = last_place(head, property)->0;
                assert forall|n: int| at < n < s.len() implies !property(#[trigger] s[n]) by {
                    if n < head.len() {
                        assert(!property(head[n]));
                    }
                }
            }
        }
    }
}

} // verus!
