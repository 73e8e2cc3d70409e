//! What it takes for compiler invocations to agree with what Cargo planned and built.

use vstd::prelude::*;

use crate::collections::{
    any_where, count_where, image, last_place, lemma_collected_member, occurrences,
};
use crate::compiler::cargo::{artifact_role, CargoArtifactView, CargoRunView};
use crate::compiler::correlation::{
    accounted_for, artifact_fits, artifact_key, claim, compiled, correlated_key,
    correlation_errors, count_error, evidence_of, file_matches, fitting, identity_issue,
    is_selected, kept_invocations, numbered_artifacts, observed, pair_error, paired, pairs,
    planned_key, role_in_mode, selected_unit, settled, sole_artifact, types_match,
    unclaimed, unclaimed_error, unexpected_error, CorrelatedInvocationView, EvidenceView, UnitKeyView,
};
use crate::compiler::graph::{canonical_key, CanonicalPathView, LocationsView};
use crate::compiler::inventory::{selected_ids, AuditPackageView};
use crate::compiler::profile::ExpectedUnitView;
use crate::compiler::sidecar::InvocationView;
use crate::compiler::world_laws::{lemma_kept, lemma_same_words};
use crate::paths::{parent_of, path_from, stem_of};
use crate::protocol::{CompilationContext, InvocationStartedView};
use crate::text::without_prefix;

verus! {

/// What a target of Cargo is compiled as. Tests and benches are what they are; in test mode
/// everything else is a unit test; otherwise examples and build scripts are what they are, and the
/// rest is production code.
pub proof fn law_targets_have_one_role(kinds: Seq<Seq<char>>, test_mode: bool)
    ensures
        kinds.contains("test"@) ==> role_in_mode(kinds, test_mode) == "test"@ && artifact_role(
            kinds,
            test_mode,
        ) == "test"@,
        !kinds.contains("test"@) && kinds.contains("bench"@) ==> role_in_mode(kinds, test_mode)
            == "bench"@ && artifact_role(kinds, test_mode) == "bench"@,
        test_mode && !kinds.contains("test"@) && !kinds.contains("bench"@) ==> role_in_mode(
            kinds,
            test_mode,
        ) == "unit_test"@ && artifact_role(kinds, test_mode) == "unit_test"@,
        !test_mode && kinds.contains("example"@) && !kinds.contains("test"@) && !kinds.contains(
            "bench"@,
        ) ==> role_in_mode(kinds, test_mode) == "example"@ && artifact_role(kinds, test_mode)
            == "example"@,
        !test_mode && kinds.contains("custom-build"@) && !kinds.contains("example"@)
            && !kinds.contains("test"@) && !kinds.contains("bench"@) ==> role_in_mode(
            kinds,
            test_mode,
        ) == "build"@ && artifact_role(kinds, test_mode) == "build"@,
        !test_mode && !kinds.contains("custom-build"@) && !kinds.contains("example"@)
            && !kinds.contains("test"@) && !kinds.contains("bench"@) ==> role_in_mode(
            kinds,
            test_mode,
        ) == "production"@ && artifact_role(kinds, test_mode) == "production"@,
        role_in_mode(kinds, test_mode) == artifact_role(kinds, test_mode),
{
}

/// Whether a file lies where an invocation writes its output, under the name of its crate, with or
/// without the prefix of libraries.
pub open spec fn written_by(
    known: Seq<CanonicalPathView>,
    started: InvocationStartedView,
    filename: Seq<char>,
) -> bool {
    let name = started.artifact.crate_name + (if started.artifact.extra_filename is Some {
        started.artifact.extra_filename->0
    } else {
        Seq::empty()
    });
    &&& started.artifact.out_dir is Some
    &&& parent_of(filename) is Some
    &&& canonical_key(known, parent_of(filename)->0) == canonical_key(
        known,
        started.artifact.out_dir->0,
    )
    &&& stem_of(filename) == Some(name) || stem_of(filename) == Some("lib"@ + name)
}

proof fn lemma_prefixed(stem: Seq<char>, name: Seq<char>)
    ensures
        without_prefix(stem, "lib"@) == Some(name) <==> stem == "lib"@ + name,
{
    if without_prefix(stem, "lib"@) == Some(name) {
        assert(stem =~= "lib"@ + name) by {
            assert(stem.take("lib"@.len() as int) == "lib"@);
            assert(stem =~= stem.take("lib"@.len() as int) + stem.skip("lib"@.len() as int));
        }
    }
    if stem == "lib"@ + name {
        assert(stem.take("lib"@.len() as int) =~= "lib"@);
        assert(stem.skip("lib"@.len() as int) =~= name);
    }
}

/// Whether two lists hold the same words.
pub open spec fn same_words(a: Seq<Seq<char>>, b: Seq<Seq<char>>) -> bool {
    forall|word: Seq<char>| #[trigger] a.contains(word) <==> b.contains(word)
}

proof fn lemma_same_sets(a: Seq<Seq<char>>, b: Seq<Seq<char>>)
    ensures
        a.to_set() == b.to_set() <==> same_words(a, b),
{
    if a.to_set() == b.to_set() {
        assert forall|word: Seq<char>| #[trigger] a.contains(word) <==> b.contains(word) by {
            assert(a.to_set().contains(word) <==> b.to_set().contains(word));
        }
    }
    if same_words(a, b) {
        assert(a.to_set() =~= b.to_set());
    }
}

/// Crate types agree just where they are the same. A test is a program, whatever its target is; a
/// compiler that is told no crate type makes a program.
pub proof fn law_crate_types_agree(
    rustc: Seq<Seq<char>>,
    test_mode: bool,
    cargo: Seq<Seq<char>>,
)
    ensures
        rustc.len() > 0 && !test_mode ==> (types_match(rustc, test_mode, cargo) <==> cargo.len() > 0
            && same_words(rustc, cargo)),
        rustc.len() > 0 && test_mode ==> (types_match(rustc, test_mode, cargo) <==> same_words(
            rustc,
            seq!["bin"@],
        )),
        rustc.len() == 0 && test_mode ==> types_match(rustc, test_mode, cargo),
        rustc.len() == 0 && !test_mode ==> (types_match(rustc, test_mode, cargo) <==> cargo.len() > 0
            && same_words(seq!["bin"@], cargo)),
{
    lemma_same_sets(rustc, cargo);
    lemma_same_sets(rustc, seq!["bin"@]);
    lemma_same_sets(seq!["bin"@], cargo);
}

/// An artifact fits an invocation just where they are of one package and source file, both in test
/// mode or neither, of crate types that agree, and one of its files was written by the invocation.
pub proof fn law_fitting_artifacts(
    known: Seq<CanonicalPathView>,
    started: InvocationStartedView,
    artifact: CargoArtifactView,
)
    ensures
        artifact_fits(known, started, artifact) <==> {
            &&& started.manifest_dir is Some
            &&& canonical_key(known, started.manifest_dir->0) == canonical_key(
                known,
                if parent_of(artifact.manifest_path) is Some {
                    parent_of(artifact.manifest_path)->0
                } else {
                    artifact.manifest_path
                },
            )
            &&& started.input is Some
            &&& canonical_key(known, path_from(started.working_directory, started.input->0))
                == canonical_key(known, artifact.target_source)
            &&& started.test_mode == artifact.profile_test
            &&& types_match(
                started.artifact.crate_types,
                started.test_mode,
                artifact.target_crate_types,
            )
            &&& exists|n: int|
                0 <= n < artifact.filenames.len() && written_by(
                    known,
                    started,
                    #[trigger] artifact.filenames[n],
                )
        },
{
    let expected = started.artifact.crate_name + (match started.artifact.extra_filename {
        Some(suffix) => suffix,
        None => Seq::empty(),
    });
    let f = |filename: Seq<char>| file_matches(known, started, filename);
    assert forall|n: int| 0 <= n < artifact.filenames.len() implies f(
        #[trigger] artifact.filenames[n],
    ) == written_by(known, started, artifact.filenames[n]) by {
        if stem_of(artifact.filenames[n]) is Some {
            lemma_prefixed(stem_of(artifact.filenames[n])->0, expected);
        }
    }
    if exists|n: int|
        0 <= n < artifact.filenames.len() && written_by(
            known,
            started,
            #[trigger] artifact.filenames[n],
        ) {
        let n = choose|n: int|
            0 <= n < artifact.filenames.len() && written_by(
                known,
                started,
                #[trigger] artifact.filenames[n],
            );
        assert(f(artifact.filenames[n]));
    }
    if any_where(artifact.filenames, f) {
        let n = choose|n: int| 0 <= n < artifact.filenames.len() && f(#[trigger] artifact.filenames[n]);
        assert(written_by(known, started, artifact.filenames[n]));
    }
}

/// A count is one just where exactly one place has the property, and the last such place is it.
pub proof fn lemma_sole<A>(s: Seq<A>, property: spec_fn(A) -> bool)
    ensures
        count_where(s, property) == 0 <==> forall|n: int|
            0 <= n < s.len() ==> !property(#[trigger] s[n]),
        count_where(s, property) == 0 <==> last_place(s, property) is None,
        last_place(s, property) matches Some(at) ==> 0 <= at < s.len() && property(s[at]),
        count_where(s, property) == 1 ==> forall|n: int|
            0 <= n < s.len() && property(#[trigger] s[n]) ==> last_place(s, property) == Some(n),
        count_where(s, property) > 1 ==> exists|n: int|
            0 <= n < s.len() && property(#[trigger] s[n]) && last_place(s, property) != Some(n),
    decreases s.len(),
{
    if s.len() > 0 {
        let head = s.drop_last();
        lemma_sole(head, property);
        assert forall|n: int| 0 <= n < head.len() implies #[trigger] head[n] == s[n] by {}
        assert(s[s.len() - 1] == s.last());
        if property(s.last()) {
            if count_where(head, property) > 0 {
                let at = last_place(head, property)->0;
                assert(property(s[at]) && last_place(s, property) != Some(at));
            }
        } else if count_where(head, property) > 1 {
            let n = choose|n: int|
                0 <= n < head.len() && property(#[trigger] head[n]) && last_place(head, property)
                    != Some(n);
            assert(property(s[n]));
        }
        if count_where(head, property) == 0 && !property(s.last()) {
            assert forall|n: int| 0 <= n < s.len() implies !property(#[trigger] s[n]) by {
                if n < head.len() {
                    assert(head[n] == s[n]);
                }
            }
        }
        if count_where(s, property) == 1 {
            assert forall|n: int|
                0 <= n < s.len() && property(#[trigger] s[n]) implies last_place(s, property)
                == Some(n) by {
                if n < head.len() {
                    assert(head[n] == s[n]);
                }
            }
        }
        if forall|n: int| 0 <= n < s.len() ==> !property(#[trigger] s[n]) {
            assert forall|n: int| 0 <= n < head.len() implies !property(#[trigger] head[n]) by {
                assert(!property(s[n]));
            }
        }
    }
}

/// Whether an artifact is the only one that fits an invocation.
pub open spec fn only_fit(e: EvidenceView, started: InvocationStartedView, at: int) -> bool {
    &&& 0 <= at < e.artifacts.len()
    &&& artifact_fits(e.places.canonical, started, e.artifacts[at])
    &&& forall|n: int|
        0 <= n < e.artifacts.len() && n != at ==> !artifact_fits(
            e.places.canonical,
            started,
            #[trigger] e.artifacts[n],
        )
}

/// An invocation is matched with an artifact just where no other one fits it.
pub proof fn law_invocations_match_the_only_fit(
    e: EvidenceView,
    started: InvocationStartedView,
    at: usize,
)
    requires
        e.artifacts.len() <= usize::MAX,
    ensures
        sole_artifact(e, started) == Some(at) <==> only_fit(e, started, at as int),
{
    let f = fitting(e.places.canonical, started);
    lemma_sole(e.artifacts, f);
    if sole_artifact(e, started) == Some(at) {
        assert forall|n: int| 0 <= n < e.artifacts.len() && n != at implies !artifact_fits(
            e.places.canonical,
            started,
            #[trigger] e.artifacts[n],
        ) by {
            if f(e.artifacts[n]) {
                assert(last_place(e.artifacts, f) == Some(n));
            }
        }
        assert(f(e.artifacts[at as int]));
    }
    if only_fit(e, started, at as int) {
        assert(f(e.artifacts[at as int]));
        let last = last_place(e.artifacts, f)->0;
        assert(f(e.artifacts[last]));
        assert(last == at);
        if count_where(e.artifacts, f) > 1 {
            let n = choose|n: int|
                0 <= n < e.artifacts.len() && f(#[trigger] e.artifacts[n]) && last_place(
                    e.artifacts,
                    f,
                ) != Some(n);
            assert(!artifact_fits(e.places.canonical, started, e.artifacts[n]));
        }
    }
}

/// Whether a planned unit is one of an artifact as an invocation compiled it: the same package,
/// name, source, kinds, crate types and features, for the same platform.
pub open spec fn planned_as(
    known: Seq<CanonicalPathView>,
    unit: ExpectedUnitView,
    artifact: CargoArtifactView,
    started: InvocationStartedView,
) -> bool {
    &&& unit.package_id == artifact.package_id
    &&& unit.target_name == artifact.target_name
    &&& canonical_key(known, unit.target_source) == canonical_key(known, artifact.target_source)
    &&& unit.target_kinds.to_set() == artifact.target_kinds.to_set()
    &&& unit.target_crate_types.to_set() == artifact.target_crate_types.to_set()
    &&& unit.features.to_set() == artifact.features.to_set()
    &&& match started.compilation_context {
        CompilationContext::Host => unit.platform is None,
        CompilationContext::Target => unit.platform == Some(started.target_triple),
    }
}

/// The unit of an artifact is a planned one just where they agree in everything that tells units
/// apart.
pub proof fn law_units_are_told_apart(
    known: Seq<CanonicalPathView>,
    unit: ExpectedUnitView,
    artifact: CargoArtifactView,
    started: InvocationStartedView,
)
    ensures
        planned_key(known, unit) == artifact_key(known, artifact, started) <==> planned_as(
            known,
            unit,
            artifact,
            started,
        ),
{
    lemma_same_words(unit.target_kinds, artifact.target_kinds);
    lemma_same_words(unit.target_crate_types, artifact.target_crate_types);
    lemma_same_words(unit.features, artifact.features);
}

/// An invocation is left without an issue when it is paired just where its identity and merge key
/// are its own, exactly one artifact fits it that no earlier invocation was matched with, and that
/// artifact's unit was planned; it is then an invocation of that artifact's target.
pub proof fn law_pairs_without_issue(e: EvidenceView, kept: Seq<InvocationView>, i: int)
    requires
        e.artifacts.len() <= usize::MAX,
        0 <= i < kept.len(),
    ensures
        paired(e, kept, i).issue is None <==> {
            &&& identity_issue(kept, kept[i]) is None
            &&& exists|at: usize| #[trigger]
                only_fit(e, kept[i].started, at as int) && e.units.contains(
                    artifact_key(e.places.canonical, e.artifacts[at as int], kept[i].started),
                ) && forall|j: int|
                    0 <= j < i ==> !only_fit(e, (#[trigger] kept[j]).started, at as int)
        },
        forall|at: usize| #[trigger]
            only_fit(e, kept[i].started, at as int) ==> {
                let artifact = e.artifacts[at as int];
                let target = paired(e, kept, i).target;
                &&& target is Some
                &&& target->0.package_id == artifact.package_id
                &&& target->0.name == artifact.target_name
                &&& target->0.kinds == artifact.target_kinds
                &&& target->0.crate_types == artifact.target_crate_types
                &&& target->0.source == artifact.target_source
                &&& target->0.role == artifact_role(artifact.target_kinds, artifact.profile_test)
                &&& target->0.compilation_context == match kept[i].started.compilation_context {
                    CompilationContext::Host => "host"@,
                    CompilationContext::Target => "target"@,
                }
                &&& paired(e, kept, i).cargo_features == Some(artifact.features)
            },
{
    let started = kept[i].started;
    let taken = image(kept.take(i), claim(e));
    assert forall|at: usize| #[trigger] only_fit(e, started, at as int) implies sole_artifact(
        e,
        started,
    ) == Some(at) by {
        law_invocations_match_the_only_fit(e, started, at);
    }
    assert forall|at: usize| #[trigger] taken.contains(at) <==> exists|j: int|
        0 <= j < i && only_fit(e, (#[trigger] kept[j]).started, at as int) by {
        if taken.contains(at) {
            let short = kept.take(i);
            let j = choose|j: int| 0 <= j < short.len() && claim(e)(#[trigger] short[j]) == Some(at);
            law_invocations_match_the_only_fit(e, kept[j].started, at);
            assert(only_fit(e, kept[j].started, at as int));
        }
        if exists|j: int| 0 <= j < i && only_fit(e, (#[trigger] kept[j]).started, at as int) {
            let j = choose|j: int| 0 <= j < i && only_fit(e, (#[trigger] kept[j]).started, at as int);
            law_invocations_match_the_only_fit(e, kept[j].started, at);
            assert(claim(e)(kept.take(i)[j]) == Some(at));
        }
    }
    if let Some(at) = sole_artifact(e, started) {
        law_invocations_match_the_only_fit(e, started, at);
        assert(only_fit(e, started, at as int));
    }
}

/// Identities are an issue just where another invocation has the same one, or the same merge key.
pub proof fn law_identity_issues(kept: Seq<InvocationView>, i: int)
    requires
        0 <= i < kept.len(),
    ensures
        identity_issue(kept, kept[i]) is Some <==> exists|j: int|
            0 <= j < kept.len() && j != i && ((#[trigger] kept[j]).id == kept[i].id
                || kept[j].started.merge_key == kept[i].started.merge_key),
{
    let a = |other: InvocationView| other.id == kept[i].id;
    let b = |other: InvocationView| other.started.merge_key == kept[i].started.merge_key;
    lemma_shared(kept, a, i);
    lemma_shared(kept, b, i);
    if identity_issue(kept, kept[i]) is Some {
        if count_where(kept, a) > 1 {
            let j = choose|j: int| 0 <= j < kept.len() && j != i && a(#[trigger] kept[j]);
            assert(kept[j].id == kept[i].id);
        } else {
            let j = choose|j: int| 0 <= j < kept.len() && j != i && b(#[trigger] kept[j]);
            assert(kept[j].started.merge_key == kept[i].started.merge_key);
        }
    }
    if exists|j: int|
        0 <= j < kept.len() && j != i && ((#[trigger] kept[j]).id == kept[i].id
            || kept[j].started.merge_key == kept[i].started.merge_key) {
        let j = choose|j: int|
            0 <= j < kept.len() && j != i && ((#[trigger] kept[j]).id == kept[i].id
                || kept[j].started.merge_key == kept[i].started.merge_key);
        assert(a(kept[j]) || b(kept[j]));
    }
}

/// A property of one place counts more than once just where another place has it too.
proof fn lemma_shared<A>(s: Seq<A>, property: spec_fn(A) -> bool, i: int)
    requires
        0 <= i < s.len(),
        property(s[i]),
    ensures
        count_where(s, property) > 1 <==> exists|j: int|
            0 <= j < s.len() && j != i && property(#[trigger] s[j]),
{
    lemma_sole(s, property);
    if count_where(s, property) > 1 {
        let n = choose|n: int|
            0 <= n < s.len() && property(#[trigger] s[n]) && last_place(s, property) != Some(n);
        let last = last_place(s, property)->0;
        assert(property(s[n]) && property(s[last]) && n != last);
    } else {
        assert(last_place(s, property) == Some(i));
    }
}

/// Whether an artifact is the only one that fits some invocation.
pub open spec fn is_matched(e: EvidenceView, kept: Seq<InvocationView>, at: int) -> bool {
    exists|i: int| 0 <= i < kept.len() && #[trigger] only_fit(e, kept[i].started, at)
}

/// Cargo and the compiler agree just where every invocation is paired without an issue, every
/// artifact is matched, every pair is of a planned unit, and every unit was compiled as often as it
/// was planned.
pub proof fn law_agreement_leaves_no_errors(e: EvidenceView, kept: Seq<InvocationView>)
    requires
        e.artifacts.len() <= usize::MAX,
    ensures
        correlation_errors(e, kept) == Set::<Seq<char>>::empty() <==> {
            let list = pairs(e, kept);
            &&& forall|i: int| 0 <= i < kept.len() ==> (#[trigger] list[i]).issue is None
            &&& forall|at: int|
                0 <= at < e.artifacts.len() ==> #[trigger] is_matched(e, kept, at)
            &&& forall|i: int|
                0 <= i < kept.len() ==> {
                    let key = correlated_key(e.places.canonical, #[trigger] list[i]);
                    key is Some ==> e.units.contains(key->0)
                }
            &&& forall|n: int|
                0 <= n < e.units.len() ==> observed(e, list, #[trigger] e.units[n]) == occurrences(
                    e.units,
                    e.units[n],
                )
        },
{
    let list = pairs(e, kept);
    let numbered = numbered_artifacts(e.artifacts);
    let errors = correlation_errors(e, kept);
    let f = pair_error();
    let g = unclaimed_error(e, kept);
    let h = unexpected_error(e);
    let c = count_error(e, list);
    assert forall|at: int| 0 <= at < e.artifacts.len() implies (#[trigger] g(numbered[at]) is None
        <==> is_matched(e, kept, at)) by {
        if !unclaimed(e, kept, at as usize) {
            let i = choose|i: int|
                0 <= i < kept.len() && claim(e)(#[trigger] kept[i]) == Some(at as usize);
            law_invocations_match_the_only_fit(e, kept[i].started, at as usize);
            assert(only_fit(e, kept[i].started, at));
        }
        if is_matched(e, kept, at) {
            let i = choose|i: int|
                0 <= i < kept.len() && #[trigger] only_fit(e, kept[i].started, at);
            law_invocations_match_the_only_fit(e, kept[i].started, at as usize);
            assert(claim(e)(kept[i]) == Some(at as usize));
        }
    }
    if errors == Set::<Seq<char>>::empty() {
        assert forall|i: int| 0 <= i < kept.len() implies (#[trigger] list[i]).issue is None by {
            if let Some(error) = f(list[i]) {
                assert(image(list, f).contains(error));
                assert(errors.contains(error));
            }
        }
        assert forall|at: int| 0 <= at < e.artifacts.len() implies #[trigger] is_matched(
            e,
            kept,
            at,
        ) by {
            if let Some(error) = g(numbered[at]) {
                assert(image(numbered, g).contains(error));
                assert(errors.contains(error));
            }
        }
        assert forall|i: int| 0 <= i < kept.len() implies {
            let key = correlated_key(e.places.canonical, #[trigger] list[i]);
            key is Some ==> e.units.contains(key->0)
        } by {
            if let Some(error) = h(list[i]) {
                assert(image(list, h).contains(error));
                assert(errors.contains(error));
            }
        }
        assert forall|n: int| 0 <= n < e.units.len() implies observed(e, list, #[trigger] e.units[n])
            == occurrences(e.units, e.units[n]) by {
            if let Some(error) = c(e.units[n]) {
                assert(image(e.units, c).contains(error));
                assert(errors.contains(error));
            }
        }
    } else {
        let error = choose|error: Seq<char>| errors.contains(error);
        assert(errors.contains(error)) by {
            if forall|error: Seq<char>| !errors.contains(error) {
                assert(errors =~= Set::<Seq<char>>::empty());
            }
        }
        if image(list, f).contains(error) {
            let i = choose|i: int| 0 <= i < list.len() && f(#[trigger] list[i]) == Some(error);
            assert(list[i].issue is Some);
        } else if image(numbered, g).contains(error) {
            let at = choose|at: int|
                0 <= at < numbered.len() && g(#[trigger] numbered[at]) == Some(error);
            assert(g(numbered[at]) is Some);
        } else if image(list, h).contains(error) {
            let i = choose|i: int| 0 <= i < list.len() && h(#[trigger] list[i]) == Some(error);
            assert(h(list[i]) is Some);
        } else {
            let n = choose|n: int| 0 <= n < e.units.len() && c(#[trigger] e.units[n]) == Some(error);
            assert(c(e.units[n]) is Some);
        }
    }
}

/// An invocation stays without an issue just where it had none and its unit, where it has one, was
/// planned and compiled as often as planned.
pub proof fn law_settled_invocations(
    e: EvidenceView,
    list: Seq<CorrelatedInvocationView>,
    pair: CorrelatedInvocationView,
)
    ensures
        settled(e, list, pair).issue is None <==> pair.issue is None && {
            let key = correlated_key(e.places.canonical, pair);
            key is Some ==> e.units.contains(key->0) && count_where(list, compiled(e, key->0))
                == occurrences(e.units, key->0)
        },
        settled(e, list, pair).target == pair.target,
        settled(e, list, pair).invocation == pair.invocation,
        accounted_for(e, list)(pair) <==> {
            let key = correlated_key(e.places.canonical, pair);
            key is Some && e.units.contains(key->0) && count_where(list, compiled(e, key->0))
                == occurrences(e.units, key->0)
        },
{
}

/// Only invocations of selected packages are held against the plan, and all of them; only their
/// artifacts count, and only their planned units.
pub proof fn law_only_selected_packages_count(
    places: LocationsView,
    cargo: CargoRunView,
    packages: Seq<AuditPackageView>,
    units: Seq<ExpectedUnitView>,
    invocations: Seq<InvocationView>,
    invocation: InvocationView,
    artifact: CargoArtifactView,
    key: UnitKeyView,
)
    ensures
        kept_invocations(places.canonical, packages, invocations).contains(invocation)
            <==> invocations.contains(invocation) && invocation.started.manifest_dir is Some
            && exists|n: int|
            0 <= n < packages.len() && selected_ids(packages).contains((#[trigger] packages[n]).id)
                && canonical_key(places.canonical, packages[n].root) == canonical_key(
                places.canonical,
                invocation.started.manifest_dir->0,
            ),
        evidence_of(places, cargo, packages, units).artifacts.contains(artifact)
            <==> cargo.artifacts.contains(artifact) && selected_ids(packages).contains(
            artifact.package_id,
        ),
        evidence_of(places, cargo, packages, units).units.contains(key) <==> exists|n: int|
            0 <= n < units.len() && planned_key(places.canonical, #[trigger] units[n]) == key
                && selected_ids(packages).contains(units[n].package_id),
{
    let selected = selected_ids(packages);
    let f = |other: InvocationView|
        if is_selected(places.canonical, packages, other) {
            Some(other)
        } else {
            None
        };
    let g = |other: CargoArtifactView|
        if selected.contains(other.package_id) {
            Some(other)
        } else {
            None
        };
    let h = selected_unit(places.canonical, selected);
    let p = |package: AuditPackageView|
        selected.contains(package.id) && canonical_key(places.canonical, package.root)
            == canonical_key(places.canonical, invocation.started.manifest_dir->0);
    if invocation.started.manifest_dir is Some && exists|n: int|
        0 <= n < packages.len() && selected_ids(packages).contains((#[trigger] packages[n]).id)
            && canonical_key(places.canonical, packages[n].root) == canonical_key(
            places.canonical,
            invocation.started.manifest_dir->0,
        ) {
        let n = choose|n: int|
            0 <= n < packages.len() && selected_ids(packages).contains((#[trigger] packages[n]).id)
                && canonical_key(places.canonical, packages[n].root) == canonical_key(
                places.canonical,
                invocation.started.manifest_dir->0,
            );
        assert(p(packages[n]));
    }
    if exists|n: int| 0 <= n < packages.len() && p(#[trigger] packages[n]) {
        let n = choose|n: int| 0 <= n < packages.len() && p(#[trigger] packages[n]);
        assert(selected.contains(packages[n].id));
    }
    let kept = kept_invocations(places.canonical, packages, invocations);
    if kept.contains(invocation) {
        let at = lemma_collected_member(invocations, f, invocation);
        assert(invocations[at] == invocation);
    }
    if invocations.contains(invocation) && f(invocation) is Some {
        let at = choose|at: int| 0 <= at < invocations.len() && invocations[at] == invocation;
        lemma_kept(invocations, f, at);
    }
    let evidence = evidence_of(places, cargo, packages, units);
    if evidence.artifacts.contains(artifact) {
        let at = lemma_collected_member(cargo.artifacts, g, artifact);
        assert(cargo.artifacts[at] == artifact);
    }
    if cargo.artifacts.contains(artifact) && selected.contains(artifact.package_id) {
        let at = choose|at: int| 0 <= at < cargo.artifacts.len() && cargo.artifacts[at] == artifact;
        lemma_kept(cargo.artifacts, g, at);
    }
    if evidence.units.contains(key) {
        let at = lemma_collected_member(units, h, key);
        assert(planned_key(places.canonical, units[at]) == key);
    }
    if exists|n: int|
        0 <= n < units.len() && planned_key(places.canonical, #[trigger] units[n]) == key
            && selected_ids(packages).contains(units[n].package_id) {
        let n = choose|n: int|
            0 <= n < units.len() && planned_key(places.canonical, #[trigger] units[n]) == key
                && selected_ids(packages).contains(units[n].package_id);
        lemma_kept(units, h, n);
    }
}

} // verus!
