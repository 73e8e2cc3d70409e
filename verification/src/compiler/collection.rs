//! How compiler facts are collected: when they can be, and what is said where they cannot.

use vstd::prelude::*;

use crate::collections::{
    collect_items, collected, count_where, drop_repeated_keys, first_per_key, first_where,
    lemma_count_bound, no_items, push_item, second, stable_sort, stable_sorted, take_second,
};
use crate::compiler::effective_api::{ProductAvailabilityReport, ProductAvailabilityReportView};
use crate::compiler::environment::{
    custom_cfg_environment_is_safe, sets_flags, EnvironmentVariable, EnvironmentVariableView,
};
use crate::compiler::graph::{canonical_form, look_up, CanonicalPath, CanonicalPathView};
use crate::compiler::inventory::{AuditInventory, AuditPackage, AuditPackageView};
use crate::compiler::outcome::{
    warning, warning_of, CollectedRun, CollectedRunView, GeneratedFileReport,
    GeneratedFileReportView, Outcome, OutcomeView, RunReport, RunReportView,
};
use crate::compiler::sidecar::{reports, result_view};
use crate::model::{ComplexityMetrics, Diagnostic, LineCounts, SemanticStatus};
use crate::paths::{list_path_key, path_from, path_key, resolve};
use crate::protocol::{Handshake, HandshakeView, DRIVER_VERSION, PROTOCOL_VERSION};
use crate::text::{contains_part, decimal, decimal_text, holds_part, join, joined, same};

verus! {

/// The compiler that a run is meant for.
#[derive(Debug, PartialEq, Eq)]
pub struct PinnedCompiler {
    pub version: String,
    pub release: String,
    pub commit: String,
    pub host: String,
}

/// The model of [`PinnedCompiler`].
#[verifier::ext_equal]
pub struct PinnedCompilerView {
    pub version: Seq<char>,
    pub release: Seq<char>,
    pub commit: Seq<char>,
    pub host: Seq<char>,
}

impl DeepView for PinnedCompiler {
    type V = PinnedCompilerView;

    open spec fn deep_view(&self) -> PinnedCompilerView {
        PinnedCompilerView {
            version: self.version.deep_view(),
            release: self.release.deep_view(),
            commit: self.commit.deep_view(),
            host: self.host.deep_view(),
        }
    }
}

impl Clone for PinnedCompiler {
    fn clone(&self) -> (copy: Self)
        ensures
            copy.deep_view() == self.deep_view(),
    {
        let copy = PinnedCompiler {
            version: self.version.clone(),
            release: self.release.clone(),
            commit: self.commit.clone(),
            host: self.host.clone(),
        };
        copy
    }
}

/// What is known before a run: whether compiler facts can be collected at all, why not, and how many packages there are.
#[derive(Debug, PartialEq, Eq)]
pub struct Readiness {
    pub compatible: bool,
    pub reasons: Vec<String>,
    pub packages: usize,
}

/// The model of [`Readiness`].
#[verifier::ext_equal]
pub struct ReadinessView {
    pub compatible: bool,
    pub reasons: Seq<Seq<char>>,
    pub packages: usize,
}

impl DeepView for Readiness {
    type V = ReadinessView;

    open spec fn deep_view(&self) -> ReadinessView {
        ReadinessView {
            compatible: self.compatible,
            reasons: self.reasons.deep_view(),
            packages: self.packages,
        }
    }
}

impl Clone for Readiness {
    fn clone(&self) -> (copy: Self)
        ensures
            copy.deep_view() == self.deep_view(),
    {
        let copy = Readiness {
            compatible: self.compatible,
            reasons: self.reasons.clone(),
            packages: self.packages,
        };
        proof {
            assert(copy.reasons.deep_view() =~= self.reasons.deep_view());
        }
        copy
    }
}

/// Where a driver may be, and whether a file is there.
#[derive(Debug, PartialEq, Eq)]
pub struct DriverCandidate {
    pub path: String,
    pub is_file: bool,
}

/// The model of [`DriverCandidate`].
#[verifier::ext_equal]
pub struct DriverCandidateView {
    pub path: Seq<char>,
    pub is_file: bool,
}

impl DeepView for DriverCandidate {
    type V = DriverCandidateView;

    open spec fn deep_view(&self) -> DriverCandidateView {
        DriverCandidateView {
            path: self.path.deep_view(),
            is_file: self.is_file,
        }
    }
}

impl Clone for DriverCandidate {
    fn clone(&self) -> (copy: Self)
        ensures
            copy.deep_view() == self.deep_view(),
    {
        let copy = DriverCandidate {
            path: self.path.clone(),
            is_file: self.is_file,
        };
        copy
    }
}

/// What a line holds.
#[derive(Clone, Copy, Debug, PartialEq, Eq, Structural)]
pub enum ContentKind {
    Code,
    Comment,
    Blank,
}

impl DeepView for ContentKind {
    type V = ContentKind;

    open spec fn deep_view(&self) -> ContentKind {
        *self
    }
}

/// A line of source: what it holds, whether it documents, and its complexity in parts.
#[derive(Debug, PartialEq, Eq)]
pub struct SourceLine {
    pub kind: ContentKind,
    pub doc: bool,
    pub lexical_complexity: Vec<u32>,
}

/// The model of [`SourceLine`].
#[verifier::ext_equal]
pub struct SourceLineView {
    pub kind: ContentKind,
    pub doc: bool,
    pub lexical_complexity: Seq<u32>,
}

impl DeepView for SourceLine {
    type V = SourceLineView;

    open spec fn deep_view(&self) -> SourceLineView {
        SourceLineView {
            kind: self.kind,
            doc: self.doc,
            lexical_complexity: self.lexical_complexity.deep_view(),
        }
    }
}

impl Clone for SourceLine {
    fn clone(&self) -> (copy: Self)
        ensures
            copy.deep_view() == self.deep_view(),
    {
        let copy = SourceLine {
            kind: self.kind,
            doc: self.doc,
            lexical_complexity: self.lexical_complexity.clone(),
        };
        proof {
            assert(copy.lexical_complexity.deep_view() =~= self.lexical_complexity.deep_view());
        }
        copy
    }
}

/// The largest number of directories of selected packages.
pub const MAX_SELECTED_MANIFEST_DIRS: usize = 4096;

/// The products of a run, by name.
pub open spec fn product_names() -> Seq<Seq<char>> {
    seq![
        "hir_bodies"@,
        "effective_api"@,
        "references"@,
        "required_visibility"@,
        "closed_world_liveness"@,
        "macro_expansion_cyclomatic_delta"@,
    ]
}

/// A product that is unavailable for a reason.
pub open spec fn unavailable_product(reason: Seq<char>) -> spec_fn(Seq<char>) -> Option<
    ProductAvailabilityReportView,
> {
    |product: Seq<char>|
        Some(
            ProductAvailabilityReportView {
                product,
                status: SemanticStatus::Unavailable,
                reason: Some(reason),
            },
        )
}

/// What a run comes to that shows nothing, for a reason.
pub open spec fn unavailable_of(
    pinned: PinnedCompilerView,
    reason: Seq<char>,
    incompatibilities: Seq<Seq<char>>,
) -> OutcomeView {
    OutcomeView {
        report: RunReportView {
            protocol_version: PROTOCOL_VERSION,
            driver_version: decimal(DRIVER_VERSION as nat),
            rustc_version: pinned.release,
            rustc_commit: pinned.commit,
            expected_invocations: 0,
            collected_invocations: 0,
            correlated_invocations: 0,
            invocations: Seq::empty(),
            products: collected(product_names(), unavailable_product(reason)),
            effective_api: None,
            required_visibility: None,
            closed_world: None,
            macro_expansion_complexity: None,
            generated_files: Seq::empty(),
        },
        diagnostics: seq![warning_of(reason)],
        profile_incompatibilities: incompatibilities,
    }
}

fn list_products() -> (names: Vec<String>)
    ensures
        names.deep_view() == product_names(),
{
    let mut names: Vec<String> = no_items();
    push_item(&mut names, "hir_bodies".to_owned());
    push_item(&mut names, "effective_api".to_owned());
    push_item(&mut names, "references".to_owned());
    push_item(&mut names, "required_visibility".to_owned());
    push_item(&mut names, "closed_world_liveness".to_owned());
    push_item(&mut names, "macro_expansion_cyclomatic_delta".to_owned());
    proof {
        assert(names.deep_view() =~= product_names());
    }
    names
}

/// Says that a run shows nothing, for a reason, and which features are to be off, but on.
pub fn unavailable_profile(
    pinned: &PinnedCompiler,
    reason: String,
    incompatibilities: Vec<String>,
) -> (outcome: Outcome)
    ensures
        outcome.deep_view() == unavailable_of(
            pinned.deep_view(),
            reason@,
            incompatibilities.deep_view(),
        ),
{
    let ghost f = unavailable_product(reason@);
    let pick = |product: &String| -> (report: Option<ProductAvailabilityReport>)
        ensures
            report.deep_view() == f(product.deep_view()),
    {
        Some(
            ProductAvailabilityReport {
                product: product.clone(),
                status: SemanticStatus::Unavailable,
                reason: Some(reason.clone()),
            },
        )
    };
    let products = collect_items(&list_products(), pick, Ghost(f));
    let mut diagnostics: Vec<Diagnostic> = no_items();
    push_item(&mut diagnostics, warning(reason.clone()));
    proof {
        assert(diagnostics.deep_view() =~= seq![warning_of(reason@)]);
    }
    Outcome {
        report: RunReport {
            protocol_version: PROTOCOL_VERSION,
            driver_version: decimal_text(DRIVER_VERSION as u128),
            rustc_version: pinned.release.clone(),
            rustc_commit: pinned.commit.clone(),
            expected_invocations: 0,
            collected_invocations: 0,
            correlated_invocations: 0,
            invocations: no_items(),
            products,
            effective_api: None,
            required_visibility: None,
            closed_world: None,
            macro_expansion_complexity: None,
            generated_files: no_items(),
        },
        diagnostics,
        profile_incompatibilities: incompatibilities,
    }
}

/// Says that a run shows nothing, for a reason.
pub fn unavailable(pinned: &PinnedCompiler, reason: String) -> (outcome: Outcome)
    ensures
        outcome.deep_view() == unavailable_of(pinned.deep_view(), reason@, Seq::empty()),
{
    unavailable_profile(pinned, reason, no_items())
}

/// Why a run cannot begin.
pub open spec fn refusal_of(readiness: ReadinessView) -> Option<Seq<char>> {
    if !readiness.compatible {
        Some(joined(readiness.reasons, "; "@))
    } else if readiness.packages == 0 {
        Some("compiler mode requires a Cargo workspace or package"@)
    } else {
        None
    }
}

/// Says why a run cannot begin, where it cannot.
pub fn refusal(readiness: &Readiness) -> (reason: Option<String>)
    ensures
        reason.deep_view() == refusal_of(readiness.deep_view()),
{
    if !readiness.compatible {
        Some(join(&readiness.reasons, "; "))
    } else if readiness.packages == 0 {
        Some("compiler mode requires a Cargo workspace or package".to_owned())
    } else {
        None
    }
}

/// What is said of a failure.
pub open spec fn failure_reason(message: Seq<char>) -> Seq<char> {
    "compiler analysis unavailable: "@ + message
}

/// What collecting comes to: by what is known before it, by the features that are to be off but on,
/// or why they could not be found, and by the run itself, or why it failed.
pub open spec fn collected_outcome(
    pinned: PinnedCompilerView,
    readiness: ReadinessView,
    profile: Result<Seq<Seq<char>>, Seq<char>>,
    run: Result<OutcomeView, Seq<char>>,
) -> OutcomeView {
    match refusal_of(readiness) {
        Some(reason) => unavailable_of(pinned, reason, Seq::empty()),
        None => match profile {
            Err(message) => unavailable_of(pinned, failure_reason(message), Seq::empty()),
            Ok(incompatibilities) => if incompatibilities.len() > 0 {
                unavailable_of(pinned, joined(incompatibilities, "; "@), incompatibilities)
            } else {
                match run {
                    Ok(outcome) => outcome,
                    Err(message) => unavailable_of(
                        pinned,
                        failure_reason(message),
                        Seq::empty(),
                    ),
                }
            },
        },
    }
}

fn write_failure_reason(message: &str) -> (text: String)
    ensures
        text@ == failure_reason(message@),
{
    let mut text = "compiler analysis unavailable: ".to_owned();
    text.append(message);
    text
}

/// Says what collecting comes to. Nothing but a run that could begin and did not fail shows
/// anything.
pub fn collect(
    pinned: &PinnedCompiler,
    readiness: &Readiness,
    profile: Result<Vec<String>, String>,
    run: Result<Outcome, String>,
) -> (outcome: Outcome)
    ensures
        outcome.deep_view() == collected_outcome(
            pinned.deep_view(),
            readiness.deep_view(),
            result_view(profile),
            result_view(run),
        ),
{
    if let Some(reason) = refusal(readiness) {
        return unavailable(pinned, reason);
    }
    let incompatibilities = match profile {
        Ok(incompatibilities) => incompatibilities,
        Err(message) => {
            return unavailable(pinned, write_failure_reason(message.as_str()));
        },
    };
    proof {
        assert(incompatibilities.deep_view().len() == incompatibilities.len());
    }
    if incompatibilities.len() > 0 {
        let reason = join(&incompatibilities, "; ");
        return unavailable_profile(pinned, reason, incompatibilities);
    }
    match run {
        Ok(outcome) => outcome,
        Err(message) => unavailable(pinned, write_failure_reason(message.as_str())),
    }
}

/// What is wrong with setting conditions in an environment.
pub open spec fn custom_cfg_error(
    cfg: Seq<Seq<char>>,
    variables: Seq<EnvironmentVariableView>,
) -> Option<Seq<char>> {
    if cfg.len() > 0 && crate::collections::any_where(
        variables,
        |variable: EnvironmentVariableView| sets_flags(variable.name),
    ) {
        Some("custom --cfg cannot be composed with configured rustflag environment variables"@)
    } else {
        None
    }
}

/// Checks that conditions can be set in an environment.
pub fn check_custom_cfg(cfg: &Vec<String>, variables: &Vec<EnvironmentVariable>) -> (result: Result<
    (),
    String,
>)
    ensures
        reports(result, custom_cfg_error(cfg.deep_view(), variables.deep_view())),
{
    proof {
        assert(cfg.deep_view().len() == cfg.len());
    }
    if cfg.len() > 0 && !custom_cfg_environment_is_safe(variables) {
        Err(
            "custom --cfg cannot be composed with configured rustflag environment variables".to_owned(),
        )
    } else {
        Ok(())
    }
}

/// Whether a run shows that a wrapper for all compilers failed at the first question about the
/// driver.
pub open spec fn probe_failed(run: CollectedRunView, driver: Seq<char>) -> bool {
    run.cargo.artifacts.len() == 0 && run.cargo.failures.len() == 0 && run.invocations.len() == 0
        && holds_part(run.cargo.stderr, driver) && (holds_part(run.cargo.stderr, " -vV"@)
        || holds_part(run.cargo.stderr, " -Vv"@))
}

/// Tells whether a run shows that a wrapper for all compilers failed at the first question about the
/// driver.
pub fn wrapper_probe_failed(run: &CollectedRun, driver: &str) -> (result: bool)
    ensures
        result == probe_failed(run.deep_view(), driver@),
{
    let ghost told = run.deep_view();
    proof {
        assert(told.cargo.artifacts.len() == run.cargo.artifacts.len());
        assert(told.cargo.failures.len() == run.cargo.failures.len());
        assert(told.invocations.len() == run.invocations.len());
    }
    run.cargo.artifacts.len() == 0 && run.cargo.failures.len() == 0 && run.invocations.len() == 0
        && contains_part(run.cargo.stderr.as_str(), driver) && (contains_part(
        run.cargo.stderr.as_str(),
        " -vV",
    ) || contains_part(run.cargo.stderr.as_str(), " -Vv"))
}

/// Tells whether a run is to be repeated without the wrapper for all compilers: there is one, and
/// facts are missing or it failed.
pub fn must_retry(
    ordinary_wrapper: bool,
    missing_invoked_sidecars: usize,
    run: &CollectedRun,
    driver: &str,
) -> (retry: bool)
    ensures
        retry == (ordinary_wrapper && (missing_invoked_sidecars > 0 || probe_failed(
            run.deep_view(),
            driver@,
        ))),
{
    ordinary_wrapper && (missing_invoked_sidecars > 0 || wrapper_probe_failed(run, driver))
}

/// The directory of a selected package, with what it is ordered by.
pub open spec fn directory_entry(known: Seq<CanonicalPathView>) -> spec_fn(
    AuditPackageView,
) -> Option<(Seq<(usize, Seq<char>)>, Seq<char>)> {
    |package: AuditPackageView|
        if package.selected {
            let place = canonical_form(known, package.root);
            Some((path_key(place), place))
        } else {
            None
        }
}

/// The directories of selected packages, in order and each once.
pub open spec fn directories_of(packages: Seq<AuditPackageView>, known: Seq<CanonicalPathView>) -> Seq<
    Seq<char>,
> {
    second(
        first_per_key(
            stable_sorted::<Vec<(usize, String)>, String>(
                collected(packages, directory_entry(known)),
            ),
        ),
    )
}

/// What is wrong with the directories of selected packages.
pub open spec fn directories_error(directories: Seq<Seq<char>>) -> Option<Seq<char>> {
    if directories.len() == 0 {
        Some("compiler mode selected no Cargo package manifests"@)
    } else if directories.len() > MAX_SELECTED_MANIFEST_DIRS {
        Some(
            "compiler mode selected "@ + decimal(directories.len())
                + " package manifests, exceeding the limit "@ + decimal(
                MAX_SELECTED_MANIFEST_DIRS as nat,
            ),
        )
    } else {
        None
    }
}

/// Lists the directories of selected packages, in order and each once.
pub fn selected_manifest_dirs(inventory: &AuditInventory, known: &Vec<CanonicalPath>) -> (result:
    Result<Vec<String>, String>)
    ensures
        reports(
            result,
            directories_error(directories_of(inventory.packages.deep_view(), known.deep_view())),
        ),
        result matches Ok(directories) ==> directories.deep_view() == directories_of(
            inventory.packages.deep_view(),
            known.deep_view(),
        ),
{
    let ghost f = directory_entry(known.deep_view());
    let pick = |package: &AuditPackage| -> (entry: Option<(Vec<(usize, String)>, String)>)
        ensures
            entry.deep_view() == f(package.deep_view()),
    {
        if package.selected {
            let place = look_up(known, package.root.as_str());
            Some((list_path_key(place.as_str()), place))
        } else {
            None
        }
    };
    let directories = take_second(
        drop_repeated_keys(stable_sort(collect_items(&inventory.packages, pick, Ghost(f)))),
    );
    proof {
        assert(directories.deep_view().len() == directories.len());
    }
    if directories.len() == 0 {
        return Err("compiler mode selected no Cargo package manifests".to_owned());
    }
    if directories.len() > MAX_SELECTED_MANIFEST_DIRS {
        let mut message = "compiler mode selected ".to_owned();
        message.append(decimal_text(directories.len() as u128).as_str());
        message.append(" package manifests, exceeding the limit ");
        message.append(decimal_text(MAX_SELECTED_MANIFEST_DIRS as u128).as_str());
        return Err(message);
    }
    Ok(directories)
}

/// What is wrong with the handshake of a driver.
pub open spec fn handshake_error(handshake: HandshakeView, pinned: PinnedCompilerView) -> Option<
    Seq<char>,
> {
    if handshake.protocol_version != PROTOCOL_VERSION {
        Some(
            "compiler protocol mismatch: rot expects "@ + decimal(PROTOCOL_VERSION as nat)
                + ", driver reports "@ + decimal(handshake.protocol_version as nat),
        )
    } else if handshake.driver_version != DRIVER_VERSION {
        Some(
            "compiler driver mismatch: rot expects "@ + decimal(DRIVER_VERSION as nat)
                + ", driver reports "@ + decimal(handshake.driver_version as nat),
        )
    } else if handshake.linked_rustc_version != pinned.version {
        Some(
            "compiler driver linked-rustc mismatch: expected "@ + pinned.version + ", found "@
                + handshake.linked_rustc_version,
        )
    } else if handshake.rustc.commit_hash != pinned.commit || handshake.rustc.release
        != pinned.release {
        Some(
            "compiler toolchain mismatch: expected "@ + pinned.release + " ("@ + pinned.commit
                + "), found "@ + handshake.rustc.release + " ("@ + handshake.rustc.commit_hash
                + ")"@,
        )
    } else if handshake.rustc.host != pinned.host {
        Some(
            "compiler host mismatch: expected "@ + pinned.host + ", found "@
                + handshake.rustc.host,
        )
    } else {
        None
    }
}

/// Checks that a driver speaks the same protocol and is linked to the compiler that a run is meant
/// for: its release, its commit and its host.
pub fn check_handshake(handshake: &Handshake, pinned: &PinnedCompiler) -> (result: Result<
    (),
    String,
>)
    ensures
        reports(result, handshake_error(handshake.deep_view(), pinned.deep_view())),
{
    if handshake.protocol_version != PROTOCOL_VERSION {
        let mut message = "compiler protocol mismatch: rot expects ".to_owned();
        message.append(decimal_text(PROTOCOL_VERSION as u128).as_str());
        message.append(", driver reports ");
        message.append(decimal_text(handshake.protocol_version as u128).as_str());
        return Err(message);
    }
    if handshake.driver_version != DRIVER_VERSION {
        let mut message = "compiler driver mismatch: rot expects ".to_owned();
        message.append(decimal_text(DRIVER_VERSION as u128).as_str());
        message.append(", driver reports ");
        message.append(decimal_text(handshake.driver_version as u128).as_str());
        return Err(message);
    }
    if !same(handshake.linked_rustc_version.as_str(), pinned.version.as_str()) {
        let mut message = "compiler driver linked-rustc mismatch: expected ".to_owned();
        message.append(pinned.version.as_str());
        message.append(", found ");
        message.append(handshake.linked_rustc_version.as_str());
        return Err(message);
    }
    if !same(handshake.rustc.commit_hash.as_str(), pinned.commit.as_str()) || !same(
        handshake.rustc.release.as_str(),
        pinned.release.as_str(),
    ) {
        let mut message = "compiler toolchain mismatch: expected ".to_owned();
        message.append(pinned.release.as_str());
        message.append(" (");
        message.append(pinned.commit.as_str());
        message.append("), found ");
        message.append(handshake.rustc.release.as_str());
        message.append(" (");
        message.append(handshake.rustc.commit_hash.as_str());
        message.append(")");
        return Err(message);
    }
    if !same(handshake.rustc.host.as_str(), pinned.host.as_str()) {
        let mut message = "compiler host mismatch: expected ".to_owned();
        message.append(pinned.host.as_str());
        message.append(", found ");
        message.append(handshake.rustc.host.as_str());
        return Err(message);
    }
    Ok(())
}

/// Where a driver may be: beside the program, or where its release or debug build leaves it.
pub open spec fn driver_places_of(
    executable_directory: Option<Seq<char>>,
    repository: Seq<char>,
    filename: Seq<char>,
) -> Seq<Seq<char>> {
    (match executable_directory {
        Some(directory) => seq![path_from(directory, filename)],
        None => Seq::empty(),
    }) + seq![
        path_from(
            path_from(repository, "compiler/rot-rustc-driver/target/release"@),
            filename,
        ),
        path_from(path_from(repository, "compiler/rot-rustc-driver/target/debug"@), filename),
    ]
}

/// Lists where a driver may be.
pub fn driver_places(executable_directory: &Option<String>, repository: &str, filename: &str) -> (
    places: Vec<String>)
    ensures
        places.deep_view() == driver_places_of(
            executable_directory.deep_view(),
            repository@,
            filename@,
        ),
{
    let mut places: Vec<String> = no_items();
    if let Some(directory) = executable_directory {
        push_item(&mut places, resolve(directory.as_str(), filename));
    }
    let ghost first = places.deep_view();
    let release = resolve(repository, "compiler/rot-rustc-driver/target/release");
    let debug = resolve(repository, "compiler/rot-rustc-driver/target/debug");
    push_item(&mut places, resolve(release.as_str(), filename));
    push_item(&mut places, resolve(debug.as_str(), filename));
    proof {
        assert(places.deep_view() =~= driver_places_of(
            executable_directory.deep_view(),
            repository@,
            filename@,
        ));
    }
    places
}

/// Where the driver is: where it is said to be, else the first place that it may be where there is a
/// file.
pub open spec fn driver_of(
    explicit: Option<DriverCandidateView>,
    candidates: Seq<DriverCandidateView>,
) -> Result<Seq<char>, Seq<char>> {
    match explicit {
        Some(candidate) => if candidate.is_file {
            Ok(candidate.path)
        } else {
            Err("compiler driver "@ + candidate.path + " does not exist"@)
        },
        None => match first_where(candidates, |candidate: DriverCandidateView| candidate.is_file) {
            Some(candidate) => Ok(candidate.path),
            None => Err(
                "rot-rustc-driver was not found; build compiler/rot-rustc-driver or pass --compiler-driver PATH"@,
            ),
        },
    }
}

/// Finds the driver.
pub fn locate_driver(explicit: &Option<DriverCandidate>, candidates: &Vec<DriverCandidate>) -> (
    result: Result<String, String>)
    ensures
        result_view(result) == driver_of(
            explicit.deep_view(),
            candidates.deep_view(),
        ),
{
    if let Some(candidate) = explicit {
        if candidate.is_file {
            return Ok(candidate.path.clone());
        }
        let mut message = "compiler driver ".to_owned();
        message.append(candidate.path.as_str());
        message.append(" does not exist");
        return Err(message);
    }
    let ghost property = |candidate: DriverCandidateView| candidate.is_file;
    let test = |candidate: &DriverCandidate| -> (result: bool)
        ensures
            result == property(candidate.deep_view()),
    {
        candidate.is_file
    };
    match crate::collections::find_first(candidates, test, Ghost(property)) {
        Some(candidate) => Ok(candidate.path.clone()),
        None => Err(
            "rot-rustc-driver was not found; build compiler/rot-rustc-driver or pass --compiler-driver PATH".to_owned(),
        ),
    }
}

/// Whether a line holds something.
pub open spec fn holds_kind(kind: ContentKind) -> spec_fn(SourceLineView) -> bool {
    |line: SourceLineView| line.kind == kind
}

/// Whether a line is a comment that documents.
pub open spec fn documents() -> spec_fn(SourceLineView) -> bool {
    |line: SourceLineView| line.kind == ContentKind::Comment && line.doc
}

/// How many lines there are of each kind.
pub open spec fn line_totals(lines: Seq<SourceLineView>) -> LineCounts {
    LineCounts {
        physical: lines.len() as u64,
        code: count_where(lines, holds_kind(ContentKind::Code)) as u64,
        comments: count_where(lines, holds_kind(ContentKind::Comment)) as u64,
        docs: count_where(lines, documents()) as u64,
        blank: count_where(lines, holds_kind(ContentKind::Blank)) as u64,
    }
}

/// The sum of some numbers.
pub open spec fn sum_of(numbers: Seq<u32>) -> nat
    decreases numbers.len(),
{
    if numbers.len() == 0 {
        0
    } else {
        sum_of(numbers.drop_last()) + numbers.last() as nat
    }
}

/// The complexity of some lines.
pub open spec fn lexical_total(lines: Seq<SourceLineView>) -> nat
    decreases lines.len(),
{
    if lines.len() == 0 {
        0
    } else {
        lexical_total(lines.drop_last()) + sum_of(lines.last().lexical_complexity)
    }
}

/// The complexity of some pieces of source, by one of its measures.
pub open spec fn measure_total(
    facts: Seq<ComplexityMetrics>,
    measure: spec_fn(ComplexityMetrics) -> u64,
) -> nat
    decreases facts.len(),
{
    if facts.len() == 0 {
        0
    } else {
        measure_total(facts.drop_last(), measure) + measure(facts.last()) as nat
    }
}

/// The lexical complexity of a piece of source.
pub open spec fn lexical_measure() -> spec_fn(ComplexityMetrics) -> u64 {
    |metrics: ComplexityMetrics| metrics.lexical_complexity
}

/// The cyclomatic complexity of a piece of source.
pub open spec fn cyclomatic_measure() -> spec_fn(ComplexityMetrics) -> u64 {
    |metrics: ComplexityMetrics| metrics.cyclomatic_authored
}

/// The cognitive complexity of a piece of source.
pub open spec fn cognitive_measure() -> spec_fn(ComplexityMetrics) -> u64 {
    |metrics: ComplexityMetrics| metrics.cognitive_authored
}

/// The complexity of lines and of the pieces of source in them.
pub open spec fn metric_totals(
    lines: Seq<SourceLineView>,
    facts: Seq<ComplexityMetrics>,
) -> ComplexityMetrics {
    ComplexityMetrics {
        lexical_complexity: (lexical_total(lines) + measure_total(facts, lexical_measure())) as u64,
        cyclomatic_authored: measure_total(facts, cyclomatic_measure()) as u64,
        cognitive_authored: measure_total(facts, cognitive_measure()) as u64,
    }
}

/// Whether all sums of complexity fit.
pub open spec fn totals_fit(lines: Seq<SourceLineView>, facts: Seq<ComplexityMetrics>) -> bool {
    lexical_total(lines) + measure_total(facts, lexical_measure()) <= u64::MAX && measure_total(
        facts,
        cyclomatic_measure(),
    ) <= u64::MAX && measure_total(facts, cognitive_measure()) <= u64::MAX
}

proof fn lemma_lexical_grows(lines: Seq<SourceLineView>, count: int)
    requires
        0 <= count <= lines.len(),
    ensures
        lexical_total(lines.take(count)) <= lexical_total(lines),
    decreases lines.len() - count,
{
    if count < lines.len() {
        assert(lines.take(count + 1).drop_last() =~= lines.take(count));
        lemma_lexical_grows(lines, count + 1);
    } else {
        assert(lines.take(count) =~= lines);
    }
}

proof fn lemma_measure_grows(
    facts: Seq<ComplexityMetrics>,
    measure: spec_fn(ComplexityMetrics) -> u64,
    count: int,
)
    requires
        0 <= count <= facts.len(),
    ensures
        measure_total(facts.take(count), measure) <= measure_total(facts, measure),
    decreases facts.len() - count,
{
    if count < facts.len() {
        assert(facts.take(count + 1).drop_last() =~= facts.take(count));
        lemma_measure_grows(facts, measure, count + 1);
    } else {
        assert(facts.take(count) =~= facts);
    }
}

proof fn lemma_sum_grows(numbers: Seq<u32>, count: int)
    requires
        0 <= count <= numbers.len(),
    ensures
        sum_of(numbers.take(count)) <= sum_of(numbers),
    decreases numbers.len() - count,
{
    if count < numbers.len() {
        assert(numbers.take(count + 1).drop_last() =~= numbers.take(count));
        lemma_sum_grows(numbers, count + 1);
    } else {
        assert(numbers.take(count) =~= numbers);
    }
}

fn add_numbers(start: u64, numbers: &Vec<u32>) -> (total: u64)
    requires
        start + sum_of(numbers@) <= u64::MAX,
    ensures
        total == start + sum_of(numbers@),
{
    let mut total: u64 = start;
    let mut at: usize = 0;
    proof {
        assert(numbers@.take(0) =~= Seq::<u32>::empty());
    }
    while at < numbers.len()
        invariant
            at <= numbers.len(),
            start + sum_of(numbers@) <= u64::MAX,
            total == start + sum_of(numbers@.take(at as int)),
        decreases numbers.len() - at,
    {
        proof {
            assert(numbers@.take(at as int + 1).drop_last() =~= numbers@.take(at as int));
            lemma_sum_grows(numbers@, at as int + 1);
        }
        total = total + numbers[at] as u64;
        at = at + 1;
    }
    proof {
        assert(numbers@.take(numbers.len() as int) =~= numbers@);
    }
    total
}

fn total_lexical(lines: &Vec<SourceLine>) -> (total: u64)
    requires
        lexical_total(lines.deep_view()) <= u64::MAX,
    ensures
        total == lexical_total(lines.deep_view()),
{
    let ghost all = lines.deep_view();
    let mut total: u64 = 0;
    let mut at: usize = 0;
    proof {
        assert(all.take(0) =~= Seq::<SourceLineView>::empty());
    }
    while at < lines.len()
        invariant
            all == lines.deep_view(),
            lexical_total(all) <= u64::MAX,
            at <= all.len(),
            total == lexical_total(all.take(at as int)),
        decreases all.len() - at,
    {
        proof {
            assert(all[at as int] == lines[at as int].deep_view());
            assert(all.take(at as int + 1).drop_last() =~= all.take(at as int));
            assert(lines[at as int].lexical_complexity.deep_view()
                =~= lines[at as int].lexical_complexity@);
            lemma_lexical_grows(all, at as int + 1);
        }
        total = add_numbers(total, &lines[at].lexical_complexity);
        at = at + 1;
    }
    proof {
        assert(all.take(all.len() as int) =~= all);
    }
    total
}

fn count_lines(lines: &Vec<SourceLine>) -> (counts: LineCounts)
    ensures
        counts == line_totals(lines.deep_view()),
{
    let ghost all = lines.deep_view();
    let code = count_kind(lines, ContentKind::Code);
    let comments = count_kind(lines, ContentKind::Comment);
    let blank = count_kind(lines, ContentKind::Blank);
    let ghost property = documents();
    let test = |line: &SourceLine| -> (result: bool)
        ensures
            result == property(line.deep_view()),
    {
        line.kind == ContentKind::Comment && line.doc
    };
    let docs = crate::collections::count_items(lines, test, Ghost(property));
    proof {
        assert(all.len() == lines.len());
        lemma_count_bound(all, documents());
    }
    LineCounts { physical: lines.len() as u64, code, comments, docs: docs as u64, blank }
}

fn count_kind(lines: &Vec<SourceLine>, kind: ContentKind) -> (count: u64)
    ensures
        count == count_where(lines.deep_view(), holds_kind(kind)),
{
    let ghost all = lines.deep_view();
    let ghost property = holds_kind(kind);
    let test = |line: &SourceLine| -> (result: bool)
        ensures
            result == property(line.deep_view()),
    {
        line.kind == kind
    };
    let count = crate::collections::count_items(lines, test, Ghost(property));
    count as u64
}

/// Adds up the lines of a source, and the complexity of them and of the pieces of source in them.
pub fn source_totals(lines: &Vec<SourceLine>, facts: &Vec<ComplexityMetrics>) -> (totals: (
    LineCounts,
    ComplexityMetrics,
))
    requires
        totals_fit(lines.deep_view(), facts.deep_view()),
    ensures
        totals.0 == line_totals(lines.deep_view()),
        totals.1 == metric_totals(lines.deep_view(), facts.deep_view()),
{
    let ghost all = facts.deep_view();
    let ghost start = lexical_total(lines.deep_view());
    let mut metrics = ComplexityMetrics {
        lexical_complexity: total_lexical(lines),
        cyclomatic_authored: 0,
        cognitive_authored: 0,
    };
    let mut at: usize = 0;
    proof {
        assert(all.take(0) =~= Seq::<ComplexityMetrics>::empty());
    }
    while at < facts.len()
        invariant
            all == facts.deep_view(),
            at <= all.len(),
            start + measure_total(all, lexical_measure()) <= u64::MAX,
            measure_total(all, cyclomatic_measure()) <= u64::MAX,
            measure_total(all, cognitive_measure()) <= u64::MAX,
            metrics.lexical_complexity == start + measure_total(
                all.take(at as int),
                lexical_measure(),
            ),
            metrics.cyclomatic_authored == measure_total(
                all.take(at as int),
                cyclomatic_measure(),
            ),
            metrics.cognitive_authored == measure_total(all.take(at as int), cognitive_measure()),
        decreases all.len() - at,
    {
        proof {
            assert(all[at as int] == facts[at as int]);
            assert(all.take(at as int + 1).drop_last() =~= all.take(at as int));
            lemma_measure_grows(all, lexical_measure(), at as int + 1);
            lemma_measure_grows(all, cyclomatic_measure(), at as int + 1);
            lemma_measure_grows(all, cognitive_measure(), at as int + 1);
        }
        metrics.add(facts[at]);
        at = at + 1;
    }
    proof {
        assert(all.take(all.len() as int) =~= all);
    }
    (count_lines(lines), metrics)
}

/// Every line is counted once, as code, comment or blank, and only comments document.
pub proof fn law_lines_are_counted_once(lines: Seq<SourceLineView>)
    requires
        lines.len() <= u64::MAX,
    ensures
        line_totals(lines).physical == line_totals(lines).code + line_totals(lines).comments
            + line_totals(lines).blank,
        line_totals(lines).docs <= line_totals(lines).comments,
{
    lemma_lines_counted(lines);
    lemma_count_bound(lines, holds_kind(ContentKind::Code));
    lemma_count_bound(lines, holds_kind(ContentKind::Comment));
    lemma_count_bound(lines, holds_kind(ContentKind::Blank));
    lemma_count_bound(lines, documents());
}

proof fn lemma_lines_counted(lines: Seq<SourceLineView>)
    ensures
        lines.len() == count_where(lines, holds_kind(ContentKind::Code)) + count_where(
            lines,
            holds_kind(ContentKind::Comment),
        ) + count_where(lines, holds_kind(ContentKind::Blank)),
        count_where(lines, documents()) <= count_where(lines, holds_kind(ContentKind::Comment)),
    decreases lines.len(),
{
    if lines.len() > 0 {
        let shorter = lines.drop_last();
        lemma_lines_counted(shorter);
    }
}

/// Generated sources in the order of their names.
pub open spec fn generated_in_order(files: Seq<GeneratedFileReportView>) -> Seq<
    GeneratedFileReportView,
> {
    second(
        stable_sorted::<String, GeneratedFileReport>(
            collected(files, |file: GeneratedFileReportView| Some((file.path, file))),
        ),
    )
}

/// Sorts generated sources by their names.
pub fn sort_generated(files: &Vec<GeneratedFileReport>) -> (sorted: Vec<GeneratedFileReport>)
    ensures
        sorted.deep_view() == generated_in_order(files.deep_view()),
{
    let ghost f = |file: GeneratedFileReportView| Some((file.path, file));
    let pick = |file: &GeneratedFileReport| -> (entry: Option<(String, GeneratedFileReport)>)
        ensures
            entry.deep_view() == f(file.deep_view()),
    {
        Some((file.path.clone(), file.clone()))
    };
    take_second(stable_sort(collect_items(files, pick, Ghost(f))))
}

/// Where a run cannot begin or fails, nothing is shown: no product is complete or partial, nothing
/// was expected, and the reason is the one thing that is said.
pub proof fn law_failures_show_nothing(
    pinned: PinnedCompilerView,
    readiness: ReadinessView,
    profile: Result<Seq<Seq<char>>, Seq<char>>,
    run: Result<OutcomeView, Seq<char>>,
)
    requires
        refusal_of(readiness) is Some || profile is Err || profile->Ok_0.len() > 0 || run is Err,
    ensures
        ({
            let outcome = collected_outcome(pinned, readiness, profile, run);
            &&& outcome.report.invocations.len() == 0
            &&& outcome.report.products.len() == product_names().len()
            &&& forall|i: int|
                0 <= i < outcome.report.products.len() ==> (
                #[trigger] outcome.report.products[i]).status == SemanticStatus::Unavailable
            &&& outcome.report.effective_api is None
            &&& outcome.report.required_visibility is None
            &&& outcome.report.closed_world is None
            &&& outcome.report.macro_expansion_complexity is None
            &&& outcome.diagnostics.len() == 1
        }),
{
    let outcome = collected_outcome(pinned, readiness, profile, run);
    let reason = outcome.diagnostics[0].message;
    let f = unavailable_product(reason);
    crate::collections::lemma_collected_whole(product_names(), f);
    assert(outcome.report.products == collected(product_names(), f));
    assert forall|i: int| 0 <= i < outcome.report.products.len() implies (
    #[trigger] outcome.report.products[i]).status == SemanticStatus::Unavailable by {
        assert(f(product_names()[i]) == Some(outcome.report.products[i]));
    }
}

} // verus!
