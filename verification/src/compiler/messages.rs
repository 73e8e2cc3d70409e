//! What Cargo says while it builds.

use vstd::prelude::*;

use crate::collections::{
    ascending, collect_items, collected, drop_repeated_keys, find_last, first_per_key, last_place,
    no_items, push_item, second, sorted_unique, stable_sort, stable_sorted, take_second,
};
use crate::compiler::cargo::{
    BuildScriptOutput, BuildScriptOutputView, CargoArtifact, CargoArtifactView, CargoFailure,
    CargoFailureView, CargoProfile, CargoRun, CargoRunView,
};
use crate::compiler::environment::{lossy_text, read_lossy};
use crate::compiler::graph::{canonical_form, look_up, CanonicalPath, CanonicalPathView};
use crate::compiler::sidecar::reports;
use crate::paths::{list_path_key, path_key};

verus! {

/// How bad it is what a compiler says.
#[derive(Clone, Copy, Debug, PartialEq, Eq, Structural)]
pub enum MessageLevel {
    Ice,
    Error,
    Warning,
    FailureNote,
    Note,
    Help,
    Unknown,
}

impl DeepView for MessageLevel {
    type V = MessageLevel;

    open spec fn deep_view(&self) -> MessageLevel {
        *self
    }
}

/// What a compiler says of a target.
#[derive(Debug, PartialEq, Eq)]
pub struct CompilerSaying {
    pub level: MessageLevel,
    pub failure: CargoFailure,
}

/// The model of [`CompilerSaying`].
#[verifier::ext_equal]
pub struct CompilerSayingView {
    pub level: MessageLevel,
    pub failure: CargoFailureView,
}

impl DeepView for CompilerSaying {
    type V = CompilerSayingView;

    open spec fn deep_view(&self) -> CompilerSayingView {
        CompilerSayingView {
            level: self.level,
            failure: self.failure.deep_view(),
        }
    }
}

impl Clone for CompilerSaying {
    fn clone(&self) -> (copy: Self)
        ensures
            copy.deep_view() == self.deep_view(),
    {
        let copy = CompilerSaying {
            level: self.level,
            failure: self.failure.clone(),
        };
        proof {
            assert(copy.failure.deep_view() =~= self.failure.deep_view());
        }
        copy
    }
}

/// What Cargo says while it builds.
#[derive(Debug, PartialEq, Eq)]
pub enum CargoMessage {
    Artifact(CargoArtifact),
    Compiler(CompilerSaying),
    BuildScript(BuildScriptOutput),
    Finished(bool),
    TextLine(String),
    Unknown,
}

/// The model of [`CargoMessage`].
pub enum CargoMessageView {
    Artifact(CargoArtifactView),
    Compiler(CompilerSayingView),
    BuildScript(BuildScriptOutputView),
    Finished(bool),
    TextLine(Seq<char>),
    Unknown,
}

impl DeepView for CargoMessage {
    type V = CargoMessageView;

    open spec fn deep_view(&self) -> CargoMessageView {
        match self {
            CargoMessage::Artifact(value) => CargoMessageView::Artifact(value.deep_view()),
            CargoMessage::Compiler(value) => CargoMessageView::Compiler(value.deep_view()),
            CargoMessage::BuildScript(value) => CargoMessageView::BuildScript(value.deep_view()),
            CargoMessage::Finished(value) => CargoMessageView::Finished(*value),
            CargoMessage::TextLine(value) => CargoMessageView::TextLine(value.deep_view()),
            CargoMessage::Unknown => CargoMessageView::Unknown,
        }
    }
}

impl Clone for CargoMessage {
    fn clone(&self) -> (copy: Self)
        ensures
            copy.deep_view() == self.deep_view(),
    {
        match self {
            CargoMessage::Artifact(value) => CargoMessage::Artifact(value.clone()),
            CargoMessage::Compiler(value) => CargoMessage::Compiler(value.clone()),
            CargoMessage::BuildScript(value) => CargoMessage::BuildScript(value.clone()),
            CargoMessage::Finished(value) => CargoMessage::Finished(*value),
            CargoMessage::TextLine(value) => CargoMessage::TextLine(value.clone()),
            CargoMessage::Unknown => CargoMessage::Unknown,
        }
    }
}

/// How many lines that are no messages are kept.
pub const MAX_TEXT_LINES: usize = 32;

/// How much is kept of what Cargo writes besides its messages, in bytes.
pub const MAX_STDERR_BYTES: usize = 16 * 1024;

/// What Cargo said, by the bytes that it wrote, where they are lines of text.
pub uninterp spec fn cargo_messages(bytes: Seq<u8>) -> Option<Seq<CargoMessageView>>;

/// A message of Cargo.
#[verifier::external_type_specification]
#[verifier::external_body]
pub struct ExMessage(cargo_metadata::Message);

/// An artifact in a message of Cargo.
#[verifier::external_type_specification]
#[verifier::external_body]
pub struct ExArtifact(cargo_metadata::Artifact);

/// The profile of an artifact in a message of Cargo.
#[verifier::external_type_specification]
#[verifier::external_body]
pub struct ExArtifactProfile(cargo_metadata::ArtifactProfile);

/// The output of a build script in a message of Cargo.
#[verifier::external_type_specification]
#[verifier::external_body]
pub struct ExBuildScript(cargo_metadata::BuildScript);

/// What a compiler says in a message of Cargo.
#[verifier::external_type_specification]
#[verifier::external_body]
pub struct ExCompilerMessage(cargo_metadata::CompilerMessage);

/// How bad it is what a compiler says in a message of Cargo.
#[verifier::external_type_specification]
#[verifier::external_body]
pub struct ExDiagnosticLevel(cargo_metadata::diagnostic::DiagnosticLevel);

/// Reads the messages of Cargo with `cargo_metadata::Message::parse_stream`, which takes a line that
/// is no message for a line of text and fails on bytes that are no text. What it reads depends on
/// the bytes alone; how messages are written is left unsaid. Messages that nest too deeply for the
/// stack of the thread are not provided for.
#[verifier::external_body]
fn parse_messages(bytes: &Vec<u8>) -> (messages: Option<Vec<CargoMessage>>)
    ensures
        messages.deep_view() == cargo_messages(bytes@),
{
    let stream = cargo_metadata::Message::parse_stream(std::io::Cursor::new(bytes));
    stream.map(|message| message.ok().map(convert_message)).collect()
}

/// Takes a message of Cargo apart, for [`parse_messages`].
#[verifier::external_body]
fn convert_message(message: cargo_metadata::Message) -> CargoMessage {
    match message {
        cargo_metadata::Message::CompilerArtifact(it) => CargoMessage::Artifact(
            convert_artifact(it),
        ),
        cargo_metadata::Message::CompilerMessage(it) => CargoMessage::Compiler(convert_saying(it)),
        cargo_metadata::Message::BuildScriptExecuted(it) => CargoMessage::BuildScript(
            convert_script(it),
        ),
        cargo_metadata::Message::BuildFinished(it) => CargoMessage::Finished(it.success),
        cargo_metadata::Message::TextLine(line) => CargoMessage::TextLine(line),
        _ => CargoMessage::Unknown,
    }
}

/// Takes the output of a build script in a message of Cargo apart, for [`convert_message`].
#[verifier::external_body]
fn convert_script(it: cargo_metadata::BuildScript) -> BuildScriptOutput {
    BuildScriptOutput {
        package_id: it.package_id.to_string(),
        out_dir: it.out_dir.into_string(),
        cfg: it.cfgs,
    }
}

/// Takes the profile of an artifact in a message of Cargo apart, for [`convert_artifact`].
#[verifier::external_body]
fn convert_profile(it: cargo_metadata::ArtifactProfile) -> CargoProfile {
    CargoProfile {
        opt_level: it.opt_level,
        debug_assertions: it.debug_assertions,
        overflow_checks: it.overflow_checks,
    }
}

/// Takes an artifact in a message of Cargo apart, for [`convert_message`].
#[verifier::external_body]
fn convert_artifact(it: cargo_metadata::Artifact) -> CargoArtifact {
    CargoArtifact {
        package_id: it.package_id.to_string(),
        manifest_path: it.manifest_path.into_string(),
        target_name: it.target.name,
        target_kinds: it.target.kind.iter().map(ToString::to_string).collect(),
        target_crate_types: it.target.crate_types.iter().map(ToString::to_string).collect(),
        target_source: it.target.src_path.into_string(),
        profile_test: it.profile.test,
        profile: convert_profile(it.profile),
        features: it.features,
        filenames: it.filenames.into_iter().map(|path| path.into_string()).collect(),
        fresh: it.fresh,
    }
}

/// Takes what a compiler says in a message of Cargo apart, for [`convert_message`].
#[verifier::external_body]
fn convert_saying(it: cargo_metadata::CompilerMessage) -> CompilerSaying {
    CompilerSaying {
        level: convert_level(it.message.level),
        failure: CargoFailure {
            package_id: it.package_id.to_string(),
            target_name: it.target.name,
            target_kinds: it.target.kind.iter().map(ToString::to_string).collect(),
            target_crate_types: it.target.crate_types.iter().map(ToString::to_string).collect(),
            target_source: it.target.src_path.into_string(),
            message: it.message.message,
        },
    }
}

/// Tells levels of messages apart, for [`convert_saying`].
#[verifier::external_body]
fn convert_level(level: cargo_metadata::diagnostic::DiagnosticLevel) -> MessageLevel {
    match level {
        cargo_metadata::diagnostic::DiagnosticLevel::Ice => MessageLevel::Ice,
        cargo_metadata::diagnostic::DiagnosticLevel::Error => MessageLevel::Error,
        cargo_metadata::diagnostic::DiagnosticLevel::Warning => MessageLevel::Warning,
        cargo_metadata::diagnostic::DiagnosticLevel::FailureNote => MessageLevel::FailureNote,
        cargo_metadata::diagnostic::DiagnosticLevel::Note => MessageLevel::Note,
        cargo_metadata::diagnostic::DiagnosticLevel::Help => MessageLevel::Help,
        _ => MessageLevel::Unknown,
    }
}

/// Texts in order, each once.
pub open spec fn in_order(texts: Seq<Seq<char>>) -> Seq<Seq<char>> {
    ascending::<String>(texts.to_set())
}

/// What artifacts are ordered by: package, target, profile and files.
pub type ArtifactOrder = (String, (String, (bool, Vec<Vec<(usize, String)>>)));

/// The model of [`ArtifactOrder`].
pub type ArtifactOrderView = (Seq<char>, (Seq<char>, (bool, Seq<Seq<(usize, Seq<char>)>>)));

/// What several lists of paths are ordered by.
pub open spec fn paths_key(paths: Seq<Seq<char>>) -> Seq<Seq<(usize, Seq<char>)>> {
    Seq::new(paths.len(), |i: int| path_key(paths[i]))
}

fn list_paths_key(paths: &Vec<String>) -> (key: Vec<Vec<(usize, String)>>)
    ensures
        key.deep_view() == paths_key(paths.deep_view()),
{
    let ghost all = paths.deep_view();
    let mut key: Vec<Vec<(usize, String)>> = no_items();
    let mut at: usize = 0;
    proof {
        assert(paths_key(all).take(0) =~= Seq::<Seq<(usize, Seq<char>)>>::empty());
    }
    while at < paths.len()
        invariant
            all == paths.deep_view(),
            at <= all.len(),
            key.deep_view() == paths_key(all).take(at as int),
        decreases all.len() - at,
    {
        proof {
            assert(all[at as int] == paths[at as int]@);
            assert(paths_key(all).take(at as int + 1) =~= paths_key(all).take(at as int).push(
                path_key(all[at as int]),
            ));
        }
        push_item(&mut key, list_path_key(paths[at].as_str()));
        at = at + 1;
    }
    proof {
        assert(paths_key(all).take(all.len() as int) =~= paths_key(all));
    }
    key
}

/// The artifact of a message, with what it is ordered by.
pub open spec fn artifact_entry() -> spec_fn(CargoMessageView) -> Option<
    (ArtifactOrderView, CargoArtifactView),
> {
    |message: CargoMessageView|
        match message {
            CargoMessageView::Artifact(artifact) => Some(
                (
                    (
                        artifact.package_id,
                        (
                            artifact.target_name,
                            (artifact.profile_test, paths_key(artifact.filenames)),
                        ),
                    ),
                    CargoArtifactView {
                        target_crate_types: in_order(artifact.target_crate_types),
                        features: in_order(artifact.features),
                        ..artifact
                    },
                ),
            ),
            _ => None,
        }
}

/// All artifacts of messages, in order.
pub open spec fn artifacts_of(messages: Seq<CargoMessageView>) -> Seq<CargoArtifactView> {
    second(stable_sorted::<ArtifactOrder, CargoArtifact>(collected(messages, artifact_entry())))
}

fn list_artifacts(messages: &Vec<CargoMessage>) -> (list: Vec<CargoArtifact>)
    ensures
        list.deep_view() == artifacts_of(messages.deep_view()),
{
    let ghost f = artifact_entry();
    let pick = |message: &CargoMessage| -> (entry: Option<(ArtifactOrder, CargoArtifact)>)
        ensures
            entry.deep_view() == f(message.deep_view()),
    {
        match message {
            CargoMessage::Artifact(artifact) => {
                let copy = artifact.clone();
                let key = (
                    copy.package_id.clone(),
                    (
                        copy.target_name.clone(),
                        (copy.profile_test, list_paths_key(&copy.filenames)),
                    ),
                );
                Some(
                    (
                        key,
                        CargoArtifact {
                            package_id: copy.package_id,
                            manifest_path: copy.manifest_path,
                            target_name: copy.target_name,
                            target_kinds: copy.target_kinds,
                            target_crate_types: sorted_unique(copy.target_crate_types),
                            target_source: copy.target_source,
                            profile_test: copy.profile_test,
                            profile: copy.profile,
                            features: sorted_unique(copy.features),
                            filenames: copy.filenames,
                            fresh: copy.fresh,
                        },
                    ),
                )
            },
            _ => None,
        }
    };
    take_second(stable_sort(collect_items(messages, pick, Ghost(f))))
}

/// Whether what a compiler says is that it failed.
pub open spec fn is_failure(level: MessageLevel) -> bool {
    level == MessageLevel::Ice || level == MessageLevel::Error || level
        == MessageLevel::FailureNote
}

/// What failures are ordered by: package, target and message.
pub type FailureOrder = (String, (String, String));

/// The failure of a message, with what it is ordered by.
pub open spec fn failure_entry() -> spec_fn(CargoMessageView) -> Option<
    ((Seq<char>, (Seq<char>, Seq<char>)), CargoFailureView),
> {
    |message: CargoMessageView|
        match message {
            CargoMessageView::Compiler(saying) => if is_failure(saying.level) {
                let failure = saying.failure;
                Some(
                    (
                        (failure.package_id, (failure.target_name, failure.message)),
                        CargoFailureView {
                            target_crate_types: in_order(failure.target_crate_types),
                            ..failure
                        },
                    ),
                )
            } else {
                None
            },
            _ => None,
        }
}

/// All failures of messages, in order.
pub open spec fn failures_of(messages: Seq<CargoMessageView>) -> Seq<CargoFailureView> {
    second(stable_sorted::<FailureOrder, CargoFailure>(collected(messages, failure_entry())))
}

fn list_failures(messages: &Vec<CargoMessage>) -> (list: Vec<CargoFailure>)
    ensures
        list.deep_view() == failures_of(messages.deep_view()),
{
    let ghost f = failure_entry();
    let pick = |message: &CargoMessage| -> (entry: Option<(FailureOrder, CargoFailure)>)
        ensures
            entry.deep_view() == f(message.deep_view()),
    {
        match message {
            CargoMessage::Compiler(saying) => if saying.level == MessageLevel::Ice || saying.level
                == MessageLevel::Error || saying.level == MessageLevel::FailureNote {
                let copy = saying.failure.clone();
                let key = (
                    copy.package_id.clone(),
                    (copy.target_name.clone(), copy.message.clone()),
                );
                Some(
                    (
                        key,
                        CargoFailure {
                            package_id: copy.package_id,
                            target_name: copy.target_name,
                            target_kinds: copy.target_kinds,
                            target_crate_types: sorted_unique(copy.target_crate_types),
                            target_source: copy.target_source,
                            message: copy.message,
                        },
                    ),
                )
            } else {
                None
            },
            _ => None,
        }
    };
    take_second(stable_sort(collect_items(messages, pick, Ghost(f))))
}

/// What is ordered by in outputs of build scripts: package, directory and conditions.
pub type ScriptOrder = (String, (Vec<(usize, String)>, Vec<String>));

/// The output of a build script in a message, with what it is ordered by.
pub open spec fn script_entry(known: Seq<CanonicalPathView>) -> spec_fn(CargoMessageView) -> Option<
    ((Seq<char>, (Seq<(usize, Seq<char>)>, Seq<Seq<char>>)), BuildScriptOutputView),
> {
    |message: CargoMessageView|
        match message {
            CargoMessageView::BuildScript(output) => {
                let place = canonical_form(known, output.out_dir);
                let cfg = in_order(output.cfg);
                Some(
                    (
                        (output.package_id, (path_key(place), cfg)),
                        BuildScriptOutputView {
                            package_id: output.package_id,
                            out_dir: place,
                            cfg,
                        },
                    ),
                )
            },
            _ => None,
        }
}

/// All outputs of build scripts in messages, in order and each once.
pub open spec fn scripts_of(messages: Seq<CargoMessageView>, known: Seq<CanonicalPathView>) -> Seq<
    BuildScriptOutputView,
> {
    second(
        first_per_key(
            stable_sorted::<ScriptOrder, BuildScriptOutput>(
                collected(messages, script_entry(known)),
            ),
        ),
    )
}

fn list_scripts(messages: &Vec<CargoMessage>, known: &Vec<CanonicalPath>) -> (list: Vec<
    BuildScriptOutput,
>)
    ensures
        list.deep_view() == scripts_of(messages.deep_view(), known.deep_view()),
{
    let ghost f = script_entry(known.deep_view());
    let pick = |message: &CargoMessage| -> (entry: Option<(ScriptOrder, BuildScriptOutput)>)
        ensures
            entry.deep_view() == f(message.deep_view()),
    {
        match message {
            CargoMessage::BuildScript(output) => {
                let copy = output.clone();
                let place = look_up(known, copy.out_dir.as_str());
                let cfg = sorted_unique(copy.cfg);
                let listed = crate::text::copy_list(&cfg);
                let key = (
                    copy.package_id.clone(),
                    (list_path_key(place.as_str()), listed),
                );
                Some(
                    (
                        key,
                        BuildScriptOutput { package_id: copy.package_id, out_dir: place, cfg },
                    ),
                )
            },
            _ => None,
        }
    };
    take_second(drop_repeated_keys(stable_sort(collect_items(messages, pick, Ghost(f)))))
}

/// Whether a message says that the build has ended.
pub open spec fn says_finished() -> spec_fn(CargoMessageView) -> bool {
    |message: CargoMessageView| message is Finished
}

/// How the build has ended, by the last message that says so.
pub open spec fn finish_of(messages: Seq<CargoMessageView>) -> Option<bool> {
    match last_place(messages, says_finished()) {
        Some(place) => Some(messages[place]->Finished_0),
        None => None,
    }
}

fn find_finish(messages: &Vec<CargoMessage>) -> (finish: Option<bool>)
    ensures
        finish == finish_of(messages.deep_view()),
{
    let ghost property = says_finished();
    let test = |message: &CargoMessage| -> (result: bool)
        ensures
            result == property(message.deep_view()),
    {
        match message {
            CargoMessage::Finished(_) => true,
            _ => false,
        }
    };
    match find_last(messages, test, Ghost(property)) {
        Some(place) => {
            proof {
                assert(messages.deep_view()[place as int] == messages[place as int].deep_view());
            }
            match &messages[place] {
                CargoMessage::Finished(success) => Some(*success),
                _ => None,
            }
        },
        None => None,
    }
}

/// A line that is no message.
pub open spec fn text_line() -> spec_fn(CargoMessageView) -> Option<Seq<char>> {
    |message: CargoMessageView|
        match message {
            CargoMessageView::TextLine(line) => Some(line),
            _ => None,
        }
}

/// The first items, as far as there are that many.
pub open spec fn at_most<A>(items: Seq<A>, count: int) -> Seq<A> {
    if items.len() <= count {
        items
    } else {
        items.take(count)
    }
}

/// The lines that are no messages, as far as they are kept.
pub open spec fn text_lines_of(messages: Seq<CargoMessageView>) -> Seq<Seq<char>> {
    at_most(collected(messages, text_line()), MAX_TEXT_LINES as int)
}

fn list_text_lines(messages: &Vec<CargoMessage>) -> (list: Vec<String>)
    ensures
        list.deep_view() == text_lines_of(messages.deep_view()),
{
    let ghost f = text_line();
    let pick = |message: &CargoMessage| -> (line: Option<String>)
        ensures
            line.deep_view() == f(message.deep_view()),
    {
        match message {
            CargoMessage::TextLine(line) => Some(line.clone()),
            _ => None,
        }
    };
    let mut list = collect_items(messages, pick, Ghost(f));
    proof {
        assert(list.deep_view().len() == list.len());
    }
    let ghost all = list.deep_view();
    if list.len() > MAX_TEXT_LINES {
        list.truncate(MAX_TEXT_LINES);
        proof {
            assert(list.deep_view() =~= all.take(MAX_TEXT_LINES as int));
        }
    }
    list
}

/// What is kept of what Cargo writes besides its messages.
pub open spec fn truncated(bytes: Seq<u8>) -> Seq<char> {
    lossy_text(at_most(bytes, MAX_STDERR_BYTES as int))
}

/// Reads the start of what Cargo writes besides its messages.
pub fn truncate_utf8(bytes: &Vec<u8>) -> (text: String)
    ensures
        text@ == truncated(bytes@),
{
    let mut kept: Vec<u8> = Vec::new();
    let mut at: usize = 0;
    while at < bytes.len() && at < MAX_STDERR_BYTES
        invariant
            at <= bytes.len(),
            at <= MAX_STDERR_BYTES,
            kept@ == bytes@.take(at as int),
        decreases bytes.len() - at,
    {
        proof {
            assert(bytes@.take(at as int + 1) =~= bytes@.take(at as int).push(bytes@[at as int]));
        }
        kept.push(bytes[at]);
        at = at + 1;
    }
    proof {
        assert(kept@ =~= at_most(bytes@, MAX_STDERR_BYTES as int));
    }
    read_lossy(&kept)
}

/// What comes of the messages of a run.
pub open spec fn run_of(
    messages: Seq<CargoMessageView>,
    known: Seq<CanonicalPathView>,
    success: bool,
    stderr: Seq<u8>,
) -> CargoRunView {
    CargoRunView {
        success,
        build_finished: finish_of(messages),
        artifacts: artifacts_of(messages),
        failures: failures_of(messages),
        build_script_outputs: scripts_of(messages, known),
        stderr: truncated(stderr),
        text_lines: text_lines_of(messages),
    }
}

/// Puts together what comes of the messages of a run.
pub fn collect_run(
    messages: &Vec<CargoMessage>,
    known: &Vec<CanonicalPath>,
    success: bool,
    stderr: &Vec<u8>,
) -> (run: CargoRun)
    ensures
        run.deep_view() == run_of(messages.deep_view(), known.deep_view(), success, stderr@),
{
    CargoRun {
        success,
        build_finished: find_finish(messages),
        artifacts: list_artifacts(messages),
        failures: list_failures(messages),
        build_script_outputs: list_scripts(messages, known),
        stderr: truncate_utf8(stderr),
        text_lines: list_text_lines(messages),
    }
}

/// What is wrong with what Cargo wrote.
pub open spec fn run_error(stdout: Seq<u8>) -> Option<Seq<char>> {
    match cargo_messages(stdout) {
        Some(_) => None,
        None => Some("cannot parse Cargo JSON message"@),
    }
}

/// Reads what Cargo wrote in a run.
pub fn read_run(stdout: &Vec<u8>, known: &Vec<CanonicalPath>, success: bool, stderr: &Vec<u8>) -> (
    result: Result<CargoRun, String>)
    ensures
        reports(result, run_error(stdout@)),
        result matches Ok(run) ==> run.deep_view() == run_of(
            cargo_messages(stdout@)->0,
            known.deep_view(),
            success,
            stderr@,
        ),
{
    match parse_messages(stdout) {
        Some(messages) => Ok(collect_run(&messages, known, success, stderr)),
        None => Err("cannot parse Cargo JSON message".to_owned()),
    }
}

/// A directory that a build script is said to have left something in.
pub open spec fn script_place() -> spec_fn(CargoMessageView) -> Option<Seq<char>> {
    |message: CargoMessageView|
        match message {
            CargoMessageView::BuildScript(output) => Some(output.out_dir),
            _ => None,
        }
}

/// The directories whose canonical form a run depends on.
pub open spec fn script_places_of(stdout: Seq<u8>) -> Seq<Seq<char>> {
    match cargo_messages(stdout) {
        Some(messages) => collected(messages, script_place()),
        None => Seq::empty(),
    }
}

/// Lists the directories whose canonical form a run depends on.
pub fn script_places(stdout: &Vec<u8>) -> (places: Vec<String>)
    ensures
        places.deep_view() == script_places_of(stdout@),
{
    let ghost f = script_place();
    let pick = |message: &CargoMessage| -> (place: Option<String>)
        ensures
            place.deep_view() == f(message.deep_view()),
    {
        match message {
            CargoMessage::BuildScript(output) => Some(output.out_dir.clone()),
            _ => None,
        }
    };
    match parse_messages(stdout) {
        Some(messages) => collect_items(&messages, pick, Ghost(f)),
        None => no_items(),
    }
}

/// The order in which a compiler and Cargo name features and crate types makes no difference to an
/// artifact.
pub proof fn law_features_are_a_set(left: Seq<Seq<char>>, right: Seq<Seq<char>>)
    requires
        left.to_set() == right.to_set(),
    ensures
        in_order(left) == in_order(right),
{
}

/// Nothing that a compiler says below an error is a failure.
pub proof fn law_warnings_are_no_failures(messages: Seq<CargoMessageView>)
    requires
        forall|i: int|
            0 <= i < messages.len() ==> (#[trigger] messages[i] matches CargoMessageView::Compiler(
                saying,
            ) ==> !is_failure(saying.level)),
    ensures
        failures_of(messages) == Seq::<CargoFailureView>::empty(),
    decreases messages.len(),
{
    let f = failure_entry();
    lemma_nothing_collected(messages);
    assert(stable_sorted::<FailureOrder, CargoFailure>(collected(messages, f)) =~= Seq::empty());
    assert(failures_of(messages) =~= Seq::<CargoFailureView>::empty());
}

proof fn lemma_nothing_collected(messages: Seq<CargoMessageView>)
    requires
        forall|i: int|
            0 <= i < messages.len() ==> (#[trigger] messages[i] matches CargoMessageView::Compiler(
                saying,
            ) ==> !is_failure(saying.level)),
    ensures
        collected(messages, failure_entry()).len() == 0,
    decreases messages.len(),
{
    if messages.len() > 0 {
        let shorter = messages.drop_last();
        assert(forall|i: int| 0 <= i < shorter.len() ==> #[trigger] shorter[i] == messages[i]);
        lemma_nothing_collected(shorter);
        assert(messages.last() == messages[messages.len() - 1]);
    }
}

} // verus!
