//! The records that the driver writes.

use vstd::prelude::*;

use crate::collections::{
    any_item, any_where, append_items, ascending, collect_items, collected, no_items, push_item,
    sorted_unique,
};
use crate::driver::arguments::{
    merge_key_parts, names_run, safe_filename, safe_name, valid_run_id, InvocationArgs,
    InvocationArgsView,
};
use crate::driver::facts::{CollectedFacts, CollectedFactsView};
use crate::driver::spans::length_prefixed_text;
use crate::protocol::{
    Availability, CfgValue, CfgValueView, CodegenProfile, CodegenProfileView, CompilerIdentity,
    CompilerIdentityView, Definition, DefinitionView, Diagnostic, DiagnosticPhase,
    DiagnosticSeverity, DiagnosticView, Event, EventView, InvocationFinished, InvocationId,
    InvocationStarted, InvocationStartedView, OptimizationLevel, PanicStrategy, Product,
    ProductStatus, ProductStatusView, Profile, ProfileView, Record, RecordView, Reference,
    ReferenceView, Root, RootView, RunId, SourceFile, SourceFileView, MAX_SIDECAR_BYTES,
    PROTOCOL_VERSION,
};
use crate::text::{decimal, decimal_text, same};

verus! {

/// The room that is kept for the last records.
pub const TRAILER_RESERVE_BYTES: usize = 65536;

/// How far a product has come.
#[derive(Clone, Copy, Debug, PartialEq, Eq, Structural)]
pub struct ProductProgress {
    pub started: bool,
    pub rejected: bool,
}

impl DeepView for ProductProgress {
    type V = ProductProgress;

    open spec fn deep_view(&self) -> ProductProgress {
        *self
    }
}

/// The records of a sidecar, as far as they fit.
#[derive(Debug, PartialEq, Eq)]
pub struct RecordBuffer {
    pub run_id: RunId,
    pub invocation_id: InvocationId,
    pub next_sequence: u64,
    /// The encoded records, each with its line end.
    pub records: Vec<Vec<u8>>,
    pub bytes: usize,
    pub limit: usize,
    /// Whether a record did not fit.
    pub truncated: bool,
}

/// The model of [`RecordBuffer`].
#[verifier::ext_equal]
pub struct RecordBufferView {
    pub run_id: Seq<char>,
    pub invocation_id: Seq<char>,
    pub next_sequence: u64,
    pub records: Seq<Seq<u8>>,
    pub bytes: usize,
    pub limit: usize,
    pub truncated: bool,
}

impl DeepView for RecordBuffer {
    type V = RecordBufferView;

    open spec fn deep_view(&self) -> RecordBufferView {
        RecordBufferView {
            run_id: self.run_id.deep_view(),
            invocation_id: self.invocation_id.deep_view(),
            next_sequence: self.next_sequence,
            records: self.records.deep_view(),
            bytes: self.bytes,
            limit: self.limit,
            truncated: self.truncated,
        }
    }
}

/// What the compiler says of its session.
#[derive(Debug, PartialEq, Eq)]
pub struct SessionFacts {
    pub host_triple: String,
    pub target_triple: String,
    pub test: bool,
    pub cfg: Vec<CfgValue>,
    pub optimization: OptimizationLevel,
    pub panic: PanicStrategy,
    pub debug_assertions: bool,
    pub overflow_checks: bool,
    pub codegen_units: usize,
    /// The processor that is asked for.
    pub target_cpu: Option<String>,
    /// The processor of the target.
    pub default_cpu: String,
    pub target_features: Vec<String>,
}

/// The model of [`SessionFacts`].
#[verifier::ext_equal]
pub struct SessionFactsView {
    pub host_triple: Seq<char>,
    pub target_triple: Seq<char>,
    pub test: bool,
    pub cfg: Seq<CfgValueView>,
    pub optimization: OptimizationLevel,
    pub panic: PanicStrategy,
    pub debug_assertions: bool,
    pub overflow_checks: bool,
    pub codegen_units: usize,
    pub target_cpu: Option<Seq<char>>,
    pub default_cpu: Seq<char>,
    pub target_features: Seq<Seq<char>>,
}

impl DeepView for SessionFacts {
    type V = SessionFactsView;

    open spec fn deep_view(&self) -> SessionFactsView {
        SessionFactsView {
            host_triple: self.host_triple.deep_view(),
            target_triple: self.target_triple.deep_view(),
            test: self.test,
            cfg: self.cfg.deep_view(),
            optimization: self.optimization,
            panic: self.panic,
            debug_assertions: self.debug_assertions,
            overflow_checks: self.overflow_checks,
            codegen_units: self.codegen_units,
            target_cpu: self.target_cpu.deep_view(),
            default_cpu: self.default_cpu.deep_view(),
            target_features: self.target_features.deep_view(),
        }
    }
}

impl ProductProgress {
    /// Nothing done yet.
    pub fn new() -> (progress: Self)
        ensures
            progress == (ProductProgress { started: false, rejected: false }),
    {
        ProductProgress { started: false, rejected: false }
    }

    /// Notes that facts are collected.
    pub fn start(&mut self)
        ensures
            *final(self) == (ProductProgress { started: true, ..*old(self) }),
    {
        self.started = true;
    }

    /// Notes that a fact is missing.
    pub fn reject(&mut self)
        ensures
            *final(self) == (ProductProgress { rejected: true, ..*old(self) }),
    {
        self.rejected = true;
    }

    /// How much of the product there is.
    pub open spec fn available(self) -> Availability {
        if !self.started {
            Availability::Unavailable
        } else if self.rejected {
            Availability::Partial
        } else {
            Availability::Complete
        }
    }

    /// How much of the product there is.
    pub fn availability(&self) -> (availability: Availability)
        ensures
            availability == self.available(),
    {
        if !self.started {
            Availability::Unavailable
        } else if self.rejected {
            Availability::Partial
        } else {
            Availability::Complete
        }
    }
}

/// Why a product is not complete.
pub open spec fn progress_message(progress: ProductProgress) -> Option<Seq<char>> {
    if !progress.started {
        Some("rustc did not reach after_analysis"@)
    } else if progress.rejected {
        Some("compiler facts were truncated by the sidecar limit"@)
    } else {
        None
    }
}

/// Says why a product is not complete.
pub fn product_message(progress: &ProductProgress) -> (message: Option<String>)
    ensures
        message.deep_view() == progress_message(*progress),
{
    if !progress.started {
        Some("rustc did not reach after_analysis".to_owned())
    } else if progress.rejected {
        Some("compiler facts were truncated by the sidecar limit".to_owned())
    } else {
        None
    }
}

/// How many bytes some records take.
pub open spec fn total_bytes(records: Seq<Seq<u8>>) -> nat
    decreases records.len(),
{
    if records.len() == 0 {
        0
    } else {
        total_bytes(records.drop_last()) + records.last().len()
    }
}

impl RecordBufferView {
    /// The counts are right, and the records fit.
    pub open spec fn wf(self) -> bool {
        &&& self.bytes == total_bytes(self.records)
        &&& self.bytes <= self.limit
        &&& self.next_sequence == self.records.len()
    }

    /// The buffer with one more encoded record, where it fits below a limit.
    pub open spec fn with(self, encoded: Option<Seq<u8>>, limit: usize) -> RecordBufferView {
        match encoded {
            Some(encoded) => if self.fits(encoded, limit) {
                RecordBufferView {
                    next_sequence: (self.next_sequence + 1) as u64,
                    records: self.records.push(encoded.push(10u8)),
                    bytes: (self.bytes + encoded.len() + 1) as usize,
                    ..self
                }
            } else {
                RecordBufferView { truncated: true, ..self }
            },
            None => RecordBufferView { truncated: true, ..self },
        }
    }

    /// Whether an encoded record fits below a limit, with its line end.
    pub open spec fn fits(self, encoded: Seq<u8>, limit: usize) -> bool {
        self.bytes + encoded.len() + 1 <= limit
    }

    /// Whether a record is taken.
    pub open spec fn takes(self, encoded: Option<Seq<u8>>, limit: usize) -> bool {
        match encoded {
            Some(encoded) => self.fits(encoded, limit),
            None => false,
        }
    }

    /// What is left to records other than the last ones.
    pub open spec fn ordinary_limit(self) -> usize {
        if self.limit < TRAILER_RESERVE_BYTES {
            0
        } else {
            (self.limit - TRAILER_RESERVE_BYTES) as usize
        }
    }
}

/// The bytes of a sidecar: its records, one after the other.
pub open spec fn sidecar_bytes(records: Seq<Seq<u8>>) -> Seq<u8>
    decreases records.len(),
{
    if records.len() == 0 {
        Seq::empty()
    } else {
        sidecar_bytes(records.drop_last()) + records.last()
    }
}

impl RecordBuffer {
    /// No records yet.
    pub fn new(run_id: RunId, invocation_id: InvocationId, limit: usize) -> (buffer: Self)
        ensures
            buffer.deep_view() == (RecordBufferView {
                run_id: run_id.deep_view(),
                invocation_id: invocation_id.deep_view(),
                next_sequence: 0,
                records: Seq::empty(),
                bytes: 0,
                limit,
                truncated: false,
            }),
            buffer.deep_view().wf(),
    {
        RecordBuffer {
            run_id,
            invocation_id,
            next_sequence: 0,
            records: no_items(),
            bytes: 0,
            limit,
            truncated: false,
        }
    }

    /// The record for the next event.
    pub fn record(&self, event: Event) -> (record: Record)
        ensures
            record.deep_view() == (RecordView {
                protocol_version: PROTOCOL_VERSION,
                run_id: self.deep_view().run_id,
                invocation_id: self.deep_view().invocation_id,
                sequence: self.next_sequence,
                event: event.deep_view(),
            }),
    {
        Record {
            protocol_version: PROTOCOL_VERSION,
            run_id: self.run_id.clone(),
            invocation_id: self.invocation_id.clone(),
            sequence: self.next_sequence,
            event,
        }
    }

    /// Takes an encoded record where it fits and leaves room for the last ones.
    pub fn push(&mut self, encoded: Option<Vec<u8>>) -> (taken: bool)
        requires
            old(self).deep_view().wf(),
        ensures
            taken == old(self).deep_view().takes(
                encoded.deep_view(),
                old(self).deep_view().ordinary_limit(),
            ),
            final(self).deep_view() == old(self).deep_view().with(
                encoded.deep_view(),
                old(self).deep_view().ordinary_limit(),
            ),
            final(self).deep_view().wf(),
    {
        let maximum: usize = if self.limit < TRAILER_RESERVE_BYTES {
            0
        } else {
            self.limit - TRAILER_RESERVE_BYTES
        };
        self.push_with_limit(encoded, maximum)
    }

    /// Takes one of the last records where it fits.
    pub fn push_mandatory(&mut self, encoded: Option<Vec<u8>>) -> (taken: bool)
        requires
            old(self).deep_view().wf(),
        ensures
            taken == old(self).deep_view().takes(encoded.deep_view(), old(self).limit),
            final(self).deep_view() == old(self).deep_view().with(
                encoded.deep_view(),
                old(self).limit,
            ),
            final(self).deep_view().wf(),
    {
        let maximum: usize = self.limit;
        self.push_with_limit(encoded, maximum)
    }

    fn push_with_limit(&mut self, encoded: Option<Vec<u8>>, limit: usize) -> (taken: bool)
        requires
            old(self).deep_view().wf(),
            limit <= old(self).limit,
        ensures
            taken == old(self).deep_view().takes(encoded.deep_view(), limit),
            final(self).deep_view() == old(self).deep_view().with(encoded.deep_view(), limit),
            final(self).deep_view().wf(),
    {
        let ghost before = self.deep_view();
        let encoded = match encoded {
            Some(encoded) => encoded,
            None => {
                self.truncated = true;
                return false;
            },
        };
        let ghost text = encoded.deep_view();
        proof {
            assert(text.len() == encoded.len());
        }
        if self.bytes as u128 + encoded.len() as u128 + 1 > limit as u128 {
            self.truncated = true;
            return false;
        }
        let length: usize = encoded.len() + 1;
        let mut encoded = encoded;
        push_item(&mut encoded, 10u8);
        push_item(&mut self.records, encoded);
        proof {
            assert(self.records.deep_view() == before.records.push(text.push(10u8)));
            assert(self.records.deep_view().drop_last() =~= before.records);
            assert(self.records.deep_view().len() == self.records.len());
        }
        self.bytes = self.bytes + length;
        self.next_sequence = self.records.len() as u64;
        true
    }
}

/// However many records are pushed, they never take more room than there is, and those that are
/// taken are numbered without gaps.
pub proof fn law_records_stay_bounded(
    buffer: RecordBufferView,
    encoded: Option<Seq<u8>>,
    limit: usize,
)
    requires
        buffer.wf(),
        limit <= buffer.limit,
        buffer.records.len() < u64::MAX,
    ensures
        buffer.with(encoded, limit).wf(),
        buffer.with(encoded, limit).limit == buffer.limit,
        total_bytes(buffer.with(encoded, limit).records) <= buffer.limit,
        buffer.with(encoded, limit).next_sequence == buffer.with(encoded, limit).records.len(),
        buffer.takes(encoded, limit) || buffer.with(encoded, limit).truncated,
        buffer.truncated ==> buffer.with(encoded, limit).truncated,
{
    if let Some(text) = encoded {
        if buffer.fits(text, limit) {
            assert(buffer.with(encoded, limit).records.drop_last() =~= buffer.records);
        }
    }
}

fn list_source_events(facts: Vec<SourceFile>) -> (events: Vec<Event>)
    ensures
        events.deep_view() == collected(
            facts.deep_view(),
            |fact: SourceFileView| Some(EventView::SourceFile(fact)),
        ),
{
    let ghost f = |fact: SourceFileView| Some(EventView::SourceFile(fact));
    let pick = |fact: &SourceFile| -> (event: Option<Event>)
        ensures
            event.deep_view() == f(fact.deep_view()),
    {
        Some(Event::SourceFile(fact.clone()))
    };
    collect_items(&facts, pick, Ghost(f))
}

fn list_definition_events(facts: Vec<Definition>) -> (events: Vec<Event>)
    ensures
        events.deep_view() == collected(
            facts.deep_view(),
            |fact: DefinitionView| Some(EventView::Definition(fact)),
        ),
{
    let ghost f = |fact: DefinitionView| Some(EventView::Definition(fact));
    let pick = |fact: &Definition| -> (event: Option<Event>)
        ensures
            event.deep_view() == f(fact.deep_view()),
    {
        Some(Event::Definition(fact.clone()))
    };
    collect_items(&facts, pick, Ghost(f))
}

fn list_root_events(facts: Vec<Root>) -> (events: Vec<Event>)
    ensures
        events.deep_view() == collected(
            facts.deep_view(),
            |fact: RootView| Some(EventView::Root(fact)),
        ),
{
    let ghost f = |fact: RootView| Some(EventView::Root(fact));
    let pick = |fact: &Root| -> (event: Option<Event>)
        ensures
            event.deep_view() == f(fact.deep_view()),
    {
        Some(Event::Root(fact.clone()))
    };
    collect_items(&facts, pick, Ghost(f))
}

fn list_reference_events(facts: Vec<Reference>) -> (events: Vec<Event>)
    ensures
        events.deep_view() == collected(
            facts.deep_view(),
            |fact: ReferenceView| Some(EventView::Reference(fact)),
        ),
{
    let ghost f = |fact: ReferenceView| Some(EventView::Reference(fact));
    let pick = |fact: &Reference| -> (event: Option<Event>)
        ensures
            event.deep_view() == f(fact.deep_view()),
    {
        Some(Event::Reference(fact.clone()))
    };
    collect_items(&facts, pick, Ghost(f))
}

/// The events for all that is reported of a crate, in the order in which they are written.
pub open spec fn fact_events(profile: ProfileView, facts: CollectedFactsView) -> Seq<EventView> {
    seq![EventView::Profile(profile)] + collected(
        facts.sources,
        |fact: SourceFileView| Some(EventView::SourceFile(fact)),
    ) + collected(
        facts.definitions,
        |fact: DefinitionView| Some(EventView::Definition(fact)),
    ) + collected(facts.roots, |fact: RootView| Some(EventView::Root(fact))) + collected(
        facts.references,
        |fact: ReferenceView| Some(EventView::Reference(fact)),
    )
}

/// Lists the events for all that is reported of a crate.
pub fn list_fact_events(profile: Profile, facts: CollectedFacts) -> (events: Vec<Event>)
    ensures
        events.deep_view() == fact_events(profile.deep_view(), facts.deep_view()),
{
    let ghost told = profile.deep_view();
    let mut events: Vec<Event> = no_items();
    push_item(&mut events, Event::Profile(profile));
    proof {
        assert(events.deep_view() =~= seq![EventView::Profile(told)]);
    }
    append_items(&mut events, list_source_events(facts.sources));
    append_items(&mut events, list_definition_events(facts.definitions));
    append_items(&mut events, list_root_events(facts.roots));
    append_items(&mut events, list_reference_events(facts.references));
    events
}

/// The facts that are collected for a sidecar, and how far that has come.
#[derive(Debug, PartialEq, Eq)]
pub struct Collection {
    pub records: RecordBuffer,
    pub analysis_reached: bool,
    pub visibility_audit: ProductProgress,
}

impl Collection {
    /// Nothing collected yet.
    pub fn new(records: RecordBuffer) -> (collection: Self)
        ensures
            collection.records == records,
            !collection.analysis_reached,
            collection.visibility_audit == (ProductProgress { started: false, rejected: false }),
    {
        Collection { records, analysis_reached: false, visibility_audit: ProductProgress::new() }
    }

    /// Notes that the compiler has come to where facts are collected.
    pub fn begin(&mut self)
        ensures
            final(self).records == old(self).records,
            final(self).analysis_reached,
            final(self).visibility_audit == (ProductProgress {
                started: true,
                rejected: old(self).visibility_audit.rejected || old(self).records.truncated,
            }),
    {
        self.analysis_reached = true;
        self.visibility_audit.start();
        if self.records.truncated {
            self.visibility_audit.reject();
        }
    }

    /// Takes an encoded fact, and notes where one is missing.
    pub fn accept(&mut self, encoded: Option<Vec<u8>>) -> (taken: bool)
        requires
            old(self).records.deep_view().wf(),
        ensures
            taken == old(self).records.deep_view().takes(
                encoded.deep_view(),
                old(self).records.deep_view().ordinary_limit(),
            ),
            final(self).records.deep_view() == old(self).records.deep_view().with(
                encoded.deep_view(),
                old(self).records.deep_view().ordinary_limit(),
            ),
            final(self).records.deep_view().wf(),
            final(self).analysis_reached == old(self).analysis_reached,
            final(self).visibility_audit == (ProductProgress {
                started: old(self).visibility_audit.started,
                rejected: old(self).visibility_audit.rejected || !taken,
            }),
    {
        let taken = self.records.push(encoded);
        if !taken {
            self.visibility_audit.reject();
        }
        taken
    }

    /// Lists the events that end a sidecar.
    pub fn closing_events(&self, rustc_success: bool) -> (events: Vec<Event>)
        ensures
            events.deep_view() == last_events(
                self.records.truncated,
                self.visibility_audit,
                self.analysis_reached,
                rustc_success,
            ),
    {
        let mut events: Vec<Event> = no_items();
        if self.records.truncated {
            let mut message = "compiler facts exceeded the ".to_owned();
            message.append(decimal_text(MAX_SIDECAR_BYTES as u128).as_str());
            message.append(" byte sidecar limit");
            push_item(
                &mut events,
                Event::Diagnostic(
                    Diagnostic {
                        phase: DiagnosticPhase::Sidecar,
                        severity: DiagnosticSeverity::Warning,
                        message,
                        span: None,
                    },
                ),
            );
        }
        push_item(
            &mut events,
            Event::ProductStatus(
                ProductStatus {
                    product: Product::SemanticGraph,
                    availability: self.visibility_audit.availability(),
                    message: product_message(&self.visibility_audit),
                },
            ),
        );
        push_item(
            &mut events,
            Event::InvocationFinished(
                InvocationFinished { rustc_success, analysis_reached: self.analysis_reached },
            ),
        );
        proof {
            assert(events.deep_view() =~= last_events(
                self.records.truncated,
                self.visibility_audit,
                self.analysis_reached,
                rustc_success,
            ));
        }
        events
    }
}

/// What is said where facts did not fit.
pub open spec fn truncation_notice() -> DiagnosticView {
    DiagnosticView {
        phase: DiagnosticPhase::Sidecar,
        severity: DiagnosticSeverity::Warning,
        message: "compiler facts exceeded the "@ + decimal(MAX_SIDECAR_BYTES as nat)
            + " byte sidecar limit"@,
        span: None,
    }
}

/// The events that end a sidecar.
pub open spec fn last_events(
    truncated: bool,
    progress: ProductProgress,
    analysis_reached: bool,
    rustc_success: bool,
) -> Seq<EventView> {
    let notice = if truncated {
        seq![EventView::Diagnostic(truncation_notice())]
    } else {
        Seq::<EventView>::empty()
    };
    notice + seq![
        EventView::ProductStatus(
            ProductStatusView {
                product: Product::SemanticGraph,
                availability: progress.available(),
                message: progress_message(progress),
            },
        ),
        EventView::InvocationFinished(InvocationFinished { rustc_success, analysis_reached }),
    ]
}

/// A product is only called complete where the compiler came to its analysis and every fact was
/// taken.
pub proof fn law_missing_facts_are_never_complete(progress: ProductProgress)
    ensures
        progress.available() == Availability::Complete <==> progress.started && !progress.rejected,
        progress.available() == Availability::Complete <==> progress_message(progress) is None,
{
}

/// The first record of a call.
pub open spec fn started_of(
    invocation: InvocationArgsView,
    compiler: CompilerIdentityView,
    process_id: u32,
) -> InvocationStartedView {
    InvocationStartedView {
        merge_key: length_prefixed_text(merge_key_parts(invocation)),
        compiler,
        process_id,
        rustc_path: invocation.rustc_path,
        working_directory: invocation.working_directory,
        manifest_dir: invocation.manifest_dir,
        build_script_out_dir: invocation.build_script_out_dir,
        package_name: invocation.package_name,
        primary_package: invocation.primary_package,
        test_mode: invocation.test_mode,
        target_triple: invocation.target,
        compilation_context: invocation.compilation_context,
        crate_name: invocation.crate_name,
        input: invocation.input,
        artifact: invocation.artifact,
    }
}

/// Makes the first record of a call.
pub fn started_record(
    invocation: &InvocationArgs,
    compiler: CompilerIdentity,
    process_id: u32,
) -> (started: InvocationStarted)
    ensures
        started.deep_view() == started_of(
            invocation.deep_view(),
            compiler.deep_view(),
            process_id,
        ),
{
    let merge_key = invocation.merge_key();
    let copy = invocation.clone();
    InvocationStarted {
        merge_key,
        compiler,
        process_id,
        rustc_path: copy.rustc_path,
        working_directory: copy.working_directory,
        manifest_dir: copy.manifest_dir,
        build_script_out_dir: copy.build_script_out_dir,
        package_name: copy.package_name,
        primary_package: copy.primary_package,
        test_mode: copy.test_mode,
        target_triple: copy.target,
        compilation_context: copy.compilation_context,
        crate_name: copy.crate_name,
        input: copy.input,
        artifact: copy.artifact,
    }
}

/// What identifies one process of a run.
pub open spec fn process_identity(process_id: u32, crate_name: Seq<char>) -> Seq<char> {
    decimal(process_id as nat) + "-"@ + safe_name(crate_name)
}

/// Starts collecting facts of a call, where it is one that is asked for and the run has a proper
/// name.
pub fn start_collection(
    invocation: &InvocationArgs,
    selected: bool,
    run_id: Option<String>,
    process_id: u32,
) -> (collection: Option<Collection>)
    ensures
        collection is Some <==> invocation.collectible && selected && run_id is Some && names_run(
            run_id->0@,
        ),
        collection matches Some(started) ==> started.records.deep_view().wf()
            && !started.analysis_reached && started.visibility_audit == (ProductProgress {
            started: false,
            rejected: false,
        }) && started.records.deep_view() == (RecordBufferView {
            run_id: run_id->0@,
            invocation_id: process_identity(process_id, invocation.deep_view().crate_name),
            next_sequence: 0,
            records: Seq::empty(),
            bytes: 0,
            limit: 67108864,
            truncated: false,
        }),
{
    if !invocation.collectible || !selected {
        return None;
    }
    let run_id = match run_id {
        Some(run_id) => run_id,
        None => return None,
    };
    if !valid_run_id(run_id.as_str()) {
        return None;
    }
    let mut identity = decimal_text(process_id as u128);
    identity.append("-");
    identity.append(safe_filename(invocation.crate_name.as_str()).as_str());
    Some(
        Collection::new(
            RecordBuffer::new(RunId(run_id), InvocationId(identity), MAX_SIDECAR_BYTES as usize),
        ),
    )
}

/// The features that a cfg turns on.
pub open spec fn feature_of() -> spec_fn(CfgValueView) -> Option<Seq<char>> {
    |value: CfgValueView|
        if value.name == "feature"@ {
            value.value
        } else {
            None
        }
}

/// Whether a cfg is the one that marks tests.
pub open spec fn marks_test() -> spec_fn(CfgValueView) -> bool {
    |value: CfgValueView| value.name == "test"@ && value.value is None
}

/// What a session compiles, and how.
pub open spec fn session_profile(session: SessionFactsView) -> ProfileView {
    let cfg = ascending::<CfgValue>(session.cfg.to_set());
    ProfileView {
        host_triple: session.host_triple,
        target_triple: session.target_triple,
        test_mode: session.test || any_where(cfg, marks_test()),
        cfg,
        features: collected(cfg, feature_of()),
        codegen: CodegenProfileView {
            optimization: session.optimization,
            panic: session.panic,
            debug_assertions: session.debug_assertions,
            overflow_checks: session.overflow_checks,
            codegen_units: session.codegen_units,
            target_cpu: match session.target_cpu {
                Some(cpu) => cpu,
                None => session.default_cpu,
            },
            target_features: ascending::<String>(session.target_features.to_set()),
        },
    }
}

/// Says what a session compiles, and how.
pub fn profile(session: SessionFacts) -> (profile: Profile)
    ensures
        profile.deep_view() == session_profile(session.deep_view()),
{
    let cfg = sorted_unique(session.cfg);
    let ghost test_cfg = marks_test();
    let is_test = |value: &CfgValue| -> (result: bool)
        ensures
            result == test_cfg(value.deep_view()),
    {
        same(value.name.as_str(), "test") && value.value.is_none()
    };
    let ghost f = feature_of();
    let pick = |value: &CfgValue| -> (feature: Option<String>)
        ensures
            feature.deep_view() == f(value.deep_view()),
    {
        if same(value.name.as_str(), "feature") {
            match &value.value {
                Some(feature) => Some(feature.clone()),
                None => None,
            }
        } else {
            None
        }
    };
    let test_mode = session.test || any_item(&cfg, is_test, Ghost(test_cfg));
    let features = collect_items(&cfg, pick, Ghost(f));
    Profile {
        host_triple: session.host_triple,
        target_triple: session.target_triple,
        test_mode,
        cfg,
        features,
        codegen: CodegenProfile {
            optimization: session.optimization,
            panic: session.panic,
            debug_assertions: session.debug_assertions,
            overflow_checks: session.overflow_checks,
            codegen_units: session.codegen_units,
            target_cpu: match session.target_cpu {
                Some(cpu) => cpu,
                None => session.default_cpu,
            },
            target_features: sorted_unique(session.target_features),
        },
    }
}

} // verus!
