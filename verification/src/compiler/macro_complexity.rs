//! What macros add to the cyclomatic complexity of compiled code.

use vstd::prelude::*;

use crate::collections::{
    count_items, count_where, first_error, image, lemma_count_bound, lemma_image_ends,
    lemma_image_step, no_items, push_item, second, sorted_unique, stable_sort, stable_sorted,
    take_second, ascending, SortedMap, SortedSet,
};
use crate::compiler::labels::expansion_origin;
use crate::compiler::sidecar::reports;
use crate::model::{CompilerTargetReport, CompilerTargetReportView, SemanticStatus};
use crate::order::{Ordered, Rank};
use crate::protocol::{
    CompilerDefId, ExpansionOrigin, FactId, SourceSpan, SourceSpanView,
};
use crate::text::{decimal, decimal_text, join, joined};

verus! {

/// How a macro is called.
#[derive(Clone, Copy, Debug, PartialEq, Eq, Structural)]
pub enum MacroKind {
    Bang,
    Attribute,
    Derive,
}

impl DeepView for MacroKind {
    type V = MacroKind;

    open spec fn deep_view(&self) -> MacroKind {
        *self
    }
}

impl MacroKind {
    /// The place of the variant in the declaration.
    pub open spec fn place(self) -> u8 {
        match self {
            MacroKind::Bang => 0,
            MacroKind::Attribute => 1,
            MacroKind::Derive => 2,
        }
    }

    fn declared_at(self) -> (place: u8)
        ensures
            place == self.place(),
    {
        match self {
            MacroKind::Bang => 0,
            MacroKind::Attribute => 1,
            MacroKind::Derive => 2,
        }
    }
}

/// Ordered as declared.
impl Ordered for MacroKind {
    open spec fn precedes(a: MacroKind, b: MacroKind) -> bool {
        a.place() < b.place()
    }

    proof fn irreflexive(a: MacroKind) {
    }

    proof fn transitive(a: MacroKind, b: MacroKind, c: MacroKind) {
    }

    proof fn total(a: MacroKind, b: MacroKind) {
    }

    fn rank(&self, other: &Self) -> (rank: Rank) {
        let left: u8 = self.declared_at();
        let right: u8 = other.declared_at();
        if left < right {
            Rank::Less
        } else if left == right {
            Rank::Equal
        } else {
            Rank::Greater
        }
    }
}

/// A branch in the expanded code.
#[derive(Clone, Copy, Debug, PartialEq, Eq, Structural)]
pub enum DecisionKind {
    Conditional,
    Loop,
    Match,
    MatchAlternative,
    Guard,
    ShortCircuit,
    Try,
    LetElse,
}

impl DeepView for DecisionKind {
    type V = DecisionKind;

    open spec fn deep_view(&self) -> DecisionKind {
        *self
    }
}

impl DecisionKind {
    /// The place of the variant in the declaration.
    pub open spec fn place(self) -> u8 {
        match self {
            DecisionKind::Conditional => 0,
            DecisionKind::Loop => 1,
            DecisionKind::Match => 2,
            DecisionKind::MatchAlternative => 3,
            DecisionKind::Guard => 4,
            DecisionKind::ShortCircuit => 5,
            DecisionKind::Try => 6,
            DecisionKind::LetElse => 7,
        }
    }

    fn declared_at(self) -> (place: u8)
        ensures
            place == self.place(),
    {
        match self {
            DecisionKind::Conditional => 0,
            DecisionKind::Loop => 1,
            DecisionKind::Match => 2,
            DecisionKind::MatchAlternative => 3,
            DecisionKind::Guard => 4,
            DecisionKind::ShortCircuit => 5,
            DecisionKind::Try => 6,
            DecisionKind::LetElse => 7,
        }
    }
}

/// Ordered as declared.
impl Ordered for DecisionKind {
    open spec fn precedes(a: DecisionKind, b: DecisionKind) -> bool {
        a.place() < b.place()
    }

    proof fn irreflexive(a: DecisionKind) {
    }

    proof fn transitive(a: DecisionKind, b: DecisionKind, c: DecisionKind) {
    }

    proof fn total(a: DecisionKind, b: DecisionKind) {
    }

    fn rank(&self, other: &Self) -> (rank: Rank) {
        let left: u8 = self.declared_at();
        let right: u8 = other.declared_at();
        if left < right {
            Rank::Less
        } else if left == right {
            Rank::Equal
        } else {
            Rank::Greater
        }
    }
}

/// A body of expanded code.
#[derive(Debug, PartialEq, Eq)]
pub struct Body {
    pub id: FactId,
    pub compiler_id: CompilerDefId,
    pub definition_path: String,
    pub span: Option<SourceSpan>,
    pub attribution_callsite: Option<SourceSpan>,
    pub expansion_origin: ExpansionOrigin,
    pub macro_kind: Option<MacroKind>,
    pub macro_definition: Option<CompilerDefId>,
}

/// The model of [`Body`].
#[verifier::ext_equal]
pub struct BodyView {
    pub id: Seq<char>,
    pub compiler_id: CompilerDefId,
    pub definition_path: Seq<char>,
    pub span: Option<SourceSpanView>,
    pub attribution_callsite: Option<SourceSpanView>,
    pub expansion_origin: ExpansionOrigin,
    pub macro_kind: Option<MacroKind>,
    pub macro_definition: Option<CompilerDefId>,
}

impl DeepView for Body {
    type V = BodyView;

    open spec fn deep_view(&self) -> BodyView {
        BodyView {
            id: self.id.deep_view(),
            compiler_id: self.compiler_id,
            definition_path: self.definition_path.deep_view(),
            span: self.span.deep_view(),
            attribution_callsite: self.attribution_callsite.deep_view(),
            expansion_origin: self.expansion_origin,
            macro_kind: self.macro_kind,
            macro_definition: self.macro_definition,
        }
    }
}

impl Clone for Body {
    fn clone(&self) -> (copy: Self)
        ensures
            copy.deep_view() == self.deep_view(),
    {
        let copy = Body {
            id: self.id.clone(),
            compiler_id: self.compiler_id,
            definition_path: self.definition_path.clone(),
            span: self.span.clone(),
            attribution_callsite: self.attribution_callsite.clone(),
            expansion_origin: self.expansion_origin,
            macro_kind: self.macro_kind,
            macro_definition: self.macro_definition,
        };
        proof {
            assert(copy.id.deep_view() =~= self.id.deep_view());
            assert(copy.span.deep_view() =~= self.span.deep_view());
            assert(copy.attribution_callsite.deep_view() =~= self.attribution_callsite.deep_view());
        }
        copy
    }
}

/// A branch that a macro put into a body.
#[derive(Debug, PartialEq, Eq)]
pub struct Decision {
    pub id: FactId,
    pub body: CompilerDefId,
    pub kind: DecisionKind,
    pub generated_span: Option<SourceSpan>,
    pub attribution_callsite: Option<SourceSpan>,
    pub expansion_origin: ExpansionOrigin,
    pub macro_kind: MacroKind,
    pub macro_definition: Option<CompilerDefId>,
    pub ordinal: u32,
    pub nesting: u32,
}

/// The model of [`Decision`].
#[verifier::ext_equal]
pub struct DecisionView {
    pub id: Seq<char>,
    pub body: CompilerDefId,
    pub kind: DecisionKind,
    pub generated_span: Option<SourceSpanView>,
    pub attribution_callsite: Option<SourceSpanView>,
    pub expansion_origin: ExpansionOrigin,
    pub macro_kind: MacroKind,
    pub macro_definition: Option<CompilerDefId>,
    pub ordinal: u32,
    pub nesting: u32,
}

impl DeepView for Decision {
    type V = DecisionView;

    open spec fn deep_view(&self) -> DecisionView {
        DecisionView {
            id: self.id.deep_view(),
            body: self.body,
            kind: self.kind,
            generated_span: self.generated_span.deep_view(),
            attribution_callsite: self.attribution_callsite.deep_view(),
            expansion_origin: self.expansion_origin,
            macro_kind: self.macro_kind,
            macro_definition: self.macro_definition,
            ordinal: self.ordinal,
            nesting: self.nesting,
        }
    }
}

impl Clone for Decision {
    fn clone(&self) -> (copy: Self)
        ensures
            copy.deep_view() == self.deep_view(),
    {
        let copy = Decision {
            id: self.id.clone(),
            body: self.body,
            kind: self.kind,
            generated_span: self.generated_span.clone(),
            attribution_callsite: self.attribution_callsite.clone(),
            expansion_origin: self.expansion_origin,
            macro_kind: self.macro_kind,
            macro_definition: self.macro_definition,
            ordinal: self.ordinal,
            nesting: self.nesting,
        };
        proof {
            assert(copy.id.deep_view() =~= self.id.deep_view());
            assert(copy.generated_span.deep_view() =~= self.generated_span.deep_view());
            assert(copy.attribution_callsite.deep_view() =~= self.attribution_callsite.deep_view());
        }
        copy
    }
}

/// What macros add to the cyclomatic complexity.
#[derive(Clone, Copy, Debug, PartialEq, Eq, Structural)]
pub struct MacroExpansionDeltaBreakdownReport {
    pub macro_body_bases: u64,
    pub decisions: u64,
    pub decision_delta: u64,
    pub cyclomatic_delta: u64,
}

impl DeepView for MacroExpansionDeltaBreakdownReport {
    type V = MacroExpansionDeltaBreakdownReport;

    open spec fn deep_view(&self) -> MacroExpansionDeltaBreakdownReport {
        *self
    }
}

/// What the macros of one invocation add.
#[derive(Debug, PartialEq, Eq)]
pub struct MacroExpansionInvocationMetricsReport {
    pub totals: MacroExpansionDeltaBreakdownReport,
    pub by_origin: SortedMap<String, MacroExpansionDeltaBreakdownReport>,
    pub by_macro_kind: SortedMap<String, MacroExpansionDeltaBreakdownReport>,
    pub decisions_by_kind: SortedMap<String, u64>,
}

/// The model of [`MacroExpansionInvocationMetricsReport`].
#[verifier::ext_equal]
pub struct MacroExpansionInvocationMetricsReportView {
    pub totals: MacroExpansionDeltaBreakdownReport,
    pub by_origin: Map<Seq<char>, MacroExpansionDeltaBreakdownReport>,
    pub by_macro_kind: Map<Seq<char>, MacroExpansionDeltaBreakdownReport>,
    pub decisions_by_kind: Map<Seq<char>, u64>,
}

impl DeepView for MacroExpansionInvocationMetricsReport {
    type V = MacroExpansionInvocationMetricsReportView;

    open spec fn deep_view(&self) -> MacroExpansionInvocationMetricsReportView {
        MacroExpansionInvocationMetricsReportView {
            totals: self.totals,
            by_origin: self.by_origin.deep_view(),
            by_macro_kind: self.by_macro_kind.deep_view(),
            decisions_by_kind: self.decisions_by_kind.deep_view(),
        }
    }
}

/// What the macros of one invocation add, as far as it is known.
#[derive(Debug, PartialEq, Eq)]
pub struct MacroExpansionInvocationReport {
    pub key: String,
    pub target: Option<CompilerTargetReport>,
    pub crate_name: String,
    pub status: SemanticStatus,
    pub reason: Option<String>,
    pub metrics: Option<MacroExpansionInvocationMetricsReport>,
}

/// The model of [`MacroExpansionInvocationReport`].
#[verifier::ext_equal]
pub struct MacroExpansionInvocationReportView {
    pub key: Seq<char>,
    pub target: Option<CompilerTargetReportView>,
    pub crate_name: Seq<char>,
    pub status: SemanticStatus,
    pub reason: Option<Seq<char>>,
    pub metrics: Option<MacroExpansionInvocationMetricsReportView>,
}

impl DeepView for MacroExpansionInvocationReport {
    type V = MacroExpansionInvocationReportView;

    open spec fn deep_view(&self) -> MacroExpansionInvocationReportView {
        MacroExpansionInvocationReportView {
            key: self.key.deep_view(),
            target: self.target.deep_view(),
            crate_name: self.crate_name.deep_view(),
            status: self.status,
            reason: self.reason.deep_view(),
            metrics: self.metrics.deep_view(),
        }
    }
}

/// What macros add to the cyclomatic complexity, by invocation.
#[derive(Debug, PartialEq, Eq)]
pub struct MacroExpansionComplexityReport {
    pub metric: String,
    pub baseline: String,
    pub invocations: Vec<MacroExpansionInvocationReport>,
}

/// The model of [`MacroExpansionComplexityReport`].
#[verifier::ext_equal]
pub struct MacroExpansionComplexityReportView {
    pub metric: Seq<char>,
    pub baseline: Seq<char>,
    pub invocations: Seq<MacroExpansionInvocationReportView>,
}

impl DeepView for MacroExpansionComplexityReport {
    type V = MacroExpansionComplexityReportView;

    open spec fn deep_view(&self) -> MacroExpansionComplexityReportView {
        MacroExpansionComplexityReportView {
            metric: self.metric.deep_view(),
            baseline: self.baseline.deep_view(),
            invocations: self.invocations.deep_view(),
        }
    }
}

/// The facts of one invocation that the macros show in.
pub struct MacroInvocation<'a> {
    pub key: &'a str,
    pub target: Option<&'a CompilerTargetReport>,
    pub crate_name: &'a str,
    pub status: SemanticStatus,
    pub reason: Option<&'a str>,
    pub bodies: &'a Vec<Body>,
    pub decisions: &'a Vec<Decision>,
}

/// The model of [`MacroInvocation`].
pub struct MacroInvocationView {
    pub key: Seq<char>,
    pub target: Option<CompilerTargetReportView>,
    pub crate_name: Seq<char>,
    pub status: SemanticStatus,
    pub reason: Option<Seq<char>>,
    pub bodies: Seq<BodyView>,
    pub decisions: Seq<DecisionView>,
}

impl<'a> DeepView for MacroInvocation<'a> {
    type V = MacroInvocationView;

    open spec fn deep_view(&self) -> MacroInvocationView {
        MacroInvocationView {
            key: self.key@,
            target: match self.target {
                Some(target) => Some(target.deep_view()),
                None => None,
            },
            crate_name: self.crate_name@,
            status: self.status,
            reason: match self.reason {
                Some(reason) => Some(reason@),
                None => None,
            },
            bodies: self.bodies.deep_view(),
            decisions: self.decisions.deep_view(),
        }
    }
}

/// Whether code came from a macro.
pub open spec fn from_macro(origin: ExpansionOrigin) -> bool {
    origin == ExpansionOrigin::LocalMacro || origin == ExpansionOrigin::ExternalMacro
}

/// Whether code came from a macro.
pub fn is_macro(origin: ExpansionOrigin) -> (result: bool)
    ensures
        result == from_macro(origin),
{
    origin == ExpansionOrigin::LocalMacro || origin == ExpansionOrigin::ExternalMacro
}

/// The name of a kind of macro.
pub open spec fn named_macro_kind(value: MacroKind) -> Seq<char> {
    match value {
        MacroKind::Bang => "bang"@,
        MacroKind::Attribute => "attribute"@,
        MacroKind::Derive => "derive"@,
    }
}

/// The name of a kind of macro.
pub fn macro_kind_name(value: MacroKind) -> (name: &'static str)
    ensures
        name@ == named_macro_kind(value),
{
    match value {
        MacroKind::Bang => "bang",
        MacroKind::Attribute => "attribute",
        MacroKind::Derive => "derive",
    }
}

/// The name of a kind of branch.
pub open spec fn named_decision_kind(value: DecisionKind) -> Seq<char> {
    match value {
        DecisionKind::Conditional => "conditional"@,
        DecisionKind::Loop => "loop"@,
        DecisionKind::Match => "match"@,
        DecisionKind::MatchAlternative => "match_alternative"@,
        DecisionKind::Guard => "guard"@,
        DecisionKind::ShortCircuit => "short_circuit"@,
        DecisionKind::Try => "try"@,
        DecisionKind::LetElse => "let_else"@,
    }
}

/// The name of a kind of branch.
pub fn decision_kind_name(value: DecisionKind) -> (name: &'static str)
    ensures
        name@ == named_decision_kind(value),
{
    match value {
        DecisionKind::Conditional => "conditional",
        DecisionKind::Loop => "loop",
        DecisionKind::Match => "match",
        DecisionKind::MatchAlternative => "match_alternative",
        DecisionKind::Guard => "guard",
        DecisionKind::ShortCircuit => "short_circuit",
        DecisionKind::Try => "try",
        DecisionKind::LetElse => "let_else",
    }
}

/// What a branch adds to the cyclomatic complexity: a match adds nothing beside its arms.
pub open spec fn weight(kind: DecisionKind) -> nat {
    if kind == DecisionKind::Match {
        0
    } else {
        1
    }
}

/// Complains about a body that repeats another, or that disagrees with itself on its macro.
pub open spec fn body_complaint(bodies: Seq<BodyView>) -> spec_fn(int) -> Option<Seq<char>> {
    |i: int|
        {
            let body = bodies[i];
            if exists|j: int| 0 <= j < i && (#[trigger] bodies[j]).compiler_id == body.compiler_id {
                Some(
                    "duplicate conceptual body identity "@ + decimal(
                        body.compiler_id.stable_crate_id as nat,
                    ) + ":"@ + decimal(body.compiler_id.local_hash as nat),
                )
            } else if from_macro(body.expansion_origin) != body.macro_kind is Some || (!from_macro(
                body.expansion_origin,
            ) && body.macro_definition is Some) {
                Some("body expansion origin and macro identity disagree"@)
            } else {
                None
            }
        }
}

/// The identities of the bodies.
pub open spec fn body_ids(bodies: Seq<BodyView>) -> Set<CompilerDefId> {
    image(bodies, |body: BodyView| Some(body.compiler_id))
}

/// Complains about a branch in no body, or of no macro.
pub open spec fn decision_complaint(bodies: Seq<BodyView>, decisions: Seq<DecisionView>) -> spec_fn(
    int,
) -> Option<Seq<char>> {
    |i: int|
        if !body_ids(bodies).contains(decisions[i].body) {
            Some("macro decision refers to an unknown conceptual body"@)
        } else if !from_macro(decisions[i].expansion_origin) {
            Some("expansion decision is not attributed to a macro"@)
        } else {
            None
        }
}

/// What is wrong with bodies and branches.
pub open spec fn facts_complaint(bodies: Seq<BodyView>, decisions: Seq<DecisionView>) -> Option<
    Seq<char>,
> {
    match first_error(bodies.len() as int, body_complaint(bodies), 0) {
        Some(message) => Some(message),
        None => first_error(decisions.len() as int, decision_complaint(bodies, decisions), 0),
    }
}

/// Checks bodies and branches.
pub fn validate(bodies: &Vec<Body>, decisions: &Vec<Decision>) -> (result: Result<(), String>)
    ensures
        reports(result, facts_complaint(bodies.deep_view(), decisions.deep_view())),
{
    let ghost all = bodies.deep_view();
    let ghost complaint = body_complaint(all);
    let ghost f = |body: BodyView| Some(body.compiler_id);
    let mut ids: SortedSet<CompilerDefId> = SortedSet::new();
    let mut index: usize = 0;
    proof {
        lemma_image_ends(all, f);
    }
    while index < bodies.len()
        invariant
            all == bodies.deep_view(),
            complaint == body_complaint(all),
            f == |body: BodyView| Some(body.compiler_id),
            index <= all.len(),
            ids.wf(),
            ids.deep_view() == image(all.take(index as int), f),
            first_error(all.len() as int, complaint, 0) == first_error(
                all.len() as int,
                complaint,
                index as int,
            ),
        decreases all.len() - index,
    {
        let body = &bodies[index];
        let ghost seen = all.take(index as int);
        let ghost had = ids.deep_view();
        proof {
            assert(all[index as int] == body.deep_view());
            lemma_image_step(all, f, index as int);
        }
        let added = ids.insert(body.compiler_id);
        proof {
            if !added {
                let j = choose|j: int|
                    0 <= j < seen.len() && f(#[trigger] seen[j]) == Some(body.compiler_id);
                assert(all[j].compiler_id == body.compiler_id);
            } else {
                assert forall|j: int| 0 <= j < index implies (#[trigger] all[j]).compiler_id
                    != body.compiler_id by {
                    if all[j].compiler_id == body.compiler_id {
                        assert(f(seen[j]) == Some(body.compiler_id));
                        assert(had.contains(body.compiler_id));
                    }
                }
            }
        }
        if !added {
            let mut message = "duplicate conceptual body identity ".to_owned();
            message.append(decimal_text(body.compiler_id.stable_crate_id as u128).as_str());
            message.append(":");
            message.append(decimal_text(body.compiler_id.local_hash as u128).as_str());
            return Err(message);
        }
        if is_macro(body.expansion_origin) != body.macro_kind.is_some() || (!is_macro(
            body.expansion_origin,
        ) && body.macro_definition.is_some()) {
            return Err("body expansion origin and macro identity disagree".to_owned());
        }
        index = index + 1;
    }
    proof {
        lemma_image_ends(all, f);
    }
    let ghost branches = decisions.deep_view();
    let ghost objection = decision_complaint(all, branches);
    let mut at: usize = 0;
    while at < decisions.len()
        invariant
            all == bodies.deep_view(),
            branches == decisions.deep_view(),
            objection == decision_complaint(all, branches),
            ids.wf(),
            ids.deep_view() == body_ids(all),
            at <= branches.len(),
            first_error(all.len() as int, body_complaint(all), 0) is None,
            first_error(branches.len() as int, objection, 0) == first_error(
                branches.len() as int,
                objection,
                at as int,
            ),
        decreases branches.len() - at,
    {
        let decision = &decisions[at];
        proof {
            assert(branches[at as int] == decision.deep_view());
        }
        if !ids.contains(&decision.body) {
            return Err("macro decision refers to an unknown conceptual body".to_owned());
        }
        if !is_macro(decision.expansion_origin) {
            return Err("expansion decision is not attributed to a macro".to_owned());
        }
        at = at + 1;
    }
    Ok(())
}

/// What the bodies and branches with some properties add.
pub open spec fn breakdown(
    bodies: Seq<BodyView>,
    decisions: Seq<DecisionView>,
    of_body: spec_fn(BodyView) -> bool,
    of_decision: spec_fn(DecisionView) -> bool,
) -> MacroExpansionDeltaBreakdownReport {
    let bases = count_where(
        bodies,
        |body: BodyView| from_macro(body.expansion_origin) && of_body(body),
    );
    let delta = count_where(
        decisions,
        |decision: DecisionView| of_decision(decision) && weight(decision.kind) == 1,
    );
    MacroExpansionDeltaBreakdownReport {
        macro_body_bases: bases as u64,
        decisions: count_where(decisions, of_decision) as u64,
        decision_delta: delta as u64,
        cyclomatic_delta: (bases + delta) as u64,
    }
}

/// Whether a part adds anything, and so is listed.
pub open spec fn listed(part: MacroExpansionDeltaBreakdownReport) -> bool {
    part.macro_body_bases > 0 || part.decisions > 0
}

/// What is listed so far with one more part.
pub open spec fn with_part(
    parts: Map<Seq<char>, MacroExpansionDeltaBreakdownReport>,
    name: Seq<char>,
    part: MacroExpansionDeltaBreakdownReport,
) -> Map<Seq<char>, MacroExpansionDeltaBreakdownReport> {
    if listed(part) {
        parts.insert(name, part)
    } else {
        parts
    }
}

/// What the macros of one origin add.
pub open spec fn origin_part(
    bodies: Seq<BodyView>,
    decisions: Seq<DecisionView>,
    origin: ExpansionOrigin,
) -> MacroExpansionDeltaBreakdownReport {
    breakdown(
        bodies,
        decisions,
        |body: BodyView| body.expansion_origin == origin,
        |decision: DecisionView| decision.expansion_origin == origin,
    )
}

/// What the macros of one kind add.
pub open spec fn kind_part(
    bodies: Seq<BodyView>,
    decisions: Seq<DecisionView>,
    kind: MacroKind,
) -> MacroExpansionDeltaBreakdownReport {
    breakdown(
        bodies,
        decisions,
        |body: BodyView| body.macro_kind == Some(kind),
        |decision: DecisionView| decision.macro_kind == kind,
    )
}

/// How many branches are of a kind.
pub open spec fn count_of_kind(decisions: Seq<DecisionView>, kind: DecisionKind) -> nat {
    count_where(decisions, |decision: DecisionView| decision.kind == kind)
}

/// What is counted so far with one more kind.
pub open spec fn with_kind(
    counted: Map<Seq<char>, u64>,
    decisions: Seq<DecisionView>,
    kind: DecisionKind,
) -> Map<Seq<char>, u64> {
    if count_of_kind(decisions, kind) > 0 {
        counted.insert(named_decision_kind(kind), count_of_kind(decisions, kind) as u64)
    } else {
        counted
    }
}

/// How many branches there are of each kind that occurs.
pub open spec fn kinds_counted(decisions: Seq<DecisionView>) -> Map<Seq<char>, u64> {
    let counted_0 = with_kind(Map::<Seq<char>, u64>::empty(), decisions, DecisionKind::Conditional);
    let counted_1 = with_kind(counted_0, decisions, DecisionKind::Loop);
    let counted_2 = with_kind(counted_1, decisions, DecisionKind::Match);
    let counted_3 = with_kind(counted_2, decisions, DecisionKind::MatchAlternative);
    let counted_4 = with_kind(counted_3, decisions, DecisionKind::Guard);
    let counted_5 = with_kind(counted_4, decisions, DecisionKind::ShortCircuit);
    let counted_6 = with_kind(counted_5, decisions, DecisionKind::Try);
    let counted_7 = with_kind(counted_6, decisions, DecisionKind::LetElse);
    counted_7
}

/// What the macros of one invocation add.
pub open spec fn metrics_of(
    bodies: Seq<BodyView>,
    decisions: Seq<DecisionView>,
) -> MacroExpansionInvocationMetricsReportView {
    MacroExpansionInvocationMetricsReportView {
        totals: breakdown(bodies, decisions, |body: BodyView| true, |decision: DecisionView| true),
        by_origin: with_part(
            with_part(
                Map::empty(),
                "local_macro"@,
                origin_part(bodies, decisions, ExpansionOrigin::LocalMacro),
            ),
            "external_macro"@,
            origin_part(bodies, decisions, ExpansionOrigin::ExternalMacro),
        ),
        by_macro_kind: with_part(
            with_part(
                with_part(
                    Map::empty(),
                    "bang"@,
                    kind_part(bodies, decisions, MacroKind::Bang),
                ),
                "attribute"@,
                kind_part(bodies, decisions, MacroKind::Attribute),
            ),
            "derive"@,
            kind_part(bodies, decisions, MacroKind::Derive),
        ),
        decisions_by_kind: kinds_counted(decisions),
    }
}

fn break_down<F: Fn(&Body) -> bool, G: Fn(&Decision) -> bool>(
    bodies: &Vec<Body>,
    decisions: &Vec<Decision>,
    test_body: F,
    test_decision: G,
    Ghost(of_body): Ghost<spec_fn(BodyView) -> bool>,
    Ghost(of_decision): Ghost<spec_fn(DecisionView) -> bool>,
) -> (part: MacroExpansionDeltaBreakdownReport)
    requires
        bodies.len() + decisions.len() <= u64::MAX,
        forall|body: &Body| call_requires(test_body, (body,)),
        forall|body: &Body, result: bool|
            call_ensures(test_body, (body,), result) ==> result == of_body(body.deep_view()),
        forall|decision: &Decision| call_requires(test_decision, (decision,)),
        forall|decision: &Decision, result: bool|
            call_ensures(test_decision, (decision,), result) ==> result == of_decision(
                decision.deep_view(),
            ),
    ensures
        part == breakdown(bodies.deep_view(), decisions.deep_view(), of_body, of_decision),
{
    let ghost base = |body: BodyView| from_macro(body.expansion_origin) && of_body(body);
    let ghost adding = |decision: DecisionView|
        of_decision(decision) && weight(decision.kind) == 1;
    let is_base = |body: &Body| -> (result: bool)
        ensures
            result == base(body.deep_view()),
    {
        is_macro(body.expansion_origin) && test_body(body)
    };
    let adds = |decision: &Decision| -> (result: bool)
        ensures
            result == adding(decision.deep_view()),
    {
        test_decision(decision) && decision.kind != DecisionKind::Match
    };
    let bases = count_items(bodies, is_base, Ghost(base)) as u64;
    let delta = count_items(decisions, adds, Ghost(adding)) as u64;
    let count = count_items(decisions, test_decision, Ghost(of_decision)) as u64;
    MacroExpansionDeltaBreakdownReport {
        macro_body_bases: bases,
        decisions: count,
        decision_delta: delta,
        cyclomatic_delta: bases + delta,
    }
}

fn break_down_origin(bodies: &Vec<Body>, decisions: &Vec<Decision>, origin: ExpansionOrigin) -> (
    part: MacroExpansionDeltaBreakdownReport)
    requires
        bodies.len() + decisions.len() <= u64::MAX,
    ensures
        part == origin_part(bodies.deep_view(), decisions.deep_view(), origin),
{
    let ghost of_body = |body: BodyView| body.expansion_origin == origin;
    let ghost of_decision = |decision: DecisionView| decision.expansion_origin == origin;
    let test_body = |body: &Body| -> (result: bool)
        ensures
            result == of_body(body.deep_view()),
    {
        body.expansion_origin == origin
    };
    let test_decision = |decision: &Decision| -> (result: bool)
        ensures
            result == of_decision(decision.deep_view()),
    {
        decision.expansion_origin == origin
    };
    break_down(
        bodies,
        decisions,
        test_body,
        test_decision,
        Ghost(of_body),
        Ghost(of_decision),
    )
}

fn break_down_kind(bodies: &Vec<Body>, decisions: &Vec<Decision>, kind: MacroKind) -> (part:
    MacroExpansionDeltaBreakdownReport)
    requires
        bodies.len() + decisions.len() <= u64::MAX,
    ensures
        part == kind_part(bodies.deep_view(), decisions.deep_view(), kind),
{
    let ghost of_body = |body: BodyView| body.macro_kind == Some(kind);
    let ghost of_decision = |decision: DecisionView| decision.macro_kind == kind;
    let test_body = |body: &Body| -> (result: bool)
        ensures
            result == of_body(body.deep_view()),
    {
        match body.macro_kind {
            Some(found) => found == kind,
            None => false,
        }
    };
    let test_decision = |decision: &Decision| -> (result: bool)
        ensures
            result == of_decision(decision.deep_view()),
    {
        decision.macro_kind == kind
    };
    break_down(
        bodies,
        decisions,
        test_body,
        test_decision,
        Ghost(of_body),
        Ghost(of_decision),
    )
}

fn add_part(
    parts: &mut SortedMap<String, MacroExpansionDeltaBreakdownReport>,
    name: &str,
    part: MacroExpansionDeltaBreakdownReport,
)
    requires
        old(parts).wf(),
    ensures
        final(parts).wf(),
        final(parts).deep_view() == with_part(old(parts).deep_view(), name@, part),
{
    if part.macro_body_bases > 0 || part.decisions > 0 {
        parts.insert(name.to_owned(), part);
    }
}

fn count_kind(counted: &mut SortedMap<String, u64>, decisions: &Vec<Decision>, kind: DecisionKind)
    requires
        old(counted).wf(),
    ensures
        final(counted).wf(),
        final(counted).deep_view() == with_kind(
            old(counted).deep_view(),
            decisions.deep_view(),
            kind,
        ),
{
    let ghost property = |decision: DecisionView| decision.kind == kind;
    let test = |decision: &Decision| -> (result: bool)
        ensures
            result == property(decision.deep_view()),
    {
        decision.kind == kind
    };
    let count = count_items(decisions, test, Ghost(property));
    if count > 0 {
        counted.insert(decision_kind_name(kind).to_owned(), count as u64);
    }
}

/// Measures what the macros of one invocation add, where its facts are sound.
pub fn measure(bodies: &Vec<Body>, decisions: &Vec<Decision>) -> (result: Result<
    MacroExpansionInvocationMetricsReport,
    String,
>)
    requires
        bodies.len() + decisions.len() <= u64::MAX,
    ensures
        reports(result, facts_complaint(bodies.deep_view(), decisions.deep_view())),
        result matches Ok(metrics) ==> metrics.deep_view() == metrics_of(
            bodies.deep_view(),
            decisions.deep_view(),
        ),
{
    if let Err(message) = validate(bodies, decisions) {
        return Err(message);
    }
    let ghost any_body = |body: BodyView| true;
    let ghost any_decision = |decision: DecisionView| true;
    let test_body = |body: &Body| -> (result: bool)
        ensures
            result == any_body(body.deep_view()),
    {
        true
    };
    let test_decision = |decision: &Decision| -> (result: bool)
        ensures
            result == any_decision(decision.deep_view()),
    {
        true
    };
    let totals = break_down(
        bodies,
        decisions,
        test_body,
        test_decision,
        Ghost(any_body),
        Ghost(any_decision),
    );
    let mut by_origin: SortedMap<String, MacroExpansionDeltaBreakdownReport> = SortedMap::new();
    proof {
        assert(by_origin.deep_view() =~= Map::empty());
    }
    add_part(
        &mut by_origin,
        "local_macro",
        break_down_origin(bodies, decisions, ExpansionOrigin::LocalMacro),
    );
    add_part(
        &mut by_origin,
        "external_macro",
        break_down_origin(bodies, decisions, ExpansionOrigin::ExternalMacro),
    );
    let mut by_macro_kind: SortedMap<String, MacroExpansionDeltaBreakdownReport> = SortedMap::new();
    proof {
        assert(by_macro_kind.deep_view() =~= Map::empty());
    }
    add_part(
        &mut by_macro_kind,
        macro_kind_name(MacroKind::Bang),
        break_down_kind(bodies, decisions, MacroKind::Bang),
    );
    add_part(
        &mut by_macro_kind,
        macro_kind_name(MacroKind::Attribute),
        break_down_kind(bodies, decisions, MacroKind::Attribute),
    );
    add_part(
        &mut by_macro_kind,
        macro_kind_name(MacroKind::Derive),
        break_down_kind(bodies, decisions, MacroKind::Derive),
    );
    let mut decisions_by_kind: SortedMap<String, u64> = SortedMap::new();
    proof {
        assert(decisions_by_kind.deep_view() =~= Map::empty());
    }
    count_kind(&mut decisions_by_kind, decisions, DecisionKind::Conditional);
    count_kind(&mut decisions_by_kind, decisions, DecisionKind::Loop);
    count_kind(&mut decisions_by_kind, decisions, DecisionKind::Match);
    count_kind(&mut decisions_by_kind, decisions, DecisionKind::MatchAlternative);
    count_kind(&mut decisions_by_kind, decisions, DecisionKind::Guard);
    count_kind(&mut decisions_by_kind, decisions, DecisionKind::ShortCircuit);
    count_kind(&mut decisions_by_kind, decisions, DecisionKind::Try);
    count_kind(&mut decisions_by_kind, decisions, DecisionKind::LetElse);
    Ok(
        MacroExpansionInvocationMetricsReport {
            totals,
            by_origin,
            by_macro_kind,
            decisions_by_kind,
        },
    )
}

/// What an invocation is said to lack.
pub open spec fn lacks(
    trustworthy: bool,
    invocation: MacroInvocationView,
) -> Option<Seq<char>> {
    if !trustworthy {
        Some("compiler sidecar or generated-source integrity was incomplete"@)
    } else if invocation.status == SemanticStatus::Complete {
        facts_complaint(invocation.bodies, invocation.decisions)
    } else {
        None
    }
}

/// The reasons why an invocation shows no metrics.
pub open spec fn lacking_reasons(trustworthy: bool, invocation: MacroInvocationView) -> Seq<
    Seq<char>,
> {
    let told = match invocation.reason {
        Some(reason) => Seq::<Seq<char>>::empty().push(reason),
        None => Seq::<Seq<char>>::empty(),
    };
    let all = match lacks(trustworthy, invocation) {
        Some(reason) => told.push(reason),
        None => told,
    };
    ascending::<String>(all.to_set())
}

/// What one invocation shows: metrics only where its facts are trusted, complete and sound.
pub open spec fn invocation_shows(
    trustworthy: bool,
    invocation: MacroInvocationView,
) -> MacroExpansionInvocationReportView {
    let reasons = lacking_reasons(trustworthy, invocation);
    MacroExpansionInvocationReportView {
        key: invocation.key,
        target: invocation.target,
        crate_name: invocation.crate_name,
        status: if invocation.status == SemanticStatus::Complete && lacks(
            trustworthy,
            invocation,
        ) is Some {
            SemanticStatus::Partial
        } else {
            invocation.status
        },
        reason: if reasons.len() == 0 {
            None
        } else {
            Some(joined(reasons, "; "@))
        },
        metrics: if invocation.status == SemanticStatus::Complete && lacks(
            trustworthy,
            invocation,
        ) is None {
            Some(metrics_of(invocation.bodies, invocation.decisions))
        } else {
            None
        },
    }
}

fn invocation_report(trustworthy: bool, invocation: &MacroInvocation<'_>) -> (report:
    MacroExpansionInvocationReport)
    requires
        invocation.bodies.len() + invocation.decisions.len() <= u64::MAX,
    ensures
        report.deep_view() == invocation_shows(trustworthy, invocation.deep_view()),
{
    let mut status = invocation.status;
    let mut reasons: Vec<String> = no_items();
    if let Some(reason) = invocation.reason {
        push_item(&mut reasons, reason.to_owned());
    }
    let metrics = if !trustworthy {
        if status == SemanticStatus::Complete {
            status = SemanticStatus::Partial;
        }
        push_item(
            &mut reasons,
            "compiler sidecar or generated-source integrity was incomplete".to_owned(),
        );
        None
    } else if status != SemanticStatus::Complete {
        None
    } else {
        match measure(invocation.bodies, invocation.decisions) {
            Ok(metrics) => Some(metrics),
            Err(reason) => {
                status = SemanticStatus::Partial;
                push_item(&mut reasons, reason);
                None
            },
        }
    };
    let reasons = sorted_unique(reasons);
    proof {
        assert(reasons.deep_view() == lacking_reasons(trustworthy, invocation.deep_view()));
        assert(reasons.len() == reasons.deep_view().len());
    }
    MacroExpansionInvocationReport {
        key: invocation.key.to_owned(),
        target: match invocation.target {
            Some(target) => Some(target.clone()),
            None => None,
        },
        crate_name: invocation.crate_name.to_owned(),
        status,
        reason: if reasons.len() == 0 {
            None
        } else {
            Some(join(&reasons, "; "))
        },
        metrics,
    }
}

/// The reports of the invocations with the keys that they are ordered by.
pub open spec fn keyed_reports(
    trustworthy: bool,
    invocations: Seq<MacroInvocationView>,
) -> Seq<(Seq<char>, MacroExpansionInvocationReportView)> {
    Seq::new(
        invocations.len(),
        |i: int| (invocations[i].key, invocation_shows(trustworthy, invocations[i])),
    )
}

/// What macros add, by invocation; nothing is said where there is no invocation.
#[verifier::opaque]
pub open spec fn complexity_of(trustworthy: bool, invocations: Seq<MacroInvocationView>) -> Option<
    MacroExpansionComplexityReportView,
> {
    if invocations.len() == 0 {
        None
    } else {
        Some(
            MacroExpansionComplexityReportView {
                metric: "macro_expansion_cyclomatic_delta"@,
                baseline: "source-authored cyclomatic complexity; combine only after exact body and profile correlation"@,
                invocations: second(
                    stable_sorted::<String, MacroExpansionInvocationReport>(
                        keyed_reports(trustworthy, invocations),
                    ),
                ),
            },
        )
    }
}

/// Reports what macros add, by invocation.
pub fn aggregate(collection_trustworthy: bool, invocations: &Vec<MacroInvocation<'_>>) -> (report:
    Option<MacroExpansionComplexityReport>)
    requires
        forall|i: int|
            0 <= i < invocations.len() ==> (#[trigger] invocations[i]).bodies.len()
                + invocations[i].decisions.len() <= u64::MAX,
    ensures
        report.deep_view() == complexity_of(collection_trustworthy, invocations.deep_view()),
{
    proof {
        reveal(complexity_of);
    }
    let ghost all = invocations.deep_view();
    if invocations.len() == 0 {
        return None;
    }
    let mut entries: Vec<(String, MacroExpansionInvocationReport)> = no_items();
    let mut index: usize = 0;
    while index < invocations.len()
        invariant
            forall|i: int|
                0 <= i < invocations.len() ==> (#[trigger] invocations[i]).bodies.len()
                    + invocations[i].decisions.len() <= u64::MAX,
            all == invocations.deep_view(),
            index <= all.len(),
            entries.deep_view() =~= keyed_reports(collection_trustworthy, all).take(index as int),
        decreases all.len() - index,
    {
        proof {
            assert(all[index as int] == invocations[index as int].deep_view());
        }
        let report = invocation_report(collection_trustworthy, &invocations[index]);
        push_item(&mut entries, (invocations[index].key.to_owned(), report));
        index = index + 1;
    }
    proof {
        assert(entries.deep_view() =~= keyed_reports(collection_trustworthy, all));
    }
    Some(
        MacroExpansionComplexityReport {
            metric: "macro_expansion_cyclomatic_delta".to_owned(),
            baseline: "source-authored cyclomatic complexity; combine only after exact body and profile correlation".to_owned(),
            invocations: take_second(stable_sort(entries)),
        },
    )
}

/// Facts that are not complete, not trusted or not sound never show as metrics, not even as zeros.
pub proof fn law_incomplete_facts_show_no_metrics(
    trustworthy: bool,
    invocation: MacroInvocationView,
)
    ensures
        invocation_shows(trustworthy, invocation).metrics is Some == (trustworthy
            && invocation.status == SemanticStatus::Complete && facts_complaint(
            invocation.bodies,
            invocation.decisions,
        ) is None),
        invocation_shows(trustworthy, invocation).metrics is Some == (invocation_shows(
            trustworthy,
            invocation,
        ).status == SemanticStatus::Complete),
{
}

/// The bodies and the branches of macros are counted apart, and both count.
pub proof fn law_totals_add_up(bodies: Seq<BodyView>, decisions: Seq<DecisionView>)
    requires
        bodies.len() + decisions.len() <= u64::MAX,
    ensures
        metrics_of(bodies, decisions).totals.cyclomatic_delta == metrics_of(
            bodies,
            decisions,
        ).totals.macro_body_bases + metrics_of(bodies, decisions).totals.decision_delta,
        metrics_of(bodies, decisions).totals.decision_delta <= metrics_of(
            bodies,
            decisions,
        ).totals.decisions,
        metrics_of(bodies, decisions).totals.decisions == decisions.len(),
{
    lemma_count_bound(bodies, |body: BodyView| from_macro(body.expansion_origin) && true);
    lemma_count_bound(decisions, |decision: DecisionView| true && weight(decision.kind) == 1);
    lemma_count_all(decisions);
    let t = |body: BodyView| true;
    let s = |decision: DecisionView| true;
    let bases = |body: BodyView| from_macro(body.expansion_origin) && t(body);
    let adding = |decision: DecisionView| s(decision) && weight(decision.kind) == 1;
    lemma_count_bound(bodies, bases);
    lemma_count_bound(decisions, adding);
}

/// Everything counts where the property always holds.
proof fn lemma_count_all(decisions: Seq<DecisionView>)
    ensures
        count_where(decisions, |decision: DecisionView| true) == decisions.len(),
    decreases decisions.len(),
{
    if decisions.len() > 0 {
        lemma_count_all(decisions.drop_last());
    }
}

} // verus!
