//! What the parts of a body name, beyond the paths that are written out.

use vstd::prelude::*;

use crate::collections::{collect_items, collect_set, collected, image, no_items, SortedSet};
use crate::driver::definitions::{
    definition_kind, reported_kind, DefKind, LocatedSpanView, SpanAttribution, SpanAttributionView,
};
use crate::driver::references::known_place;
use crate::driver::targets::{
    earlier_place, named_by, resolved_targets, with_target, ReferenceTargets, Resolution,
    ResolutionView,
};
use crate::order::Ordered;
use crate::protocol::{CompilerDefId, SourceSpan};

verus! {

/// The path of an expression or pattern.
#[derive(Debug, PartialEq, Eq)]
pub struct PathUse {
    /// Whether it starts with a type, so that only the types of the body say what it stands for.
    pub relative: bool,
    pub resolution: Option<Resolution>,
}

/// The model of [`PathUse`].
#[verifier::ext_equal]
pub struct PathUseView {
    pub relative: bool,
    pub resolution: Option<ResolutionView>,
}

impl DeepView for PathUse {
    type V = PathUseView;

    open spec fn deep_view(&self) -> PathUseView {
        PathUseView { relative: self.relative, resolution: self.resolution.deep_view() }
    }
}

/// A field that is used under its name.
#[derive(Debug, PartialEq, Eq)]
pub struct FieldUse {
    pub field: CompilerDefId,
    pub location: SpanAttribution,
}

/// The model of [`FieldUse`].
#[verifier::ext_equal]
pub struct FieldUseView {
    pub field: CompilerDefId,
    pub location: SpanAttributionView,
}

impl DeepView for FieldUse {
    type V = FieldUseView;

    open spec fn deep_view(&self) -> FieldUseView {
        FieldUseView { field: self.field, location: self.location.deep_view() }
    }
}

/// A field on the way to an offset.
#[derive(Clone, Copy, Debug, PartialEq, Eq, Structural)]
pub struct OffsetStep {
    /// Whether it is a field of an enum.
    pub of_enum: bool,
    pub field: CompilerDefId,
}

impl DeepView for OffsetStep {
    type V = OffsetStep;

    open spec fn deep_view(&self) -> OffsetStep {
        *self
    }
}

/// An expression that can name more than is written out.
#[derive(Debug, PartialEq, Eq)]
pub enum Expression {
    /// A path, with the fields of what it constructs where it stands for a constructor.
    Path { path: PathUse, constructed: Vec<CompilerDefId> },
    /// A struct that is built from the fields that are written out and, where there is a rest,
    /// from all others.
    Struct { path: PathUse, fields: Vec<FieldUse>, has_rest: bool, all_fields: Vec<CompilerDefId> },
    /// A field of a value.
    Field { of_enum: bool, field: Option<FieldUse> },
    /// The offset of a field.
    OffsetOf { steps: Vec<OffsetStep> },
    /// A method that is called.
    MethodCall { method: Option<CompilerDefId> },
    Other,
}

/// The model of [`Expression`].
pub enum ExpressionView {
    Path { path: PathUseView, constructed: Seq<CompilerDefId> },
    Struct {
        path: PathUseView,
        fields: Seq<FieldUseView>,
        has_rest: bool,
        all_fields: Seq<CompilerDefId>,
    },
    Field { of_enum: bool, field: Option<FieldUseView> },
    OffsetOf { steps: Seq<OffsetStep> },
    MethodCall { method: Option<CompilerDefId> },
    Other,
}

impl DeepView for Expression {
    type V = ExpressionView;

    open spec fn deep_view(&self) -> ExpressionView {
        match self {
            Expression::Path { path, constructed } => ExpressionView::Path {
                path: path.deep_view(),
                constructed: constructed.deep_view(),
            },
            Expression::Struct { path, fields, has_rest, all_fields } => ExpressionView::Struct {
                path: path.deep_view(),
                fields: fields.deep_view(),
                has_rest: *has_rest,
                all_fields: all_fields.deep_view(),
            },
            Expression::Field { of_enum, field } => ExpressionView::Field {
                of_enum: *of_enum,
                field: field.deep_view(),
            },
            Expression::OffsetOf { steps } => ExpressionView::OffsetOf { steps: steps.deep_view() },
            Expression::MethodCall { method } => ExpressionView::MethodCall { method: *method },
            Expression::Other => ExpressionView::Other,
        }
    }
}

/// A pattern that can name more than is written out.
#[derive(Debug, PartialEq, Eq)]
pub enum Pattern {
    /// A struct with the fields that are written out.
    Struct { path: PathUse, fields: Vec<FieldUse> },
    /// A tuple struct. Its constructor is out of reach where any field is private, so that every
    /// field counts, also those that the pattern leaves out.
    TupleStruct { path: PathUse, all_fields: Vec<CompilerDefId> },
    /// A constant or a unit struct.
    Path { path: PathUse },
    Other,
}

/// The model of [`Pattern`].
pub enum PatternView {
    Struct { path: PathUseView, fields: Seq<FieldUseView> },
    TupleStruct { path: PathUseView, all_fields: Seq<CompilerDefId> },
    Path { path: PathUseView },
    Other,
}

impl DeepView for Pattern {
    type V = PatternView;

    open spec fn deep_view(&self) -> PatternView {
        match self {
            Pattern::Struct { path, fields } => PatternView::Struct {
                path: path.deep_view(),
                fields: fields.deep_view(),
            },
            Pattern::TupleStruct { path, all_fields } => PatternView::TupleStruct {
                path: path.deep_view(),
                all_fields: all_fields.deep_view(),
            },
            Pattern::Path { path } => PatternView::Path { path: path.deep_view() },
            Pattern::Other => PatternView::Other,
        }
    }
}

/// A definition of the crate, and its kind.
#[derive(Clone, Copy, Debug, PartialEq, Eq, Structural)]
pub struct LocalKind {
    pub id: CompilerDefId,
    pub kind: DefKind,
}

impl DeepView for LocalKind {
    type V = LocalKind;

    open spec fn deep_view(&self) -> LocalKind {
        *self
    }
}

/// The definitions of the crate that are not reported.
pub open spec fn hidden_of(definitions: Seq<LocalKind>) -> Set<CompilerDefId> {
    image(
        definitions,
        |definition: LocalKind|
            if reported_kind(definition.kind, false) is None {
                Some(definition.id)
            } else {
                None
            },
    )
}

/// Picks the definitions of the crate that are not reported.
pub fn hidden_definitions(definitions: &Vec<LocalKind>) -> (hidden: SortedSet<CompilerDefId>)
    ensures
        hidden.wf(),
        hidden.deep_view() == hidden_of(definitions.deep_view()),
{
    let ghost f = |definition: LocalKind|
        if reported_kind(definition.kind, false) is None {
            Some(definition.id)
        } else {
            None
        };
    let pick = |definition: &LocalKind| -> (id: Option<CompilerDefId>)
        ensures
            id.deep_view() == f(definition.deep_view()),
    {
        match definition_kind(definition.kind, false) {
            None => Some(definition.id),
            Some(_) => None,
        }
    };
    collect_set(definitions, pick, Ghost(f))
}

/// What code names, each definition with the first place where it does.
pub type NamedPlaces = Map<CompilerDefId, Option<LocatedSpanView>>;

/// What is named, with more definitions at one place. Definitions of the crate that are not
/// reported are left out.
pub open spec fn with_named(
    targets: NamedPlaces,
    hidden: Set<CompilerDefId>,
    named: Seq<CompilerDefId>,
    place: Option<LocatedSpanView>,
) -> NamedPlaces
    decreases named.len(),
{
    if named.len() == 0 {
        targets
    } else {
        let before = with_named(targets, hidden, named.drop_last(), place);
        if hidden.contains(named.last()) {
            before
        } else {
            with_target(before, named.last(), place)
        }
    }
}

/// What is named, with fields at places of their own.
pub open spec fn with_fields(
    targets: NamedPlaces,
    hidden: Set<CompilerDefId>,
    fields: Seq<FieldUseView>,
) -> NamedPlaces
    decreases fields.len(),
{
    if fields.len() == 0 {
        targets
    } else {
        with_named(
            with_fields(targets, hidden, fields.drop_last()),
            hidden,
            seq![fields.last().field],
            known_place(fields.last().location),
        )
    }
}

/// What a path names that is only known by the types of the body.
pub open spec fn relative_names(path: PathUseView) -> Seq<CompilerDefId> {
    match path.resolution {
        Some(resolution) if path.relative => named_by(resolution),
        _ => Seq::empty(),
    }
}

/// The fields on the way to an offset that are named by it.
pub open spec fn offset_fields(steps: Seq<OffsetStep>) -> Seq<CompilerDefId> {
    collected(
        steps,
        |step: OffsetStep|
            if step.of_enum {
                None
            } else {
                Some(step.field)
            },
    )
}

/// What is named, with what an expression names.
pub open spec fn with_expression(
    targets: NamedPlaces,
    hidden: Set<CompilerDefId>,
    expression: ExpressionView,
    place: Option<LocatedSpanView>,
) -> NamedPlaces {
    match expression {
        ExpressionView::Path { path, constructed } => with_named(
            with_named(targets, hidden, relative_names(path), place),
            hidden,
            constructed,
            place,
        ),
        ExpressionView::Struct { path, fields, has_rest, all_fields } => {
            let written = with_fields(
                with_named(targets, hidden, relative_names(path), place),
                hidden,
                fields,
            );
            if has_rest {
                with_named(written, hidden, all_fields, place)
            } else {
                written
            }
        },
        ExpressionView::Field { of_enum, field } => match field {
            Some(field) if !of_enum => with_fields(targets, hidden, seq![field]),
            _ => targets,
        },
        ExpressionView::OffsetOf { steps } => with_named(
            targets,
            hidden,
            offset_fields(steps),
            place,
        ),
        ExpressionView::MethodCall { method } => match method {
            Some(method) => with_named(targets, hidden, seq![method], place),
            None => targets,
        },
        ExpressionView::Other => targets,
    }
}

/// What is named, with what a pattern names.
pub open spec fn with_pattern(
    targets: NamedPlaces,
    hidden: Set<CompilerDefId>,
    pattern: PatternView,
    place: Option<LocatedSpanView>,
) -> NamedPlaces {
    match pattern {
        PatternView::Struct { path, fields } => with_fields(
            with_named(targets, hidden, relative_names(path), place),
            hidden,
            fields,
        ),
        PatternView::TupleStruct { path, all_fields } => with_named(
            with_named(targets, hidden, relative_names(path), place),
            hidden,
            all_fields,
            place,
        ),
        PatternView::Path { path } => with_named(targets, hidden, relative_names(path), place),
        PatternView::Other => targets,
    }
}

fn list_relative_names(path: &PathUse) -> (names: Vec<CompilerDefId>)
    ensures
        names.deep_view() == relative_names(path.deep_view()),
{
    if path.relative {
        if let Some(resolution) = &path.resolution {
            return resolved_targets(resolution);
        }
    }
    no_items()
}

fn list_offset_fields(steps: &Vec<OffsetStep>) -> (fields: Vec<CompilerDefId>)
    ensures
        fields.deep_view() == offset_fields(steps.deep_view()),
{
    let ghost f = |step: OffsetStep|
        if step.of_enum {
            None
        } else {
            Some(step.field)
        };
    let pick = |step: &OffsetStep| -> (field: Option<CompilerDefId>)
        ensures
            field.deep_view() == f(step.deep_view()),
    {
        if step.of_enum {
            None
        } else {
            Some(step.field)
        }
    };
    collect_items(steps, pick, Ghost(f))
}

impl ReferenceTargets {
    /// Takes note of definitions that are named at one place.
    pub fn record_all(
        &mut self,
        hidden: &SortedSet<CompilerDefId>,
        named: &Vec<CompilerDefId>,
        location: &SpanAttribution,
    )
        requires
            old(self).wf(),
            hidden.wf(),
        ensures
            final(self).wf(),
            final(self).deep_view() == with_named(
                old(self).deep_view(),
                hidden.deep_view(),
                named.deep_view(),
                known_place(location.deep_view()),
            ),
    {
        let ghost before = self.deep_view();
        let ghost all = named.deep_view();
        let ghost place = known_place(location.deep_view());
        let mut at: usize = 0;
        proof {
            assert(all.take(0) =~= Seq::<CompilerDefId>::empty());
        }
        while at < named.len()
            invariant
                at <= named.len(),
                all == named.deep_view(),
                self.wf(),
                hidden.wf(),
                place == known_place(location.deep_view()),
                self.deep_view() == with_named(
                    before,
                    hidden.deep_view(),
                    all.take(at as int),
                    place,
                ),
            decreases named.len() - at,
        {
            proof {
                assert(all.take(at as int + 1).drop_last() =~= all.take(at as int));
                assert(all[at as int] == named[at as int]);
            }
            self.record_def(named[at], hidden.contains(&named[at]), location);
            at = at + 1;
        }
        proof {
            assert(all.take(all.len() as int) =~= all);
        }
    }

    /// Takes note of a path that is written out.
    pub fn record(
        &mut self,
        hidden: &SortedSet<CompilerDefId>,
        resolution: &Resolution,
        location: &SpanAttribution,
    )
        requires
            old(self).wf(),
            hidden.wf(),
        ensures
            final(self).wf(),
            final(self).deep_view() == with_named(
                old(self).deep_view(),
                hidden.deep_view(),
                named_by(resolution.deep_view()),
                known_place(location.deep_view()),
            ),
    {
        self.record_all(hidden, &resolved_targets(resolution), location)
    }

    fn record_fields(&mut self, hidden: &SortedSet<CompilerDefId>, fields: &Vec<FieldUse>)
        requires
            old(self).wf(),
            hidden.wf(),
        ensures
            final(self).wf(),
            final(self).deep_view() == with_fields(
                old(self).deep_view(),
                hidden.deep_view(),
                fields.deep_view(),
            ),
    {
        let ghost before = self.deep_view();
        let ghost all = fields.deep_view();
        let mut at: usize = 0;
        proof {
            assert(all.take(0) =~= Seq::<FieldUseView>::empty());
        }
        while at < fields.len()
            invariant
                at <= fields.len(),
                all == fields.deep_view(),
                self.wf(),
                hidden.wf(),
                self.deep_view() == with_fields(before, hidden.deep_view(), all.take(at as int)),
            decreases fields.len() - at,
        {
            proof {
                assert(all.take(at as int + 1).drop_last() =~= all.take(at as int));
                assert(all[at as int] == fields[at as int].deep_view());
            }
            self.record_field(hidden, &fields[at]);
            at = at + 1;
        }
        proof {
            assert(all.take(all.len() as int) =~= all);
        }
    }

    /// Takes note of a field that is used under its name.
    pub fn record_field(&mut self, hidden: &SortedSet<CompilerDefId>, field: &FieldUse)
        requires
            old(self).wf(),
            hidden.wf(),
        ensures
            final(self).wf(),
            final(self).deep_view() == with_named(
                old(self).deep_view(),
                hidden.deep_view(),
                seq![field.field],
                known_place(field.location.deep_view()),
            ),
    {
        let one: Vec<CompilerDefId> = vec![field.field];
        proof {
            assert(one.deep_view() =~= seq![field.field]);
        }
        self.record_all(hidden, &one, &field.location)
    }

    /// Takes note of what an expression names.
    pub fn record_expression(
        &mut self,
        hidden: &SortedSet<CompilerDefId>,
        expression: &Expression,
        location: &SpanAttribution,
    )
        requires
            old(self).wf(),
            hidden.wf(),
        ensures
            final(self).wf(),
            final(self).deep_view() == with_expression(
                old(self).deep_view(),
                hidden.deep_view(),
                expression.deep_view(),
                known_place(location.deep_view()),
            ),
    {
        let ghost before = self.deep_view();
        match expression {
            Expression::Path { path, constructed } => {
                self.record_all(hidden, &list_relative_names(path), location);
                self.record_all(hidden, constructed, location);
            },
            Expression::Struct { path, fields, has_rest, all_fields } => {
                self.record_all(hidden, &list_relative_names(path), location);
                self.record_fields(hidden, fields);
                if *has_rest {
                    self.record_all(hidden, all_fields, location);
                }
            },
            Expression::Field { of_enum, field } => {
                if let Some(field) = field {
                    if !*of_enum {
                        self.record_field(hidden, field);
                        proof {
                            let one = seq![field.deep_view()];
                            assert(one.drop_last() =~= Seq::<FieldUseView>::empty());
                            assert(with_fields(before, hidden.deep_view(), one.drop_last())
                                == before);
                            assert(one.last() == field.deep_view());
                        }
                    }
                }
            },
            Expression::OffsetOf { steps } => {
                self.record_all(hidden, &list_offset_fields(steps), location);
            },
            Expression::MethodCall { method } => {
                if let Some(method) = method {
                    let one: Vec<CompilerDefId> = vec![*method];
                    proof {
                        assert(one.deep_view() =~= seq![*method]);
                    }
                    self.record_all(hidden, &one, location);
                }
            },
            Expression::Other => {},
        }
    }

    /// Takes note of what a pattern names.
    pub fn record_pattern(
        &mut self,
        hidden: &SortedSet<CompilerDefId>,
        pattern: &Pattern,
        location: &SpanAttribution,
    )
        requires
            old(self).wf(),
            hidden.wf(),
        ensures
            final(self).wf(),
            final(self).deep_view() == with_pattern(
                old(self).deep_view(),
                hidden.deep_view(),
                pattern.deep_view(),
                known_place(location.deep_view()),
            ),
    {
        match pattern {
            Pattern::Struct { path, fields } => {
                self.record_all(hidden, &list_relative_names(path), location);
                self.record_fields(hidden, fields);
            },
            Pattern::TupleStruct { path, all_fields } => {
                self.record_all(hidden, &list_relative_names(path), location);
                self.record_all(hidden, all_fields, location);
            },
            Pattern::Path { path } => {
                self.record_all(hidden, &list_relative_names(path), location);
            },
            Pattern::Other => {},
        }
    }
}

/// Whether places that begin and end alike are the same.
pub open spec fn places_agree(
    left: Option<LocatedSpanView>,
    right: Option<LocatedSpanView>,
) -> bool {
    match (left, right) {
        (Some(left), Some(right)) => left.span == right.span ==> left == right,
        _ => true,
    }
}

/// In whatever order two definitions are named, what is named is the same.
pub proof fn law_order_of_naming_does_not_matter(
    targets: NamedPlaces,
    first: CompilerDefId,
    first_place: Option<LocatedSpanView>,
    second: CompilerDefId,
    second_place: Option<LocatedSpanView>,
)
    requires
        places_agree(first_place, second_place),
        targets.contains_key(first) ==> places_agree(targets[first], first_place) && places_agree(
            targets[first],
            second_place,
        ),
    ensures
        with_target(with_target(targets, first, first_place), second, second_place) == with_target(
            with_target(targets, second, second_place),
            first,
            first_place,
        ),
{
    if first == second {
        let kept = if targets.contains_key(first) {
            targets[first]
        } else {
            None
        };
        lemma_earliest(kept, first_place, second_place);
    }
    assert(with_target(with_target(targets, first, first_place), second, second_place)
        =~= with_target(with_target(targets, second, second_place), first, first_place));
}

proof fn lemma_earliest(
    kept: Option<LocatedSpanView>,
    left: Option<LocatedSpanView>,
    right: Option<LocatedSpanView>,
)
    requires
        places_agree(left, right),
        places_agree(kept, left),
        places_agree(kept, right),
    ensures
        earlier_place(earlier_place(kept, left), right) == earlier_place(
            earlier_place(kept, right),
            left,
        ),
{
    if let Some(a) = left {
        if let Some(b) = right {
            <SourceSpan as Ordered>::total(a.span, b.span);
            <SourceSpan as Ordered>::irreflexive(a.span);
            <SourceSpan as Ordered>::irreflexive(b.span);
            if <SourceSpan as Ordered>::precedes(a.span, b.span) && <SourceSpan as Ordered>::precedes(
                b.span,
                a.span,
            ) {
                <SourceSpan as Ordered>::transitive(a.span, b.span, a.span);
            }
            if let Some(k) = kept {
                <SourceSpan as Ordered>::total(k.span, a.span);
                <SourceSpan as Ordered>::total(k.span, b.span);
                <SourceSpan as Ordered>::irreflexive(k.span);
                lemma_chains(a.span, b.span, k.span);
                lemma_chains(a.span, k.span, b.span);
                lemma_chains(b.span, a.span, k.span);
                lemma_chains(b.span, k.span, a.span);
                lemma_chains(k.span, a.span, b.span);
                lemma_chains(k.span, b.span, a.span);
            }
        }
    }
}

proof fn lemma_chains(
    a: <SourceSpan as DeepView>::V,
    b: <SourceSpan as DeepView>::V,
    c: <SourceSpan as DeepView>::V,
)
    ensures
        <SourceSpan as Ordered>::precedes(a, b) && <SourceSpan as Ordered>::precedes(b, c)
            ==> <SourceSpan as Ordered>::precedes(a, c),
{
    if <SourceSpan as Ordered>::precedes(a, b) && <SourceSpan as Ordered>::precedes(b, c) {
        <SourceSpan as Ordered>::transitive(a, b, c);
    }
}

} // verus!
