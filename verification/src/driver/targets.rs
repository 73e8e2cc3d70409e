//! What a piece of code names.

use vstd::prelude::*;

use crate::collections::{collect_entries, no_items, picked_entries, push_item, SortedMap};
use crate::driver::definitions::{
    LocatedSpan, LocatedSpanView, ResolvedReference, ResolvedReferenceView, SpanAttribution,
};
use crate::driver::references::{known_place, reference_span};
use crate::order::{Ordered, Rank};
use crate::protocol::{CompilerDefId, SourceSpan};

verus! {

/// The type that an implementation is for.
#[derive(Debug, PartialEq, Eq)]
pub struct SelfType {
    pub adt: CompilerDefId,
    pub is_enum: bool,
    pub fields: Vec<CompilerDefId>,
}

/// The model of [`SelfType`].
#[verifier::ext_equal]
pub struct SelfTypeView {
    pub adt: CompilerDefId,
    pub is_enum: bool,
    pub fields: Seq<CompilerDefId>,
}

impl DeepView for SelfType {
    type V = SelfTypeView;

    open spec fn deep_view(&self) -> SelfTypeView {
        SelfTypeView {
            adt: self.adt,
            is_enum: self.is_enum,
            fields: self.fields.deep_view(),
        }
    }
}

impl Clone for SelfType {
    fn clone(&self) -> (copy: Self)
        ensures
            copy.deep_view() == self.deep_view(),
    {
        let copy = SelfType {
            adt: self.adt,
            is_enum: self.is_enum,
            fields: self.fields.clone(),
        };
        proof {
            assert(copy.fields.deep_view() =~= self.fields.deep_view());
        }
        copy
    }
}

/// What a path stands for: a definition, the constructor of a struct or variant, or that of the
/// type that an implementation is for.
#[derive(Debug, PartialEq, Eq)]
pub enum Resolution {
    Definition(CompilerDefId),
    Constructor(CompilerDefId),
    SelfConstructor(SelfType),
}

/// The model of [`Resolution`].
pub enum ResolutionView {
    Definition(CompilerDefId),
    Constructor(CompilerDefId),
    SelfConstructor(SelfTypeView),
}

impl DeepView for Resolution {
    type V = ResolutionView;

    open spec fn deep_view(&self) -> ResolutionView {
        match self {
            Resolution::Definition(value) => ResolutionView::Definition(*value),
            Resolution::Constructor(value) => ResolutionView::Constructor(*value),
            Resolution::SelfConstructor(value) => ResolutionView::SelfConstructor(value.deep_view()),
        }
    }
}

impl Clone for Resolution {
    fn clone(&self) -> (copy: Self)
        ensures
            copy.deep_view() == self.deep_view(),
    {
        match self {
            Resolution::Definition(value) => Resolution::Definition(*value),
            Resolution::Constructor(value) => Resolution::Constructor(*value),
            Resolution::SelfConstructor(value) => Resolution::SelfConstructor(value.clone()),
        }
    }
}

/// What a path names: a constructor names what it constructs, and the constructor of an
/// implementation also the fields.
pub open spec fn named_by(resolution: ResolutionView) -> Seq<CompilerDefId> {
    match resolution {
        ResolutionView::Definition(id) => seq![id],
        ResolutionView::Constructor(owner) => seq![owner],
        ResolutionView::SelfConstructor(of) => if of.is_enum {
            seq![of.adt]
        } else {
            seq![of.adt] + of.fields
        },
    }
}

/// Lists what a path names.
pub fn resolved_targets(resolution: &Resolution) -> (targets: Vec<CompilerDefId>)
    ensures
        targets.deep_view() == named_by(resolution.deep_view()),
{
    let mut targets: Vec<CompilerDefId> = no_items();
    match resolution {
        Resolution::Definition(id) => push_item(&mut targets, *id),
        Resolution::Constructor(owner) => push_item(&mut targets, *owner),
        Resolution::SelfConstructor(of) => {
            push_item(&mut targets, of.adt);
            proof {
                assert(targets.deep_view() =~= seq![of.adt]);
            }
            if !of.is_enum {
                crate::collections::append_items(&mut targets, of.fields.clone());
            }
        },
    }
    proof {
        assert(targets.deep_view() =~= named_by(resolution.deep_view()));
    }
    targets
}

/// The earlier of two places, where there are any.
pub open spec fn earlier_place(
    retained: Option<LocatedSpanView>,
    candidate: Option<LocatedSpanView>,
) -> Option<LocatedSpanView> {
    match (retained, candidate) {
        (Some(current), Some(found)) => if <SourceSpan as Ordered>::precedes(
            found.span,
            current.span,
        ) {
            Some(found)
        } else {
            Some(current)
        },
        (None, found) => found,
        (current, None) => current,
    }
}

/// The definitions that code names, with one more.
pub open spec fn with_target(
    targets: Map<CompilerDefId, Option<LocatedSpanView>>,
    target: CompilerDefId,
    place: Option<LocatedSpanView>,
) -> Map<CompilerDefId, Option<LocatedSpanView>> {
    targets.insert(
        target,
        earlier_place(
            if targets.contains_key(target) {
                targets[target]
            } else {
                None
            },
            place,
        ),
    )
}

/// The definitions that a piece of code names, each with the first place where it does.
#[derive(Debug, PartialEq, Eq)]
pub struct ReferenceTargets {
    entries: SortedMap<CompilerDefId, Option<LocatedSpan>>,
}

impl DeepView for ReferenceTargets {
    type V = Map<CompilerDefId, Option<LocatedSpanView>>;

    closed spec fn deep_view(&self) -> Map<CompilerDefId, Option<LocatedSpanView>> {
        self.entries.deep_view()
    }
}

impl ReferenceTargets {
    /// Whether the entries are in order.
    pub closed spec fn wf(&self) -> bool {
        self.entries.wf()
    }

    /// Nothing named yet.
    pub fn new() -> (targets: Self)
        ensures
            targets.wf(),
            targets.deep_view() == Map::<CompilerDefId, Option<LocatedSpanView>>::empty(),
    {
        let entries: SortedMap<CompilerDefId, Option<LocatedSpan>> = SortedMap::new();
        proof {
            assert(entries.deep_view() =~= Map::<CompilerDefId, Option<LocatedSpanView>>::empty());
        }
        ReferenceTargets { entries }
    }

    /// Takes note of a definition that is named, but for one of the crate that is not reported.
    pub fn record_def(
        &mut self,
        target: CompilerDefId,
        unreported: bool,
        attribution: &SpanAttribution,
    )
        requires
            old(self).wf(),
        ensures
            final(self).wf(),
            final(self).deep_view() == if unreported {
                old(self).deep_view()
            } else {
                with_target(old(self).deep_view(), target, known_place(attribution.deep_view()))
            },
    {
        if unreported {
            return;
        }
        let candidate = reference_span(attribution);
        let retained: Option<LocatedSpan> = match self.entries.get(&target) {
            Some(place) => match place {
                Some(place) => Some(place.clone()),
                None => None,
            },
            None => None,
        };
        let place = match (retained, candidate) {
            (Some(current), Some(found)) => match found.span.rank(&current.span) {
                Rank::Less => Some(found),
                Rank::Equal => {
                    proof {
                        <SourceSpan as Ordered>::irreflexive(current.span.deep_view());
                    }
                    Some(current)
                },
                Rank::Greater => {
                    proof {
                        let a = current.span.deep_view();
                        let b = found.span.deep_view();
                        if <SourceSpan as Ordered>::precedes(b, a) {
                            <SourceSpan as Ordered>::transitive(a, b, a);
                        }
                        <SourceSpan as Ordered>::irreflexive(a);
                    }
                    Some(current)
                },
            },
            (None, found) => found,
            (current, None) => current,
        };
        self.entries.insert(target, place);
    }

    /// Lists what was named, in the order of the definitions.
    pub fn finish(&self) -> (references: Vec<ResolvedReference>)
        requires
            self.wf(),
        ensures
            references.deep_view() == picked_entries::<CompilerDefId, _, _>(
                self.deep_view(),
                |target: CompilerDefId, span: Option<LocatedSpanView>|
                    Some(ResolvedReferenceView { target, span }),
            ),
    {
        let ghost f = |target: CompilerDefId, span: Option<LocatedSpanView>|
            Some(ResolvedReferenceView { target, span });
        let pick = |target: &CompilerDefId, span: &Option<LocatedSpan>| -> (reference: Option<
            ResolvedReference,
        >)
            ensures
                reference.deep_view() == f(target.deep_view(), span.deep_view()),
        {
            Some(
                ResolvedReference {
                    target: *target,
                    span: match span {
                        Some(span) => Some(span.clone()),
                        None => None,
                    },
                },
            )
        };
        collect_entries(&self.entries, pick, Ghost(f))
    }
}

} // verus!
