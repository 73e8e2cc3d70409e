//! What identifies the nodes, states and edges of the reference graph.

use vstd::prelude::*;

use crate::order::{Ordered, Rank};
use crate::paths::{copy_key, PathKey};
use crate::protocol::{CompilerDefId, DefinitionKind, ReferenceKind, RootKind};

verus! {

/// A node as one invocation sees it.
#[derive(Clone, Copy, Debug, PartialEq, Eq, Structural)]
pub struct GraphState {
    pub invocation: usize,
    pub node: usize,
}

impl DeepView for GraphState {
    type V = GraphState;

    open spec fn deep_view(&self) -> GraphState {
        *self
    }
}

/// Ordered field by field.
impl Ordered for GraphState {
    open spec fn precedes(a: GraphState, b: GraphState) -> bool {
        <(usize, usize) as Ordered>::precedes(
            (a.invocation, a.node),
            (b.invocation, b.node),
        )
    }

    proof fn irreflexive(a: GraphState) {
        <(usize, usize) as Ordered>::irreflexive((a.invocation, a.node));
    }

    proof fn transitive(a: GraphState, b: GraphState, c: GraphState) {
        <(usize, usize) as Ordered>::transitive(
            (a.invocation, a.node),
            (b.invocation, b.node),
            (c.invocation, c.node),
        );
    }

    proof fn total(a: GraphState, b: GraphState) {
        <(usize, usize) as Ordered>::total((a.invocation, a.node), (b.invocation, b.node));
    }

    fn rank(&self, other: &Self) -> (rank: Rank) {
        match self.invocation.rank(&other.invocation) {
            Rank::Equal => {
                self.node.rank(&other.node)
            },
            decided => decided,
        }
    }
}

/// A reference between two states, and where it was recorded.
#[derive(Clone, Copy, Debug, PartialEq, Eq, Structural)]
pub struct ReferenceEdge {
    pub from: GraphState,
    pub to: GraphState,
    pub kind: ReferenceKind,
    pub invocation: usize,
    pub reference: usize,
}

impl DeepView for ReferenceEdge {
    type V = ReferenceEdge;

    open spec fn deep_view(&self) -> ReferenceEdge {
        *self
    }
}

/// Ordered field by field.
impl Ordered for ReferenceEdge {
    open spec fn precedes(a: ReferenceEdge, b: ReferenceEdge) -> bool {
        <(GraphState, (GraphState, (ReferenceKind, (usize, usize)))) as Ordered>::precedes(
            (a.from, (a.to, (a.kind, (a.invocation, a.reference)))),
            (b.from, (b.to, (b.kind, (b.invocation, b.reference)))),
        )
    }

    proof fn irreflexive(a: ReferenceEdge) {
        <(GraphState, (GraphState, (ReferenceKind, (usize, usize)))) as Ordered>::irreflexive((a.from, (a.to, (a.kind, (a.invocation, a.reference)))));
    }

    proof fn transitive(a: ReferenceEdge, b: ReferenceEdge, c: ReferenceEdge) {
        <(GraphState, (GraphState, (ReferenceKind, (usize, usize)))) as Ordered>::transitive(
            (a.from, (a.to, (a.kind, (a.invocation, a.reference)))),
            (b.from, (b.to, (b.kind, (b.invocation, b.reference)))),
            (c.from, (c.to, (c.kind, (c.invocation, c.reference)))),
        );
    }

    proof fn total(a: ReferenceEdge, b: ReferenceEdge) {
        <(GraphState, (GraphState, (ReferenceKind, (usize, usize)))) as Ordered>::total((a.from, (a.to, (a.kind, (a.invocation, a.reference)))), (b.from, (b.to, (b.kind, (b.invocation, b.reference)))));
    }

    fn rank(&self, other: &Self) -> (rank: Rank) {
        match self.from.rank(&other.from) {
            Rank::Equal => {
                match self.to.rank(&other.to) {
                    Rank::Equal => {
                        match self.kind.rank(&other.kind) {
                            Rank::Equal => {
                                match self.invocation.rank(&other.invocation) {
                                    Rank::Equal => {
                                        self.reference.rank(&other.reference)
                                    },
                                    decided => decided,
                                }
                            },
                            decided => decided,
                        }
                    },
                    decided => decided,
                }
            },
            decided => decided,
        }
    }
}

/// A Cargo target without its role.
#[derive(Debug, PartialEq, Eq)]
pub struct LogicalTarget {
    pub package_id: String,
    pub name: String,
    pub source: PathKey,
    pub kinds: Vec<String>,
    pub crate_types: Vec<String>,
}

/// The model of [`LogicalTarget`].
#[verifier::ext_equal]
pub struct LogicalTargetView {
    pub package_id: Seq<char>,
    pub name: Seq<char>,
    pub source: Seq<(usize, Seq<char>)>,
    pub kinds: Seq<Seq<char>>,
    pub crate_types: Seq<Seq<char>>,
}

impl DeepView for LogicalTarget {
    type V = LogicalTargetView;

    open spec fn deep_view(&self) -> LogicalTargetView {
        LogicalTargetView {
            package_id: self.package_id.deep_view(),
            name: self.name.deep_view(),
            source: self.source.deep_view(),
            kinds: self.kinds.deep_view(),
            crate_types: self.crate_types.deep_view(),
        }
    }
}

impl Clone for LogicalTarget {
    fn clone(&self) -> (copy: Self)
        ensures
            copy.deep_view() == self.deep_view(),
    {
        let copy = LogicalTarget {
            package_id: self.package_id.clone(),
            name: self.name.clone(),
            source: copy_key(&self.source),
            kinds: self.kinds.clone(),
            crate_types: self.crate_types.clone(),
        };
        proof {
            assert(copy.kinds.deep_view() =~= self.kinds.deep_view());
            assert(copy.crate_types.deep_view() =~= self.crate_types.deep_view());
        }
        copy
    }
}

/// Ordered field by field.
impl Ordered for LogicalTarget {
    open spec fn precedes(a: LogicalTargetView, b: LogicalTargetView) -> bool {
        <(String, (String, (PathKey, (Vec<String>, Vec<String>)))) as Ordered>::precedes(
            (a.package_id, (a.name, (a.source, (a.kinds, a.crate_types)))),
            (b.package_id, (b.name, (b.source, (b.kinds, b.crate_types)))),
        )
    }

    proof fn irreflexive(a: LogicalTargetView) {
        <(String, (String, (PathKey, (Vec<String>, Vec<String>)))) as Ordered>::irreflexive((a.package_id, (a.name, (a.source, (a.kinds, a.crate_types)))));
    }

    proof fn transitive(a: LogicalTargetView, b: LogicalTargetView, c: LogicalTargetView) {
        <(String, (String, (PathKey, (Vec<String>, Vec<String>)))) as Ordered>::transitive(
            (a.package_id, (a.name, (a.source, (a.kinds, a.crate_types)))),
            (b.package_id, (b.name, (b.source, (b.kinds, b.crate_types)))),
            (c.package_id, (c.name, (c.source, (c.kinds, c.crate_types)))),
        );
    }

    proof fn total(a: LogicalTargetView, b: LogicalTargetView) {
        <(String, (String, (PathKey, (Vec<String>, Vec<String>)))) as Ordered>::total((a.package_id, (a.name, (a.source, (a.kinds, a.crate_types)))), (b.package_id, (b.name, (b.source, (b.kinds, b.crate_types)))));
    }

    fn rank(&self, other: &Self) -> (rank: Rank) {
        match self.package_id.rank(&other.package_id) {
            Rank::Equal => {
                match self.name.rank(&other.name) {
                    Rank::Equal => {
                        match self.source.rank(&other.source) {
                            Rank::Equal => {
                                match self.kinds.rank(&other.kinds) {
                                    Rank::Equal => {
                                        self.crate_types.rank(&other.crate_types)
                                    },
                                    decided => decided,
                                }
                            },
                            decided => decided,
                        }
                    },
                    decided => decided,
                }
            },
            decided => decided,
        }
    }
}

/// A range of bytes of one version of a source file.
#[derive(Debug, PartialEq, Eq)]
pub struct SpanIdentity {
    pub path: String,
    pub source_hash: String,
    pub generated: bool,
    pub start: u32,
    pub end: u32,
}

/// The model of [`SpanIdentity`].
#[verifier::ext_equal]
pub struct SpanIdentityView {
    pub path: Seq<char>,
    pub source_hash: Seq<char>,
    pub generated: bool,
    pub start: u32,
    pub end: u32,
}

impl DeepView for SpanIdentity {
    type V = SpanIdentityView;

    open spec fn deep_view(&self) -> SpanIdentityView {
        SpanIdentityView {
            path: self.path.deep_view(),
            source_hash: self.source_hash.deep_view(),
            generated: self.generated,
            start: self.start,
            end: self.end,
        }
    }
}

impl Clone for SpanIdentity {
    fn clone(&self) -> (copy: Self)
        ensures
            copy.deep_view() == self.deep_view(),
    {
        let copy = SpanIdentity {
            path: self.path.clone(),
            source_hash: self.source_hash.clone(),
            generated: self.generated,
            start: self.start,
            end: self.end,
        };
        copy
    }
}

/// Ordered field by field.
impl Ordered for SpanIdentity {
    open spec fn precedes(a: SpanIdentityView, b: SpanIdentityView) -> bool {
        <(String, (String, (bool, (u32, u32)))) as Ordered>::precedes(
            (a.path, (a.source_hash, (a.generated, (a.start, a.end)))),
            (b.path, (b.source_hash, (b.generated, (b.start, b.end)))),
        )
    }

    proof fn irreflexive(a: SpanIdentityView) {
        <(String, (String, (bool, (u32, u32)))) as Ordered>::irreflexive((a.path, (a.source_hash, (a.generated, (a.start, a.end)))));
    }

    proof fn transitive(a: SpanIdentityView, b: SpanIdentityView, c: SpanIdentityView) {
        <(String, (String, (bool, (u32, u32)))) as Ordered>::transitive(
            (a.path, (a.source_hash, (a.generated, (a.start, a.end)))),
            (b.path, (b.source_hash, (b.generated, (b.start, b.end)))),
            (c.path, (c.source_hash, (c.generated, (c.start, c.end)))),
        );
    }

    proof fn total(a: SpanIdentityView, b: SpanIdentityView) {
        <(String, (String, (bool, (u32, u32)))) as Ordered>::total((a.path, (a.source_hash, (a.generated, (a.start, a.end)))), (b.path, (b.source_hash, (b.generated, (b.start, b.end)))));
    }

    fn rank(&self, other: &Self) -> (rank: Rank) {
        match self.path.rank(&other.path) {
            Rank::Equal => {
                match self.source_hash.rank(&other.source_hash) {
                    Rank::Equal => {
                        match self.generated.rank(&other.generated) {
                            Rank::Equal => {
                                match self.start.rank(&other.start) {
                                    Rank::Equal => {
                                        self.end.rank(&other.end)
                                    },
                                    decided => decided,
                                }
                            },
                            decided => decided,
                        }
                    },
                    decided => decided,
                }
            },
            decided => decided,
        }
    }
}

/// A declaration whose visibility is written in one place.
#[derive(Debug, PartialEq, Eq)]
pub struct VisibilityKey {
    pub kind: DefinitionKind,
    pub span: SpanIdentity,
}

/// The model of [`VisibilityKey`].
#[verifier::ext_equal]
pub struct VisibilityKeyView {
    pub kind: DefinitionKind,
    pub span: SpanIdentityView,
}

impl DeepView for VisibilityKey {
    type V = VisibilityKeyView;

    open spec fn deep_view(&self) -> VisibilityKeyView {
        VisibilityKeyView {
            kind: self.kind,
            span: self.span.deep_view(),
        }
    }
}

impl Clone for VisibilityKey {
    fn clone(&self) -> (copy: Self)
        ensures
            copy.deep_view() == self.deep_view(),
    {
        let copy = VisibilityKey {
            kind: self.kind,
            span: self.span.clone(),
        };
        proof {
            assert(copy.span.deep_view() =~= self.span.deep_view());
        }
        copy
    }
}

/// Ordered field by field.
impl Ordered for VisibilityKey {
    open spec fn precedes(a: VisibilityKeyView, b: VisibilityKeyView) -> bool {
        <(DefinitionKind, SpanIdentity) as Ordered>::precedes(
            (a.kind, a.span),
            (b.kind, b.span),
        )
    }

    proof fn irreflexive(a: VisibilityKeyView) {
        <(DefinitionKind, SpanIdentity) as Ordered>::irreflexive((a.kind, a.span));
    }

    proof fn transitive(a: VisibilityKeyView, b: VisibilityKeyView, c: VisibilityKeyView) {
        <(DefinitionKind, SpanIdentity) as Ordered>::transitive(
            (a.kind, a.span),
            (b.kind, b.span),
            (c.kind, c.span),
        );
    }

    proof fn total(a: VisibilityKeyView, b: VisibilityKeyView) {
        <(DefinitionKind, SpanIdentity) as Ordered>::total((a.kind, a.span), (b.kind, b.span));
    }

    fn rank(&self, other: &Self) -> (rank: Rank) {
        match self.kind.rank(&other.kind) {
            Rank::Equal => {
                self.span.rank(&other.span)
            },
            decided => decided,
        }
    }
}

/// A definition at a place of a source file.
#[derive(Debug, PartialEq, Eq)]
pub struct DefinitionKey {
    pub package_id: String,
    pub target: LogicalTarget,
    pub definition_path: String,
    pub kind: DefinitionKind,
    pub span: SpanIdentity,
}

/// The model of [`DefinitionKey`].
#[verifier::ext_equal]
pub struct DefinitionKeyView {
    pub package_id: Seq<char>,
    pub target: LogicalTargetView,
    pub definition_path: Seq<char>,
    pub kind: DefinitionKind,
    pub span: SpanIdentityView,
}

impl DeepView for DefinitionKey {
    type V = DefinitionKeyView;

    open spec fn deep_view(&self) -> DefinitionKeyView {
        DefinitionKeyView {
            package_id: self.package_id.deep_view(),
            target: self.target.deep_view(),
            definition_path: self.definition_path.deep_view(),
            kind: self.kind,
            span: self.span.deep_view(),
        }
    }
}

impl Clone for DefinitionKey {
    fn clone(&self) -> (copy: Self)
        ensures
            copy.deep_view() == self.deep_view(),
    {
        let copy = DefinitionKey {
            package_id: self.package_id.clone(),
            target: self.target.clone(),
            definition_path: self.definition_path.clone(),
            kind: self.kind,
            span: self.span.clone(),
        };
        proof {
            assert(copy.target.deep_view() =~= self.target.deep_view());
            assert(copy.span.deep_view() =~= self.span.deep_view());
        }
        copy
    }
}

/// Ordered field by field.
impl Ordered for DefinitionKey {
    open spec fn precedes(a: DefinitionKeyView, b: DefinitionKeyView) -> bool {
        <(String, (LogicalTarget, (String, (DefinitionKind, SpanIdentity)))) as Ordered>::precedes(
            (a.package_id, (a.target, (a.definition_path, (a.kind, a.span)))),
            (b.package_id, (b.target, (b.definition_path, (b.kind, b.span)))),
        )
    }

    proof fn irreflexive(a: DefinitionKeyView) {
        <(String, (LogicalTarget, (String, (DefinitionKind, SpanIdentity)))) as Ordered>::irreflexive((a.package_id, (a.target, (a.definition_path, (a.kind, a.span)))));
    }

    proof fn transitive(a: DefinitionKeyView, b: DefinitionKeyView, c: DefinitionKeyView) {
        <(String, (LogicalTarget, (String, (DefinitionKind, SpanIdentity)))) as Ordered>::transitive(
            (a.package_id, (a.target, (a.definition_path, (a.kind, a.span)))),
            (b.package_id, (b.target, (b.definition_path, (b.kind, b.span)))),
            (c.package_id, (c.target, (c.definition_path, (c.kind, c.span)))),
        );
    }

    proof fn total(a: DefinitionKeyView, b: DefinitionKeyView) {
        <(String, (LogicalTarget, (String, (DefinitionKind, SpanIdentity)))) as Ordered>::total((a.package_id, (a.target, (a.definition_path, (a.kind, a.span)))), (b.package_id, (b.target, (b.definition_path, (b.kind, b.span)))));
    }

    fn rank(&self, other: &Self) -> (rank: Rank) {
        match self.package_id.rank(&other.package_id) {
            Rank::Equal => {
                match self.target.rank(&other.target) {
                    Rank::Equal => {
                        match self.definition_path.rank(&other.definition_path) {
                            Rank::Equal => {
                                match self.kind.rank(&other.kind) {
                                    Rank::Equal => {
                                        self.span.rank(&other.span)
                                    },
                                    decided => decided,
                                }
                            },
                            decided => decided,
                        }
                    },
                    decided => decided,
                }
            },
            decided => decided,
        }
    }
}

/// A definition that only its invocation knows.
#[derive(Clone, Copy, Debug, PartialEq, Eq, Structural)]
pub struct LocalKey {
    pub invocation: usize,
    pub compiler_id: CompilerDefId,
}

impl DeepView for LocalKey {
    type V = LocalKey;

    open spec fn deep_view(&self) -> LocalKey {
        *self
    }
}

/// Ordered field by field.
impl Ordered for LocalKey {
    open spec fn precedes(a: LocalKey, b: LocalKey) -> bool {
        <(usize, CompilerDefId) as Ordered>::precedes(
            (a.invocation, a.compiler_id),
            (b.invocation, b.compiler_id),
        )
    }

    proof fn irreflexive(a: LocalKey) {
        <(usize, CompilerDefId) as Ordered>::irreflexive((a.invocation, a.compiler_id));
    }

    proof fn transitive(a: LocalKey, b: LocalKey, c: LocalKey) {
        <(usize, CompilerDefId) as Ordered>::transitive(
            (a.invocation, a.compiler_id),
            (b.invocation, b.compiler_id),
            (c.invocation, c.compiler_id),
        );
    }

    proof fn total(a: LocalKey, b: LocalKey) {
        <(usize, CompilerDefId) as Ordered>::total((a.invocation, a.compiler_id), (b.invocation, b.compiler_id));
    }

    fn rank(&self, other: &Self) -> (rank: Rank) {
        match self.invocation.rank(&other.invocation) {
            Rank::Equal => {
                self.compiler_id.rank(&other.compiler_id)
            },
            decided => decided,
        }
    }
}

/// What the definitions of one node have in common.
#[derive(Debug, PartialEq, Eq)]
pub enum NodeKey {
    Definition(DefinitionKey),
    InvocationLocal(LocalKey),
}

/// The model of [`NodeKey`].
pub enum NodeKeyView {
    Definition(DefinitionKeyView),
    InvocationLocal(LocalKey),
}

impl DeepView for NodeKey {
    type V = NodeKeyView;

    open spec fn deep_view(&self) -> NodeKeyView {
        match self {
            NodeKey::Definition(value) => NodeKeyView::Definition(value.deep_view()),
            NodeKey::InvocationLocal(value) => NodeKeyView::InvocationLocal(*value),
        }
    }
}

impl Clone for NodeKey {
    fn clone(&self) -> (copy: Self)
        ensures
            copy.deep_view() == self.deep_view(),
    {
        match self {
            NodeKey::Definition(value) => NodeKey::Definition(value.clone()),
            NodeKey::InvocationLocal(value) => NodeKey::InvocationLocal(*value),
        }
    }
}

/// All keys of the first kind come before those of the second.
impl Ordered for NodeKey {
    open spec fn precedes(a: NodeKeyView, b: NodeKeyView) -> bool {
        match (a, b) {
            (NodeKeyView::Definition(x), NodeKeyView::Definition(y)) => <DefinitionKey as Ordered>::precedes(x, y),
            (NodeKeyView::Definition(_), NodeKeyView::InvocationLocal(_)) => true,
            (NodeKeyView::InvocationLocal(x), NodeKeyView::InvocationLocal(y)) => <LocalKey as Ordered>::precedes(x, y),
            (NodeKeyView::InvocationLocal(_), NodeKeyView::Definition(_)) => false,
        }
    }

    proof fn irreflexive(a: NodeKeyView) {
        match a {
            NodeKeyView::Definition(x) => <DefinitionKey as Ordered>::irreflexive(x),
            NodeKeyView::InvocationLocal(x) => <LocalKey as Ordered>::irreflexive(x),
        }
    }

    proof fn transitive(a: NodeKeyView, b: NodeKeyView, c: NodeKeyView) {
        match (a, b, c) {
            (NodeKeyView::Definition(x), NodeKeyView::Definition(y), NodeKeyView::Definition(z)) => <DefinitionKey as Ordered>::transitive(x, y, z),
            (NodeKeyView::InvocationLocal(x), NodeKeyView::InvocationLocal(y), NodeKeyView::InvocationLocal(z)) => <LocalKey as Ordered>::transitive(x, y, z),
            _ => {},
        }
    }

    proof fn total(a: NodeKeyView, b: NodeKeyView) {
        match (a, b) {
            (NodeKeyView::Definition(x), NodeKeyView::Definition(y)) => <DefinitionKey as Ordered>::total(x, y),
            (NodeKeyView::InvocationLocal(x), NodeKeyView::InvocationLocal(y)) => <LocalKey as Ordered>::total(x, y),
            _ => {},
        }
    }

    fn rank(&self, other: &Self) -> (rank: Rank) {
        match (self, other) {
            (NodeKey::Definition(x), NodeKey::Definition(y)) => x.rank(y),
            (NodeKey::Definition(_), NodeKey::InvocationLocal(_)) => Rank::Less,
            (NodeKey::InvocationLocal(x), NodeKey::InvocationLocal(y)) => x.rank(y),
            (NodeKey::InvocationLocal(_), NodeKey::Definition(_)) => Rank::Greater,
        }
    }
}

/// Why a state is a root.
#[derive(Debug, PartialEq, Eq)]
pub struct RootEvidence {
    pub kind: RootKind,
    pub reason: String,
}

/// The model of [`RootEvidence`].
#[verifier::ext_equal]
pub struct RootEvidenceView {
    pub kind: RootKind,
    pub reason: Seq<char>,
}

impl DeepView for RootEvidence {
    type V = RootEvidenceView;

    open spec fn deep_view(&self) -> RootEvidenceView {
        RootEvidenceView {
            kind: self.kind,
            reason: self.reason.deep_view(),
        }
    }
}

impl Clone for RootEvidence {
    fn clone(&self) -> (copy: Self)
        ensures
            copy.deep_view() == self.deep_view(),
    {
        let copy = RootEvidence {
            kind: self.kind,
            reason: self.reason.clone(),
        };
        copy
    }
}

/// Ordered field by field.
impl Ordered for RootEvidence {
    open spec fn precedes(a: RootEvidenceView, b: RootEvidenceView) -> bool {
        <(RootKind, String) as Ordered>::precedes(
            (a.kind, a.reason),
            (b.kind, b.reason),
        )
    }

    proof fn irreflexive(a: RootEvidenceView) {
        <(RootKind, String) as Ordered>::irreflexive((a.kind, a.reason));
    }

    proof fn transitive(a: RootEvidenceView, b: RootEvidenceView, c: RootEvidenceView) {
        <(RootKind, String) as Ordered>::transitive(
            (a.kind, a.reason),
            (b.kind, b.reason),
            (c.kind, c.reason),
        );
    }

    proof fn total(a: RootEvidenceView, b: RootEvidenceView) {
        <(RootKind, String) as Ordered>::total((a.kind, a.reason), (b.kind, b.reason));
    }

    fn rank(&self, other: &Self) -> (rank: Rank) {
        match self.kind.rank(&other.kind) {
            Rank::Equal => {
                self.reason.rank(&other.reason)
            },
            decided => decided,
        }
    }
}

/// A declaration at a place of a source file.
#[derive(Debug, PartialEq, Eq)]
pub struct SpannedDeclaration {
    pub package_id: String,
    pub definition_path: String,
    pub span: SpanIdentity,
}

/// The model of [`SpannedDeclaration`].
#[verifier::ext_equal]
pub struct SpannedDeclarationView {
    pub package_id: Seq<char>,
    pub definition_path: Seq<char>,
    pub span: SpanIdentityView,
}

impl DeepView for SpannedDeclaration {
    type V = SpannedDeclarationView;

    open spec fn deep_view(&self) -> SpannedDeclarationView {
        SpannedDeclarationView {
            package_id: self.package_id.deep_view(),
            definition_path: self.definition_path.deep_view(),
            span: self.span.deep_view(),
        }
    }
}

impl Clone for SpannedDeclaration {
    fn clone(&self) -> (copy: Self)
        ensures
            copy.deep_view() == self.deep_view(),
    {
        let copy = SpannedDeclaration {
            package_id: self.package_id.clone(),
            definition_path: self.definition_path.clone(),
            span: self.span.clone(),
        };
        proof {
            assert(copy.span.deep_view() =~= self.span.deep_view());
        }
        copy
    }
}

/// Ordered field by field.
impl Ordered for SpannedDeclaration {
    open spec fn precedes(a: SpannedDeclarationView, b: SpannedDeclarationView) -> bool {
        <(String, (String, SpanIdentity)) as Ordered>::precedes(
            (a.package_id, (a.definition_path, a.span)),
            (b.package_id, (b.definition_path, b.span)),
        )
    }

    proof fn irreflexive(a: SpannedDeclarationView) {
        <(String, (String, SpanIdentity)) as Ordered>::irreflexive((a.package_id, (a.definition_path, a.span)));
    }

    proof fn transitive(a: SpannedDeclarationView, b: SpannedDeclarationView, c: SpannedDeclarationView) {
        <(String, (String, SpanIdentity)) as Ordered>::transitive(
            (a.package_id, (a.definition_path, a.span)),
            (b.package_id, (b.definition_path, b.span)),
            (c.package_id, (c.definition_path, c.span)),
        );
    }

    proof fn total(a: SpannedDeclarationView, b: SpannedDeclarationView) {
        <(String, (String, SpanIdentity)) as Ordered>::total((a.package_id, (a.definition_path, a.span)), (b.package_id, (b.definition_path, b.span)));
    }

    fn rank(&self, other: &Self) -> (rank: Rank) {
        match self.package_id.rank(&other.package_id) {
            Rank::Equal => {
                match self.definition_path.rank(&other.definition_path) {
                    Rank::Equal => {
                        self.span.rank(&other.span)
                    },
                    decided => decided,
                }
            },
            decided => decided,
        }
    }
}

/// A declaration without a place.
#[derive(Debug, PartialEq, Eq)]
pub struct LogicalDeclaration {
    pub package_id: String,
    pub target: LogicalTarget,
    pub definition_path: String,
}

/// The model of [`LogicalDeclaration`].
#[verifier::ext_equal]
pub struct LogicalDeclarationView {
    pub package_id: Seq<char>,
    pub target: LogicalTargetView,
    pub definition_path: Seq<char>,
}

impl DeepView for LogicalDeclaration {
    type V = LogicalDeclarationView;

    open spec fn deep_view(&self) -> LogicalDeclarationView {
        LogicalDeclarationView {
            package_id: self.package_id.deep_view(),
            target: self.target.deep_view(),
            definition_path: self.definition_path.deep_view(),
        }
    }
}

impl Clone for LogicalDeclaration {
    fn clone(&self) -> (copy: Self)
        ensures
            copy.deep_view() == self.deep_view(),
    {
        let copy = LogicalDeclaration {
            package_id: self.package_id.clone(),
            target: self.target.clone(),
            definition_path: self.definition_path.clone(),
        };
        proof {
            assert(copy.target.deep_view() =~= self.target.deep_view());
        }
        copy
    }
}

/// Ordered field by field.
impl Ordered for LogicalDeclaration {
    open spec fn precedes(a: LogicalDeclarationView, b: LogicalDeclarationView) -> bool {
        <(String, (LogicalTarget, String)) as Ordered>::precedes(
            (a.package_id, (a.target, a.definition_path)),
            (b.package_id, (b.target, b.definition_path)),
        )
    }

    proof fn irreflexive(a: LogicalDeclarationView) {
        <(String, (LogicalTarget, String)) as Ordered>::irreflexive((a.package_id, (a.target, a.definition_path)));
    }

    proof fn transitive(a: LogicalDeclarationView, b: LogicalDeclarationView, c: LogicalDeclarationView) {
        <(String, (LogicalTarget, String)) as Ordered>::transitive(
            (a.package_id, (a.target, a.definition_path)),
            (b.package_id, (b.target, b.definition_path)),
            (c.package_id, (c.target, c.definition_path)),
        );
    }

    proof fn total(a: LogicalDeclarationView, b: LogicalDeclarationView) {
        <(String, (LogicalTarget, String)) as Ordered>::total((a.package_id, (a.target, a.definition_path)), (b.package_id, (b.target, b.definition_path)));
    }

    fn rank(&self, other: &Self) -> (rank: Rank) {
        match self.package_id.rank(&other.package_id) {
            Rank::Equal => {
                match self.target.rank(&other.target) {
                    Rank::Equal => {
                        self.definition_path.rank(&other.definition_path)
                    },
                    decided => decided,
                }
            },
            decided => decided,
        }
    }
}

/// What identifies a declaration as it is written down.
#[derive(Debug, PartialEq, Eq)]
pub enum PhysicalDeclarationKey {
    Spanned(SpannedDeclaration),
    Logical(LogicalDeclaration),
}

/// The model of [`PhysicalDeclarationKey`].
pub enum PhysicalDeclarationKeyView {
    Spanned(SpannedDeclarationView),
    Logical(LogicalDeclarationView),
}

impl DeepView for PhysicalDeclarationKey {
    type V = PhysicalDeclarationKeyView;

    open spec fn deep_view(&self) -> PhysicalDeclarationKeyView {
        match self {
            PhysicalDeclarationKey::Spanned(value) => PhysicalDeclarationKeyView::Spanned(value.deep_view()),
            PhysicalDeclarationKey::Logical(value) => PhysicalDeclarationKeyView::Logical(value.deep_view()),
        }
    }
}

impl Clone for PhysicalDeclarationKey {
    fn clone(&self) -> (copy: Self)
        ensures
            copy.deep_view() == self.deep_view(),
    {
        match self {
            PhysicalDeclarationKey::Spanned(value) => PhysicalDeclarationKey::Spanned(value.clone()),
            PhysicalDeclarationKey::Logical(value) => PhysicalDeclarationKey::Logical(value.clone()),
        }
    }
}

/// All keys of the first kind come before those of the second.
impl Ordered for PhysicalDeclarationKey {
    open spec fn precedes(a: PhysicalDeclarationKeyView, b: PhysicalDeclarationKeyView) -> bool {
        match (a, b) {
            (PhysicalDeclarationKeyView::Spanned(x), PhysicalDeclarationKeyView::Spanned(y)) => <SpannedDeclaration as Ordered>::precedes(x, y),
            (PhysicalDeclarationKeyView::Spanned(_), PhysicalDeclarationKeyView::Logical(_)) => true,
            (PhysicalDeclarationKeyView::Logical(x), PhysicalDeclarationKeyView::Logical(y)) => <LogicalDeclaration as Ordered>::precedes(x, y),
            (PhysicalDeclarationKeyView::Logical(_), PhysicalDeclarationKeyView::Spanned(_)) => false,
        }
    }

    proof fn irreflexive(a: PhysicalDeclarationKeyView) {
        match a {
            PhysicalDeclarationKeyView::Spanned(x) => <SpannedDeclaration as Ordered>::irreflexive(x),
            PhysicalDeclarationKeyView::Logical(x) => <LogicalDeclaration as Ordered>::irreflexive(x),
        }
    }

    proof fn transitive(a: PhysicalDeclarationKeyView, b: PhysicalDeclarationKeyView, c: PhysicalDeclarationKeyView) {
        match (a, b, c) {
            (PhysicalDeclarationKeyView::Spanned(x), PhysicalDeclarationKeyView::Spanned(y), PhysicalDeclarationKeyView::Spanned(z)) => <SpannedDeclaration as Ordered>::transitive(x, y, z),
            (PhysicalDeclarationKeyView::Logical(x), PhysicalDeclarationKeyView::Logical(y), PhysicalDeclarationKeyView::Logical(z)) => <LogicalDeclaration as Ordered>::transitive(x, y, z),
            _ => {},
        }
    }

    proof fn total(a: PhysicalDeclarationKeyView, b: PhysicalDeclarationKeyView) {
        match (a, b) {
            (PhysicalDeclarationKeyView::Spanned(x), PhysicalDeclarationKeyView::Spanned(y)) => <SpannedDeclaration as Ordered>::total(x, y),
            (PhysicalDeclarationKeyView::Logical(x), PhysicalDeclarationKeyView::Logical(y)) => <LogicalDeclaration as Ordered>::total(x, y),
            _ => {},
        }
    }

    fn rank(&self, other: &Self) -> (rank: Rank) {
        match (self, other) {
            (PhysicalDeclarationKey::Spanned(x), PhysicalDeclarationKey::Spanned(y)) => x.rank(y),
            (PhysicalDeclarationKey::Spanned(_), PhysicalDeclarationKey::Logical(_)) => Rank::Less,
            (PhysicalDeclarationKey::Logical(x), PhysicalDeclarationKey::Logical(y)) => x.rank(y),
            (PhysicalDeclarationKey::Logical(_), PhysicalDeclarationKey::Spanned(_)) => Rank::Greater,
        }
    }
}

} // verus!
