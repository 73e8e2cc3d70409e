//! Reachability of code, the metrics counted per role, and the reports made of them.

use vstd::prelude::*;

use crate::collections::ascending;
use crate::compiler::api_surface::{ApiSurfaceReport, ApiSurfaceReportView};
use crate::order::{Ordered, Rank};

verus! {

/// The number of roles that a Cargo target can have.
pub const TARGET_ROLE_COUNT: usize = 5;

/// The number of roles that code is reported under.
pub const OUTPUT_ROLE_COUNT: usize = 8;

/// Whether a condition holds in a build.
#[derive(Clone, Copy, Debug, PartialEq, Eq, PartialOrd, Ord, Default, Structural)]
pub enum Activation {
    #[default]
    Never,
    Maybe,
    Always,
}

impl DeepView for Activation {
    type V = Activation;

    open spec fn deep_view(&self) -> Activation {
        *self
    }
}

impl Activation {
    /// Never, maybe and always, in ascending order of certainty.
    pub open spec fn level(self) -> nat {
        match self {
            Activation::Never => 0,
            Activation::Maybe => 1,
            Activation::Always => 2,
        }
    }

    /// The activation of a level.
    pub open spec fn of_level(level: nat) -> Activation {
        if level == 0 {
            Activation::Never
        } else if level == 1 {
            Activation::Maybe
        } else {
            Activation::Always
        }
    }

    /// The weaker of two activations.
    pub open spec fn meet(self, other: Self) -> Self {
        if self.level() <= other.level() {
            self
        } else {
            other
        }
    }

    /// The stronger of two activations.
    pub open spec fn join(self, other: Self) -> Self {
        if self.level() <= other.level() {
            other
        } else {
            self
        }
    }

    /// The activation of the opposite condition.
    pub open spec fn negated(self) -> Self {
        Activation::of_level((2 - self.level()) as nat)
    }

    fn place(self) -> (place: usize)
        ensures
            place == self.level(),
    {
        match self {
            Activation::Never => 0,
            Activation::Maybe => 1,
            Activation::Always => 2,
        }
    }

    /// Whether both conditions hold.
    pub fn and(self, other: Self) -> (both: Self)
        ensures
            both == self.meet(other),
    {
        if self.place() <= other.place() {
            self
        } else {
            other
        }
    }

    /// Whether one of the conditions holds.
    pub fn or(self, other: Self) -> (either: Self)
        ensures
            either == self.join(other),
    {
        if self.place() <= other.place() {
            other
        } else {
            self
        }
    }

    /// Whether the condition does not hold.
    pub fn not(self) -> (opposite: Self)
        ensures
            opposite == self.negated(),
    {
        match self {
            Activation::Never => Activation::Always,
            Activation::Maybe => Activation::Maybe,
            Activation::Always => Activation::Never,
        }
    }
}

impl From<bool> for Activation {
    fn from(active: bool) -> (activation: Self) {
        if active {
            Activation::Always
        } else {
            Activation::Never
        }
    }
}

impl vstd::std_specs::convert::FromSpecImpl<bool> for Activation {
    open spec fn obeys_from_spec() -> bool {
        true
    }

    open spec fn from_spec(active: bool) -> Activation {
        if active {
            Activation::Always
        } else {
            Activation::Never
        }
    }
}

/// Conjunction and disjunction of activations form a lattice: each is commutative, associative and
/// idempotent, and each absorbs the other.
pub proof fn law_activation_lattice(a: Activation, b: Activation, c: Activation)
    ensures
        a.meet(b) == b.meet(a),
        a.join(b) == b.join(a),
        a.meet(b).meet(c) == a.meet(b.meet(c)),
        a.join(b).join(c) == a.join(b.join(c)),
        a.meet(a) == a,
        a.join(a) == a,
        a.meet(a.join(b)) == a,
        a.join(a.meet(b)) == a,
        a.meet(b.join(c)) == a.meet(b).join(a.meet(c)),
{
}

/// Negation is an involution that exchanges conjunction and disjunction.
pub proof fn law_activation_negation(a: Activation, b: Activation)
    ensures
        a.negated().negated() == a,
        a.meet(b).negated() == a.negated().join(b.negated()),
        a.join(b).negated() == a.negated().meet(b.negated()),
{
}

/// Whether code is active in a production build and in a test build.
#[derive(Clone, Copy, Debug, PartialEq, Eq, Default, Structural)]
pub struct Reachability {
    pub production: Activation,
    pub test: Activation,
}

impl DeepView for Reachability {
    type V = Reachability;

    open spec fn deep_view(&self) -> Reachability {
        *self
    }
}

impl Reachability {
    /// Active in no build.
    #[verifier::allow_in_spec]
    pub fn never() -> Reachability
        returns
            (Reachability { production: Activation::Never, test: Activation::Never }),
    {
        Reachability { production: Activation::Never, test: Activation::Never }
    }

    /// Active in production builds only.
    #[verifier::allow_in_spec]
    pub fn production() -> Reachability
        returns
            (Reachability { production: Activation::Always, test: Activation::Never }),
    {
        Reachability { production: Activation::Always, test: Activation::Never }
    }

    /// Active in test builds only.
    #[verifier::allow_in_spec]
    pub fn test() -> Reachability
        returns
            (Reachability { production: Activation::Never, test: Activation::Always }),
    {
        Reachability { production: Activation::Never, test: Activation::Always }
    }

    /// Active in every build.
    #[verifier::allow_in_spec]
    pub fn both() -> Reachability
        returns
            (Reachability { production: Activation::Always, test: Activation::Always }),
    {
        Reachability { production: Activation::Always, test: Activation::Always }
    }

    /// Active where both are.
    pub open spec fn meet(self, other: Self) -> Self {
        Reachability {
            production: self.production.meet(other.production),
            test: self.test.meet(other.test),
        }
    }

    /// Active where one of both is.
    pub open spec fn join(self, other: Self) -> Self {
        Reachability {
            production: self.production.join(other.production),
            test: self.test.join(other.test),
        }
    }

    /// Active where both are.
    pub fn and(self, other: Self) -> (both: Self)
        ensures
            both == self.meet(other),
    {
        Reachability {
            production: self.production.and(other.production),
            test: self.test.and(other.test),
        }
    }

    /// Active where one of both is.
    pub fn or(self, other: Self) -> (either: Self)
        ensures
            either == self.join(other),
    {
        Reachability {
            production: self.production.or(other.production),
            test: self.test.or(other.test),
        }
    }

    /// The place of this reachability among all nine.
    pub fn index(self) -> (index: usize)
        ensures
            index == self.production.level() * 3 + self.test.level(),
            index < 9,
    {
        self.production.place() * 3 + self.test.place()
    }

    /// The reachability at a place.
    pub fn from_index(index: usize) -> (reachability: Self)
        requires
            index < 9,
        ensures
            reachability == Self::of_index(index as nat),
    {
        Reachability {
            production: Self::activation(index / 3),
            test: Self::activation(index % 3),
        }
    }

    /// The reachability at a place.
    pub open spec fn of_index(index: nat) -> Self {
        Reachability {
            production: Activation::of_level(index / 3),
            test: Activation::of_level(index % 3),
        }
    }

    fn activation(level: usize) -> (activation: Activation)
        requires
            level < 3,
        ensures
            activation == Activation::of_level(level as nat),
    {
        if level == 0 {
            Activation::Never
        } else if level == 1 {
            Activation::Maybe
        } else {
            Activation::Always
        }
    }
}

/// A reachability is found again at its place, and a place belongs to the reachability there.
pub proof fn law_reachability_index(reachability: Reachability, index: nat)
    requires
        index < 9,
    ensures
        Reachability::of_index(
            (reachability.production.level() * 3 + reachability.test.level()) as nat,
        ) == reachability,
        Reachability::of_index(index).production.level() * 3 + Reachability::of_index(
            index,
        ).test.level() == index,
{
}

/// The role of a Cargo target.
#[derive(Clone, Copy, Debug, PartialEq, Eq, Structural)]
pub enum TargetRole {
    Production,
    Test,
    Bench,
    Example,
    Build,
}

impl TargetRole {
    /// The place of the role among the roles of a context.
    pub open spec fn place(self) -> int {
        match self {
            TargetRole::Production => 0,
            TargetRole::Test => 1,
            TargetRole::Bench => 2,
            TargetRole::Example => 3,
            TargetRole::Build => 4,
        }
    }

    fn slot(self) -> (slot: usize)
        ensures
            slot == self.place(),
    {
        match self {
            TargetRole::Production => 0,
            TargetRole::Test => 1,
            TargetRole::Bench => 2,
            TargetRole::Example => 3,
            TargetRole::Build => 4,
        }
    }
}

/// How a source file is reached from the targets of each role.
#[derive(Clone, Copy, Debug, PartialEq, Eq)]
pub struct Contexts {
    pub roles: [Reachability; 5],
    pub referenced: bool,
}

/// The model of [`Contexts`].
#[verifier::ext_equal]
pub struct ContextsView {
    pub roles: Seq<Reachability>,
    pub referenced: bool,
}

impl DeepView for Contexts {
    type V = ContextsView;

    open spec fn deep_view(&self) -> ContextsView {
        ContextsView { roles: self.roles@, referenced: self.referenced }
    }
}

impl ContextsView {
    /// Reached from no target.
    pub open spec fn untouched() -> Self {
        ContextsView { roles: Seq::new(5, |i: int| Reachability::never()), referenced: false }
    }

    /// Reached where one of both is.
    pub open spec fn merged(self, other: Self) -> Self {
        ContextsView {
            roles: Seq::new(5, |i: int| self.roles[i].join(other.roles[i])),
            referenced: self.referenced || other.referenced,
        }
    }

    /// What remains behind a gate.
    pub open spec fn gated(self, gate: Reachability) -> Self {
        ContextsView {
            roles: Seq::new(5, |i: int| self.roles[i].meet(gate)),
            referenced: self.referenced,
        }
    }

    /// Reached from a target of one role.
    pub open spec fn seeded(role: TargetRole, reachability: Reachability) -> Self {
        ContextsView {
            roles: Seq::new(
                5,
                |i: int|
                    if i == role.place() {
                        reachability
                    } else {
                        Reachability::never()
                    },
            ),
            referenced: true,
        }
    }

    /// The role under which code of a file is reported.
    pub open spec fn output_role(self, local: Reachability) -> OutputRole {
        let production = self.roles[TargetRole::Production.place()].meet(local);
        let example = self.roles[TargetRole::Example.place()].meet(local);
        let test = self.roles[TargetRole::Test.place()].meet(local).test.join(
            production.test,
        ).join(example.test);
        let bench = self.roles[TargetRole::Bench.place()].meet(local).test;
        let build = self.roles[TargetRole::Build.place()].meet(local).production;
        if production.production != Activation::Never {
            certain(production.production, OutputRole::Production)
        } else if example.production != Activation::Never {
            certain(example.production, OutputRole::Example)
        } else if test != Activation::Never {
            certain(test, OutputRole::Test)
        } else if bench != Activation::Never {
            certain(bench, OutputRole::Bench)
        } else if build != Activation::Never {
            certain(build, OutputRole::Build)
        } else if self.referenced {
            OutputRole::Inactive
        } else {
            OutputRole::Orphan
        }
    }
}

/// The role itself where it is certain, and conditional where it is not.
pub open spec fn certain(activation: Activation, role: OutputRole) -> OutputRole {
    if activation == Activation::Always {
        role
    } else {
        OutputRole::Conditional
    }
}

impl Default for Contexts {
    fn default() -> (contexts: Self)
        ensures
            contexts.deep_view() == ContextsView::untouched(),
    {
        let contexts = Contexts { roles: [Reachability::never(); 5], referenced: false };
        proof {
            assert(contexts.roles@ =~= ContextsView::untouched().roles);
        }
        contexts
    }
}

impl Contexts {
    /// Adds what another context reaches; the result says whether that changed anything.
    pub fn merge(&mut self, other: Self) -> (changed: bool)
        ensures
            final(self).deep_view() == old(self).deep_view().merged(other.deep_view()),
            changed == (final(self).deep_view() != old(self).deep_view()),
    {
        let before = *self;
        let mut changed = false;
        let mut slot: usize = 0;
        while slot < 5
            invariant
                slot <= 5,
                self.roles@.len() == 5,
                self.referenced == before.referenced,
                forall|i: int|
                    0 <= i < slot ==> #[trigger] self.roles@[i] == before.roles@[i].join(
                        other.roles@[i],
                    ),
                forall|i: int| slot <= i < 5 ==> #[trigger] self.roles@[i] == before.roles@[i],
                changed == (exists|i: int| 0 <= i < slot && self.roles@[i] != before.roles@[i]),
            decreases 5 - slot,
        {
            let joined = before.roles[slot].or(other.roles[slot]);
            if joined != before.roles[slot] {
                changed = true;
            }
            let ghost earlier = self.roles@;
            self.roles[slot] = joined;
            proof {
                assert(forall|i: int| 0 <= i < slot ==> self.roles@[i] == earlier[i]);
                assert(self.roles@[slot as int] == joined);
            }
            slot = slot + 1;
        }
        if other.referenced && !self.referenced {
            changed = true;
            self.referenced = true;
        }
        proof {
            assert(self.deep_view() =~= before.deep_view().merged(other.deep_view()));
            if self.deep_view() == before.deep_view() {
                assert(forall|i: int| 0 <= i < 5 ==> self.roles@[i] == before.roles@[i]);
            } else {
                assert(self.referenced != before.referenced || !(self.roles@ =~= before.roles@));
            }
        }
        changed
    }

    /// What remains behind a gate.
    pub fn through(self, gate: Reachability) -> (gated: Self)
        ensures
            gated.deep_view() == self.deep_view().gated(gate),
    {
        let mut gated = self;
        let mut slot: usize = 0;
        while slot < 5
            invariant
                slot <= 5,
                gated.roles@.len() == 5,
                gated.referenced == self.referenced,
                forall|i: int|
                    0 <= i < slot ==> #[trigger] gated.roles@[i] == self.roles@[i].meet(gate),
                forall|i: int| slot <= i < 5 ==> #[trigger] gated.roles@[i] == self.roles@[i],
            decreases 5 - slot,
        {
            gated.roles[slot] = gated.roles[slot].and(gate);
            slot = slot + 1;
        }
        proof {
            assert(gated.deep_view() =~= self.deep_view().gated(gate));
        }
        gated
    }

    /// Reached from a target of one role.
    pub fn seed(role: TargetRole, reachability: Reachability) -> (contexts: Self)
        ensures
            contexts.deep_view() == ContextsView::seeded(role, reachability),
    {
        let mut roles = [Reachability::never(); 5];
        roles[role.slot()] = reachability;
        let contexts = Contexts { roles, referenced: true };
        proof {
            assert(contexts.deep_view() =~= ContextsView::seeded(role, reachability));
        }
        contexts
    }

    /// Reached from a production target in every build.
    pub fn production() -> (contexts: Self)
        ensures
            contexts.deep_view() == ContextsView::seeded(
                TargetRole::Production,
                Reachability::both(),
            ),
    {
        Self::seed(TargetRole::Production, Reachability::both())
    }

    /// The role under which code of this file is reported.
    pub fn classify(self, local: Reachability) -> (role: OutputRole)
        ensures
            role == self.deep_view().output_role(local),
    {
        let production = self.roles[0].and(local);
        let example = self.roles[3].and(local);
        let integration_test = self.roles[1].and(local).test;
        let bench = self.roles[2].and(local).test;
        let build = self.roles[4].and(local).production;
        let test = integration_test.or(production.test).or(example.test);
        match production.production {
            Activation::Always => return OutputRole::Production,
            Activation::Maybe => return OutputRole::Conditional,
            Activation::Never => {},
        }
        match example.production {
            Activation::Always => return OutputRole::Example,
            Activation::Maybe => return OutputRole::Conditional,
            Activation::Never => {},
        }
        match test {
            Activation::Always => return OutputRole::Test,
            Activation::Maybe => return OutputRole::Conditional,
            Activation::Never => {},
        }
        match bench {
            Activation::Always => return OutputRole::Bench,
            Activation::Maybe => return OutputRole::Conditional,
            Activation::Never => {},
        }
        match build {
            Activation::Always => return OutputRole::Build,
            Activation::Maybe => return OutputRole::Conditional,
            Activation::Never => {},
        }
        if self.referenced {
            OutputRole::Inactive
        } else {
            OutputRole::Orphan
        }
    }
}

/// Merging is commutative, associative and idempotent, so the order of merges does not matter.
pub proof fn law_contexts_merge(a: ContextsView, b: ContextsView, c: ContextsView)
    requires
        a.roles.len() == 5,
        b.roles.len() == 5,
        c.roles.len() == 5,
    ensures
        a.merged(b) == b.merged(a),
        a.merged(b).merged(c) == a.merged(b.merged(c)),
        a.merged(a) == a,
{
    assert(a.merged(b) =~= b.merged(a));
    assert(a.merged(b).merged(c) =~= a.merged(b.merged(c)));
    assert(a.merged(a) =~= a);
}

/// Passing a gate distributes over merging, and passing it twice is passing it once.
pub proof fn law_contexts_gate(a: ContextsView, b: ContextsView, gate: Reachability)
    requires
        a.roles.len() == 5,
        b.roles.len() == 5,
    ensures
        a.merged(b).gated(gate) == a.gated(gate).merged(b.gated(gate)),
        a.gated(gate).gated(gate) == a.gated(gate),
        a.gated(Reachability::both()) == a,
{
    assert(a.merged(b).gated(gate) =~= a.gated(gate).merged(b.gated(gate)));
    assert(a.gated(gate).gated(gate) =~= a.gated(gate));
    assert(a.gated(Reachability::both()) =~= a);
}

/// Never is the weakest activation and always the strongest; they are each other's opposite, and
/// maybe is its own.
pub proof fn law_activation_bounds(a: Activation)
    ensures
        a.meet(Activation::Never) == Activation::Never,
        a.join(Activation::Never) == a,
        a.meet(Activation::Always) == a,
        a.join(Activation::Always) == Activation::Always,
        Activation::Never.negated() == Activation::Always,
        Activation::Always.negated() == Activation::Never,
        Activation::Maybe.negated() == Activation::Maybe,
{
}

/// Builds are judged one by one: what holds of production builds does not depend on test builds,
/// and the other way round.
pub proof fn law_builds_are_judged_apart(a: Reachability, b: Reachability)
    ensures
        a.meet(b).production == a.production.meet(b.production),
        a.meet(b).test == a.test.meet(b.test),
        a.join(b).production == a.production.join(b.production),
        a.join(b).test == a.test.join(b.test),
        Reachability::never().production == Activation::Never,
        Reachability::never().test == Activation::Never,
        Reachability::both().production == Activation::Always,
        Reachability::both().test == Activation::Always,
        Reachability::test().production == Activation::Never,
        Reachability::test().test == Activation::Always,
        Reachability::production().production == Activation::Always,
        Reachability::production().test == Activation::Never,
{
}

/// The root of a target is reached as that target is, from no target of another role, and counts
/// as referenced.
pub proof fn law_roots_have_one_role(role: TargetRole, reachability: Reachability, other: TargetRole)
    ensures
        ContextsView::seeded(role, reachability).roles.len() == 5,
        ContextsView::seeded(role, reachability).referenced,
        ContextsView::seeded(role, reachability).roles[match role {
            TargetRole::Production => 0,
            TargetRole::Test => 1,
            TargetRole::Bench => 2,
            TargetRole::Example => 3,
            TargetRole::Build => 4,
        }] == reachability,
        other != role ==> ContextsView::seeded(role, reachability).roles[match other {
            TargetRole::Production => 0,
            TargetRole::Test => 1,
            TargetRole::Bench => 2,
            TargetRole::Example => 3,
            TargetRole::Build => 4,
        }] == Reachability::never(),
{
}

/// A file is reached wherever one of two contexts reaches it, and is referenced where one of them
/// says so; behind a gate it is reached no more than that lets it, and stays referenced.
pub proof fn law_contexts_add_and_narrow(a: ContextsView, b: ContextsView, gate: Reachability, i: int)
    requires
        a.roles.len() == 5,
        b.roles.len() == 5,
        0 <= i < 5,
    ensures
        a.merged(b).roles[i].production == a.roles[i].production.join(b.roles[i].production),
        a.merged(b).roles[i].test == a.roles[i].test.join(b.roles[i].test),
        a.merged(b).referenced == (a.referenced || b.referenced),
        a.gated(gate).roles[i].production == a.roles[i].production.meet(gate.production),
        a.gated(gate).roles[i].test == a.roles[i].test.meet(gate.test),
        a.gated(gate).referenced == a.referenced,
{
}

/// Code that only targets of one role reach, in every build, is reported under that role.
pub proof fn law_code_of_one_role(role: TargetRole)
    ensures
        ContextsView::seeded(role, Reachability::both()).output_role(Reachability::both())
            == match role {
            TargetRole::Production => OutputRole::Production,
            TargetRole::Test => OutputRole::Test,
            TargetRole::Bench => OutputRole::Bench,
            TargetRole::Example => OutputRole::Example,
            TargetRole::Build => OutputRole::Build,
        },
{
}

/// When code is reported under a role: certainly used code under the first role that uses it, with
/// production before examples, then tests, benches and build scripts. Tests are test targets and
/// the test builds of production code and examples. Code that no build uses is inactive where
/// something refers to its file, and an orphan otherwise.
pub proof fn law_reported_roles(contexts: ContextsView, local: Reachability)
    requires
        contexts.roles.len() == 5,
    ensures
        ({
            let role = contexts.output_role(local);
            let produced = |i: int|
                contexts.roles[i].production == Activation::Always && local.production
                    == Activation::Always;
            let unproduced = |i: int|
                contexts.roles[i].production == Activation::Never || local.production
                    == Activation::Never;
            let tested = |i: int|
                contexts.roles[i].test == Activation::Always && local.test == Activation::Always;
            let untested = |i: int|
                contexts.roles[i].test == Activation::Never || local.test == Activation::Never;
            let no_tests = untested(0) && untested(1) && untested(3);
            &&& role == OutputRole::Production <==> produced(0)
            &&& role == OutputRole::Example <==> unproduced(0) && produced(3)
            &&& role == OutputRole::Test <==> unproduced(0) && unproduced(3) && (tested(0)
                || tested(1) || tested(3))
            &&& role == OutputRole::Bench <==> unproduced(0) && unproduced(3) && no_tests
                && tested(2)
            &&& role == OutputRole::Build <==> unproduced(0) && unproduced(3) && no_tests
                && untested(2) && produced(4)
            &&& role == OutputRole::Inactive <==> unproduced(0) && unproduced(3) && unproduced(4)
                && no_tests && untested(2) && contexts.referenced
            &&& role == OutputRole::Orphan <==> unproduced(0) && unproduced(3) && unproduced(4)
                && no_tests && untested(2) && !contexts.referenced
        }),
{
}

/// A role under which code is reported.
#[derive(Clone, Copy, Debug, PartialEq, Eq, PartialOrd, Ord, Default, Structural)]
pub enum OutputRole {
    #[default]
    Production,
    Test,
    Bench,
    Example,
    Build,
    Conditional,
    Inactive,
    Orphan,
}

impl DeepView for OutputRole {
    type V = OutputRole;

    open spec fn deep_view(&self) -> OutputRole {
        *self
    }
}

impl OutputRole {
    /// The place of the role in reports.
    pub open spec fn place(self) -> nat {
        match self {
            OutputRole::Production => 0,
            OutputRole::Test => 1,
            OutputRole::Bench => 2,
            OutputRole::Example => 3,
            OutputRole::Build => 4,
            OutputRole::Conditional => 5,
            OutputRole::Inactive => 6,
            OutputRole::Orphan => 7,
        }
    }

    /// The place of the role in reports.
    pub fn slot(self) -> (slot: usize)
        ensures
            slot == self.place(),
            slot < 8,
    {
        match self {
            OutputRole::Production => 0,
            OutputRole::Test => 1,
            OutputRole::Bench => 2,
            OutputRole::Example => 3,
            OutputRole::Build => 4,
            OutputRole::Conditional => 5,
            OutputRole::Inactive => 6,
            OutputRole::Orphan => 7,
        }
    }

    /// The role at a place in reports.
    pub fn at(slot: usize) -> (role: OutputRole)
        requires
            slot < 8,
        ensures
            role.place() == slot,
    {
        match slot {
            0 => OutputRole::Production,
            1 => OutputRole::Test,
            2 => OutputRole::Bench,
            3 => OutputRole::Example,
            4 => OutputRole::Build,
            5 => OutputRole::Conditional,
            6 => OutputRole::Inactive,
            _ => OutputRole::Orphan,
        }
    }

    /// The heading of the role.
    pub open spec fn heading(self) -> Seq<char> {
        match self {
            OutputRole::Production => "Production"@,
            OutputRole::Test => "Tests"@,
            OutputRole::Bench => "Benches"@,
            OutputRole::Example => "Examples"@,
            OutputRole::Build => "Build"@,
            OutputRole::Conditional => "Conditional"@,
            OutputRole::Inactive => "Inactive"@,
            OutputRole::Orphan => "Orphan"@,
        }
    }

    /// The heading of the role.
    pub fn label(self) -> (label: &'static str)
        ensures
            label@ == self.heading(),
    {
        match self {
            OutputRole::Production => "Production",
            OutputRole::Test => "Tests",
            OutputRole::Bench => "Benches",
            OutputRole::Example => "Examples",
            OutputRole::Build => "Build",
            OutputRole::Conditional => "Conditional",
            OutputRole::Inactive => "Inactive",
            OutputRole::Orphan => "Orphan",
        }
    }

    /// The first bucket of this role.
    pub fn bucket(self, buckets: &[BucketReport]) -> (found: Option<&BucketReport>)
        ensures
            found.deep_view() == bucket_of(buckets@, self),
    {
        let mut index: usize = 0;
        proof {
            assert(buckets@.skip(0) =~= buckets@);
        }
        while index < buckets.len()
            invariant
                index <= buckets@.len(),
                bucket_of(buckets@, self) == bucket_of(buckets@.skip(index as int), self),
            decreases buckets@.len() - index,
        {
            proof {
                assert(buckets@.skip(index as int)[0] == buckets@[index as int]);
                assert(buckets@.skip(index as int).drop_first() =~= buckets@.skip(
                    index as int + 1,
                ));
            }
            if buckets[index].role == self {
                return Some(&buckets[index]);
            }
            index = index + 1;
        }
        None
    }
}

/// The first bucket of a role.
pub open spec fn bucket_of(buckets: Seq<BucketReport>, role: OutputRole) -> Option<BucketReport>
    decreases buckets.len(),
{
    if buckets.len() == 0 {
        None
    } else if buckets[0].role == role {
        Some(buckets[0])
    } else {
        bucket_of(buckets.drop_first(), role)
    }
}

/// The lines of a piece of source, by kind.
#[derive(Clone, Copy, Debug, PartialEq, Eq, Default, Structural)]
pub struct LineCounts {
    pub physical: u64,
    pub code: u64,
    pub comments: u64,
    pub docs: u64,
    pub blank: u64,
}

impl DeepView for LineCounts {
    type V = LineCounts;

    open spec fn deep_view(&self) -> LineCounts {
        *self
    }
}

impl LineCounts {
    /// No lines.
    pub open spec fn zero() -> Self {
        LineCounts { physical: 0, code: 0, comments: 0, docs: 0, blank: 0 }
    }

    /// The counts of both together.
    pub open spec fn plus(self, other: Self) -> Self {
        LineCounts {
            physical: (self.physical + other.physical) as u64,
            code: (self.code + other.code) as u64,
            comments: (self.comments + other.comments) as u64,
            docs: (self.docs + other.docs) as u64,
            blank: (self.blank + other.blank) as u64,
        }
    }

    /// Whether the counts of both together can be held.
    pub open spec fn fits(self, other: Self) -> bool {
        &&& self.physical + other.physical <= u64::MAX
        &&& self.code + other.code <= u64::MAX
        &&& self.comments + other.comments <= u64::MAX
        &&& self.docs + other.docs <= u64::MAX
        &&& self.blank + other.blank <= u64::MAX
    }

    /// Adds counts.
    pub fn add(&mut self, other: Self)
        requires
            old(self).fits(other),
        ensures
            *final(self) == old(self).plus(other),
    {
        self.physical = self.physical + other.physical;
        self.code = self.code + other.code;
        self.comments = self.comments + other.comments;
        self.docs = self.docs + other.docs;
        self.blank = self.blank + other.blank;
    }
}

/// The complexity of a piece of source.
#[derive(Clone, Copy, Debug, PartialEq, Eq, Default, Structural)]
pub struct ComplexityMetrics {
    pub lexical_complexity: u64,
    pub cyclomatic_authored: u64,
    pub cognitive_authored: u64,
}

impl DeepView for ComplexityMetrics {
    type V = ComplexityMetrics;

    open spec fn deep_view(&self) -> ComplexityMetrics {
        *self
    }
}

impl ComplexityMetrics {
    /// No complexity.
    pub open spec fn zero() -> Self {
        ComplexityMetrics { lexical_complexity: 0, cyclomatic_authored: 0, cognitive_authored: 0 }
    }

    /// The complexity of both together.
    pub open spec fn plus(self, other: Self) -> Self {
        ComplexityMetrics {
            lexical_complexity: (self.lexical_complexity + other.lexical_complexity) as u64,
            cyclomatic_authored: (self.cyclomatic_authored + other.cyclomatic_authored) as u64,
            cognitive_authored: (self.cognitive_authored + other.cognitive_authored) as u64,
        }
    }

    /// Whether the complexity of both together can be held.
    pub open spec fn fits(self, other: Self) -> bool {
        &&& self.lexical_complexity + other.lexical_complexity <= u64::MAX
        &&& self.cyclomatic_authored + other.cyclomatic_authored <= u64::MAX
        &&& self.cognitive_authored + other.cognitive_authored <= u64::MAX
    }

    /// Adds complexity.
    pub fn add(&mut self, other: Self)
        requires
            old(self).fits(other),
        ensures
            *final(self) == old(self).plus(other),
    {
        self.lexical_complexity = self.lexical_complexity + other.lexical_complexity;
        self.cyclomatic_authored = self.cyclomatic_authored + other.cyclomatic_authored;
        self.cognitive_authored = self.cognitive_authored + other.cognitive_authored;
    }
}

/// All counts of a piece of source.
#[derive(Clone, Copy, Debug, PartialEq, Eq, Default, Structural)]
pub struct SourceMetrics {
    pub lines: LineCounts,
    pub metrics: ComplexityMetrics,
    pub declared_public: u64,
}

impl DeepView for SourceMetrics {
    type V = SourceMetrics;

    open spec fn deep_view(&self) -> SourceMetrics {
        *self
    }
}

/// The public declarations of all buckets.
pub open spec fn declared_public_sum(buckets: Seq<BucketReport>) -> nat
    decreases buckets.len(),
{
    if buckets.len() == 0 {
        0
    } else {
        declared_public_sum(buckets.drop_last()) + buckets.last().source.declared_public as nat
    }
}

/// A part of the buckets declares at most as much as all of them.
proof fn lemma_declared_public_prefix(buckets: Seq<BucketReport>, count: int)
    requires
        0 <= count <= buckets.len(),
    ensures
        declared_public_sum(buckets.take(count)) <= declared_public_sum(buckets),
    decreases buckets.len(),
{
    if count == buckets.len() {
        assert(buckets.take(count) =~= buckets);
    } else {
        lemma_declared_public_prefix(buckets.drop_last(), count);
        assert(buckets.drop_last().take(count) =~= buckets.take(count));
    }
}

impl SourceMetrics {
    /// Nothing counted.
    pub open spec fn zero() -> Self {
        SourceMetrics {
            lines: LineCounts::zero(),
            metrics: ComplexityMetrics::zero(),
            declared_public: 0,
        }
    }

    /// The counts of both together.
    pub open spec fn plus(self, other: Self) -> Self {
        SourceMetrics {
            lines: self.lines.plus(other.lines),
            metrics: self.metrics.plus(other.metrics),
            declared_public: (self.declared_public + other.declared_public) as u64,
        }
    }

    /// Whether the counts of both together can be held.
    pub open spec fn fits(self, other: Self) -> bool {
        &&& self.lines.fits(other.lines)
        &&& self.metrics.fits(other.metrics)
        &&& self.declared_public + other.declared_public <= u64::MAX
    }

    /// The counts of a report with the public declarations of its buckets.
    pub fn total(lines: LineCounts, metrics: ComplexityMetrics, buckets: &[BucketReport]) -> (total:
        Self)
        requires
            declared_public_sum(buckets@) <= u64::MAX,
        ensures
            total.lines == lines,
            total.metrics == metrics,
            total.declared_public == declared_public_sum(buckets@),
    {
        let mut declared: u64 = 0;
        let mut index: usize = 0;
        proof {
            assert(buckets@.take(0) =~= Seq::<BucketReport>::empty());
        }
        while index < buckets.len()
            invariant
                index <= buckets@.len(),
                declared_public_sum(buckets@) <= u64::MAX,
                declared == declared_public_sum(buckets@.take(index as int)),
            decreases buckets@.len() - index,
        {
            proof {
                let next = buckets@.take(index + 1);
                assert(next.drop_last() =~= buckets@.take(index as int));
                assert(next.last() == buckets@[index as int]);
                lemma_declared_public_prefix(buckets@, index + 1);
            }
            declared = declared + buckets[index].source.declared_public;
            index = index + 1;
        }
        proof {
            assert(buckets@.take(buckets@.len() as int) =~= buckets@);
        }
        SourceMetrics { lines, metrics, declared_public: declared }
    }

    /// Adds counts.
    pub fn add(&mut self, other: Self)
        requires
            old(self).fits(other),
        ensures
            *final(self) == old(self).plus(other),
    {
        self.lines.add(other.lines);
        self.metrics.add(other.metrics);
        self.declared_public = self.declared_public + other.declared_public;
    }

    /// Whether nothing was counted.
    pub fn is_empty(self) -> (empty: bool)
        ensures
            empty == (self == SourceMetrics::zero()),
    {
        self == SourceMetrics {
            lines: LineCounts { physical: 0, code: 0, comments: 0, docs: 0, blank: 0 },
            metrics: ComplexityMetrics {
                lexical_complexity: 0,
                cyclomatic_authored: 0,
                cognitive_authored: 0,
            },
            declared_public: 0,
        }
    }
}

/// Adding counts is commutative and associative, and nothing is its neutral element.
pub proof fn law_metrics_addition(a: SourceMetrics, b: SourceMetrics, c: SourceMetrics)
    requires
        a.fits(b),
        b.fits(c),
        a.plus(b).fits(c),
        a.fits(b.plus(c)),
    ensures
        a.plus(b) == b.plus(a),
        a.plus(b).plus(c) == a.plus(b.plus(c)),
        a.plus(SourceMetrics::zero()) == a,
{
}

/// The counts of one role.
#[derive(Clone, Copy, Debug, PartialEq, Eq, Default, Structural)]
pub struct BucketReport {
    pub role: OutputRole,
    pub files: u64,
    pub source: SourceMetrics,
}

impl DeepView for BucketReport {
    type V = BucketReport;

    open spec fn deep_view(&self) -> BucketReport {
        *self
    }
}

impl BucketReport {
    /// The bucket with the counts of another added.
    pub open spec fn plus(self, other: Self) -> Self {
        BucketReport {
            role: self.role,
            files: (self.files + other.files) as u64,
            source: self.source.plus(other.source),
        }
    }

    /// Whether the counts of both together can be held.
    pub open spec fn fits(self, other: Self) -> bool {
        &&& self.files + other.files <= u64::MAX
        &&& self.source.fits(other.source)
    }

    /// Adds the counts of another bucket.
    pub fn add(&mut self, other: &Self)
        requires
            old(self).fits(*other),
        ensures
            *final(self) == old(self).plus(*other),
    {
        self.files = self.files + other.files;
        self.source.add(other.source);
    }

    /// Whether nothing was counted.
    pub fn is_empty(&self) -> (empty: bool)
        ensures
            empty == (self.files == 0 && self.source == SourceMetrics::zero()),
    {
        self.files == 0 && self.source.is_empty()
    }
}

/// What was selected: a file or a directory.
#[derive(Clone, Copy, Debug, PartialEq, Eq, PartialOrd, Ord, Default, Structural)]
pub enum SelectedPathKind {
    #[default]
    File,
    Directory,
}

impl DeepView for SelectedPathKind {
    type V = SelectedPathKind;

    open spec fn deep_view(&self) -> SelectedPathKind {
        *self
    }
}

impl SelectedPathKind {
    /// The name of the kind.
    pub fn label(self) -> (label: &'static str)
        ensures
            label@ == self.name(),
    {
        match self {
            SelectedPathKind::File => "file",
            SelectedPathKind::Directory => "directory",
        }
    }

    /// The name of the kind.
    pub open spec fn name(self) -> Seq<char> {
        match self {
            SelectedPathKind::File => "file"@,
            SelectedPathKind::Directory => "directory"@,
        }
    }
}

/// Files come before directories.
impl Ordered for SelectedPathKind {
    open spec fn precedes(a: SelectedPathKind, b: SelectedPathKind) -> bool {
        a == SelectedPathKind::File && b == SelectedPathKind::Directory
    }

    proof fn irreflexive(a: SelectedPathKind) {
    }

    proof fn transitive(a: SelectedPathKind, b: SelectedPathKind, c: SelectedPathKind) {
    }

    proof fn total(a: SelectedPathKind, b: SelectedPathKind) {
    }

    fn rank(&self, other: &Self) -> (rank: Rank) {
        if *self == *other {
            Rank::Equal
        } else if *self == SelectedPathKind::File {
            Rank::Less
        } else {
            Rank::Greater
        }
    }
}

/// The counts of one source file.
#[derive(Debug, PartialEq, Eq)]
pub struct FileReport {
    pub path: String,
    pub package: Option<String>,
    pub bytes: u64,
    pub syntax_errors: u64,
    pub buckets: Vec<BucketReport>,
    pub total: LineCounts,
    pub metrics: ComplexityMetrics,
}

/// The model of [`FileReport`].
#[verifier::ext_equal]
pub struct FileReportView {
    pub path: Seq<char>,
    pub package: Option<Seq<char>>,
    pub bytes: u64,
    pub syntax_errors: u64,
    pub buckets: Seq<BucketReport>,
    pub total: LineCounts,
    pub metrics: ComplexityMetrics,
}

impl DeepView for FileReport {
    type V = FileReportView;

    open spec fn deep_view(&self) -> FileReportView {
        FileReportView {
            path: self.path.deep_view(),
            package: self.package.deep_view(),
            bytes: self.bytes,
            syntax_errors: self.syntax_errors,
            buckets: self.buckets.deep_view(),
            total: self.total,
            metrics: self.metrics,
        }
    }
}

impl Clone for FileReport {
    fn clone(&self) -> (copy: Self)
        ensures
            copy.deep_view() == self.deep_view(),
    {
        let copy = FileReport {
            path: self.path.clone(),
            package: self.package.clone(),
            bytes: self.bytes,
            syntax_errors: self.syntax_errors,
            buckets: self.buckets.clone(),
            total: self.total,
            metrics: self.metrics,
        };
        proof {
            assert(copy.package.deep_view() =~= self.package.deep_view());
            assert(copy.buckets.deep_view() =~= self.buckets.deep_view());
        }
        copy
    }
}

/// The configuration that a run was made under.
#[derive(Debug, PartialEq, Eq)]
pub struct ProfileReport {
    pub target: String,
    pub rustc: String,
    pub cfg_preset: String,
    pub cfg_resolution: String,
    pub feature_mode: String,
    pub feature_resolution: String,
    pub enabled_features: Vec<(String, Vec<String>)>,
    pub excluded_features: Vec<String>,
    pub active_cfg: Vec<String>,
    pub forced_cfg: Vec<String>,
    pub forced_unset_cfg: Vec<String>,
    pub additional_test_attributes: Vec<String>,
    pub synthetic: bool,
}

/// The model of [`ProfileReport`].
#[verifier::ext_equal]
pub struct ProfileReportView {
    pub target: Seq<char>,
    pub rustc: Seq<char>,
    pub cfg_preset: Seq<char>,
    pub cfg_resolution: Seq<char>,
    pub feature_mode: Seq<char>,
    pub feature_resolution: Seq<char>,
    pub enabled_features: Seq<(Seq<char>, Seq<Seq<char>>)>,
    pub excluded_features: Seq<Seq<char>>,
    pub active_cfg: Seq<Seq<char>>,
    pub forced_cfg: Seq<Seq<char>>,
    pub forced_unset_cfg: Seq<Seq<char>>,
    pub additional_test_attributes: Seq<Seq<char>>,
    pub synthetic: bool,
}

impl DeepView for ProfileReport {
    type V = ProfileReportView;

    open spec fn deep_view(&self) -> ProfileReportView {
        ProfileReportView {
            target: self.target.deep_view(),
            rustc: self.rustc.deep_view(),
            cfg_preset: self.cfg_preset.deep_view(),
            cfg_resolution: self.cfg_resolution.deep_view(),
            feature_mode: self.feature_mode.deep_view(),
            feature_resolution: self.feature_resolution.deep_view(),
            enabled_features: self.enabled_features.deep_view(),
            excluded_features: self.excluded_features.deep_view(),
            active_cfg: self.active_cfg.deep_view(),
            forced_cfg: self.forced_cfg.deep_view(),
            forced_unset_cfg: self.forced_unset_cfg.deep_view(),
            additional_test_attributes: self.additional_test_attributes.deep_view(),
            synthetic: self.synthetic,
        }
    }
}

/// How severe a diagnostic is.
#[derive(Clone, Copy, Debug, PartialEq, Eq, Structural)]
pub enum DiagnosticSeverity {
    Warning,
    Error,
}

impl DeepView for DiagnosticSeverity {
    type V = DiagnosticSeverity;

    open spec fn deep_view(&self) -> DiagnosticSeverity {
        *self
    }
}

impl DiagnosticSeverity {
    /// The place of the variant in the declaration.
    pub open spec fn place(self) -> u8 {
        match self {
            DiagnosticSeverity::Warning => 0,
            DiagnosticSeverity::Error => 1,
        }
    }

    fn declared_at(self) -> (place: u8)
        ensures
            place == self.place(),
    {
        match self {
            DiagnosticSeverity::Warning => 0,
            DiagnosticSeverity::Error => 1,
        }
    }
}

/// Ordered as declared.
impl Ordered for DiagnosticSeverity {
    open spec fn precedes(a: DiagnosticSeverity, b: DiagnosticSeverity) -> bool {
        a.place() < b.place()
    }

    proof fn irreflexive(a: DiagnosticSeverity) {
    }

    proof fn transitive(a: DiagnosticSeverity, b: DiagnosticSeverity, c: DiagnosticSeverity) {
    }

    proof fn total(a: DiagnosticSeverity, b: DiagnosticSeverity) {
    }

    fn rank(&self, other: &Self) -> (rank: Rank) {
        let left: u8 = self.declared_at();
        let right: u8 = other.declared_at();
        if left < right {
            Rank::Less
        } else if left == right {
            Rank::Equal
        } else {
            Rank::Greater
        }
    }
}

/// A message about the analysed sources.
#[derive(Debug, PartialEq, Eq)]
pub struct Diagnostic {
    pub severity: DiagnosticSeverity,
    pub path: Option<String>,
    pub message: String,
}

/// The model of [`Diagnostic`].
#[verifier::ext_equal]
pub struct DiagnosticView {
    pub severity: DiagnosticSeverity,
    pub path: Option<Seq<char>>,
    pub message: Seq<char>,
}

impl DeepView for Diagnostic {
    type V = DiagnosticView;

    open spec fn deep_view(&self) -> DiagnosticView {
        DiagnosticView {
            severity: self.severity,
            path: self.path.deep_view(),
            message: self.message.deep_view(),
        }
    }
}

impl Clone for Diagnostic {
    fn clone(&self) -> (copy: Self)
        ensures
            copy.deep_view() == self.deep_view(),
    {
        let copy = Diagnostic {
            severity: self.severity,
            path: self.path.clone(),
            message: self.message.clone(),
        };
        proof {
            assert(copy.path.deep_view() =~= self.path.deep_view());
        }
        copy
    }
}

/// How complete the compiler evidence is.
#[derive(Clone, Copy, Debug, PartialEq, Eq, Structural)]
pub enum SemanticStatus {
    Complete,
    Partial,
    Unavailable,
}

impl DeepView for SemanticStatus {
    type V = SemanticStatus;

    open spec fn deep_view(&self) -> SemanticStatus {
        *self
    }
}

/// A Cargo target in one of its roles.
#[derive(Debug, PartialEq, Eq)]
pub struct CompilerTargetReport {
    pub package_id: String,
    pub name: String,
    pub kinds: Vec<String>,
    pub crate_types: Vec<String>,
    pub source: String,
    pub role: String,
    pub compilation_context: String,
}

/// The model of [`CompilerTargetReport`].
#[verifier::ext_equal]
pub struct CompilerTargetReportView {
    pub package_id: Seq<char>,
    pub name: Seq<char>,
    pub kinds: Seq<Seq<char>>,
    pub crate_types: Seq<Seq<char>>,
    pub source: Seq<char>,
    pub role: Seq<char>,
    pub compilation_context: Seq<char>,
}

impl DeepView for CompilerTargetReport {
    type V = CompilerTargetReportView;

    open spec fn deep_view(&self) -> CompilerTargetReportView {
        CompilerTargetReportView {
            package_id: self.package_id.deep_view(),
            name: self.name.deep_view(),
            kinds: self.kinds.deep_view(),
            crate_types: self.crate_types.deep_view(),
            source: self.source.deep_view(),
            role: self.role.deep_view(),
            compilation_context: self.compilation_context.deep_view(),
        }
    }
}

impl Clone for CompilerTargetReport {
    fn clone(&self) -> (copy: Self)
        ensures
            copy.deep_view() == self.deep_view(),
    {
        let copy = CompilerTargetReport {
            package_id: self.package_id.clone(),
            name: self.name.clone(),
            kinds: self.kinds.clone(),
            crate_types: self.crate_types.clone(),
            source: self.source.clone(),
            role: self.role.clone(),
            compilation_context: self.compilation_context.clone(),
        };
        proof {
            assert(copy.kinds.deep_view() =~= self.kinds.deep_view());
            assert(copy.crate_types.deep_view() =~= self.crate_types.deep_view());
        }
        copy
    }
}

/// The identity of a definition, in hexadecimal.
#[derive(Debug, PartialEq, Eq)]
pub struct CompilerDefinitionIdReport {
    pub stable_crate_id: String,
    pub local_hash: String,
}

/// The model of [`CompilerDefinitionIdReport`].
#[verifier::ext_equal]
pub struct CompilerDefinitionIdReportView {
    pub stable_crate_id: Seq<char>,
    pub local_hash: Seq<char>,
}

impl DeepView for CompilerDefinitionIdReport {
    type V = CompilerDefinitionIdReportView;

    open spec fn deep_view(&self) -> CompilerDefinitionIdReportView {
        CompilerDefinitionIdReportView {
            stable_crate_id: self.stable_crate_id.deep_view(),
            local_hash: self.local_hash.deep_view(),
        }
    }
}

impl Clone for CompilerDefinitionIdReport {
    fn clone(&self) -> (copy: Self)
        ensures
            copy.deep_view() == self.deep_view(),
    {
        let copy = CompilerDefinitionIdReport {
            stable_crate_id: self.stable_crate_id.clone(),
            local_hash: self.local_hash.clone(),
        };
        copy
    }
}

/// A place in a source file.
#[derive(Debug, PartialEq, Eq)]
pub struct CompilerSourceSpanReport {
    pub path: String,
    pub source_hash: String,
    pub generated: bool,
    pub start_byte: u64,
    pub end_byte: u64,
    pub line: u64,
    pub column: u64,
}

/// The model of [`CompilerSourceSpanReport`].
#[verifier::ext_equal]
pub struct CompilerSourceSpanReportView {
    pub path: Seq<char>,
    pub source_hash: Seq<char>,
    pub generated: bool,
    pub start_byte: u64,
    pub end_byte: u64,
    pub line: u64,
    pub column: u64,
}

impl DeepView for CompilerSourceSpanReport {
    type V = CompilerSourceSpanReportView;

    open spec fn deep_view(&self) -> CompilerSourceSpanReportView {
        CompilerSourceSpanReportView {
            path: self.path.deep_view(),
            source_hash: self.source_hash.deep_view(),
            generated: self.generated,
            start_byte: self.start_byte,
            end_byte: self.end_byte,
            line: self.line,
            column: self.column,
        }
    }
}

impl Clone for CompilerSourceSpanReport {
    fn clone(&self) -> (copy: Self)
        ensures
            copy.deep_view() == self.deep_view(),
    {
        let copy = CompilerSourceSpanReport {
            path: self.path.clone(),
            source_hash: self.source_hash.clone(),
            generated: self.generated,
            start_byte: self.start_byte,
            end_byte: self.end_byte,
            line: self.line,
            column: self.column,
        };
        copy
    }
}

/// Ordered field by field.
impl Ordered for CompilerSourceSpanReport {
    open spec fn precedes(a: CompilerSourceSpanReportView, b: CompilerSourceSpanReportView) -> bool {
        <(String, (String, (bool, (u64, (u64, (u64, u64)))))) as Ordered>::precedes(
            (a.path, (a.source_hash, (a.generated, (a.start_byte, (a.end_byte, (a.line, a.column)))))),
            (b.path, (b.source_hash, (b.generated, (b.start_byte, (b.end_byte, (b.line, b.column)))))),
        )
    }

    proof fn irreflexive(a: CompilerSourceSpanReportView) {
        <(String, (String, (bool, (u64, (u64, (u64, u64)))))) as Ordered>::irreflexive((a.path, (a.source_hash, (a.generated, (a.start_byte, (a.end_byte, (a.line, a.column)))))));
    }

    proof fn transitive(a: CompilerSourceSpanReportView, b: CompilerSourceSpanReportView, c: CompilerSourceSpanReportView) {
        <(String, (String, (bool, (u64, (u64, (u64, u64)))))) as Ordered>::transitive(
            (a.path, (a.source_hash, (a.generated, (a.start_byte, (a.end_byte, (a.line, a.column)))))),
            (b.path, (b.source_hash, (b.generated, (b.start_byte, (b.end_byte, (b.line, b.column)))))),
            (c.path, (c.source_hash, (c.generated, (c.start_byte, (c.end_byte, (c.line, c.column)))))),
        );
    }

    proof fn total(a: CompilerSourceSpanReportView, b: CompilerSourceSpanReportView) {
        <(String, (String, (bool, (u64, (u64, (u64, u64)))))) as Ordered>::total((a.path, (a.source_hash, (a.generated, (a.start_byte, (a.end_byte, (a.line, a.column)))))), (b.path, (b.source_hash, (b.generated, (b.start_byte, (b.end_byte, (b.line, b.column)))))));
    }

    fn rank(&self, other: &Self) -> (rank: Rank) {
        match self.path.rank(&other.path) {
            Rank::Equal => {
                match self.source_hash.rank(&other.source_hash) {
                    Rank::Equal => {
                        match self.generated.rank(&other.generated) {
                            Rank::Equal => {
                                match self.start_byte.rank(&other.start_byte) {
                                    Rank::Equal => {
                                        match self.end_byte.rank(&other.end_byte) {
                                            Rank::Equal => {
                                                match self.line.rank(&other.line) {
                                                    Rank::Equal => {
                                                        self.column.rank(&other.column)
                                                    },
                                                    decided => decided,
                                                }
                                            },
                                            decided => decided,
                                        }
                                    },
                                    decided => decided,
                                }
                            },
                            decided => decided,
                        }
                    },
                    decided => decided,
                }
            },
            decided => decided,
        }
    }
}

/// A definition that has to stay public.
#[derive(Debug, PartialEq, Eq)]
pub struct RequiredVisibilityDefinitionReport {
    pub package_id: String,
    pub crate_name: String,
    pub representative_invocation: String,
    pub representative_id: CompilerDefinitionIdReport,
    pub definition_path: String,
    pub kind: String,
    pub current_visibility: String,
    pub required_visibility: String,
    pub reasons: Vec<String>,
    pub span: Option<CompilerSourceSpanReport>,
}

/// The model of [`RequiredVisibilityDefinitionReport`].
#[verifier::ext_equal]
pub struct RequiredVisibilityDefinitionReportView {
    pub package_id: Seq<char>,
    pub crate_name: Seq<char>,
    pub representative_invocation: Seq<char>,
    pub representative_id: CompilerDefinitionIdReportView,
    pub definition_path: Seq<char>,
    pub kind: Seq<char>,
    pub current_visibility: Seq<char>,
    pub required_visibility: Seq<char>,
    pub reasons: Seq<Seq<char>>,
    pub span: Option<CompilerSourceSpanReportView>,
}

impl DeepView for RequiredVisibilityDefinitionReport {
    type V = RequiredVisibilityDefinitionReportView;

    open spec fn deep_view(&self) -> RequiredVisibilityDefinitionReportView {
        RequiredVisibilityDefinitionReportView {
            package_id: self.package_id.deep_view(),
            crate_name: self.crate_name.deep_view(),
            representative_invocation: self.representative_invocation.deep_view(),
            representative_id: self.representative_id.deep_view(),
            definition_path: self.definition_path.deep_view(),
            kind: self.kind.deep_view(),
            current_visibility: self.current_visibility.deep_view(),
            required_visibility: self.required_visibility.deep_view(),
            reasons: self.reasons.deep_view(),
            span: self.span.deep_view(),
        }
    }
}

impl Clone for RequiredVisibilityDefinitionReport {
    fn clone(&self) -> (copy: Self)
        ensures
            copy.deep_view() == self.deep_view(),
    {
        let copy = RequiredVisibilityDefinitionReport {
            package_id: self.package_id.clone(),
            crate_name: self.crate_name.clone(),
            representative_invocation: self.representative_invocation.clone(),
            representative_id: self.representative_id.clone(),
            definition_path: self.definition_path.clone(),
            kind: self.kind.clone(),
            current_visibility: self.current_visibility.clone(),
            required_visibility: self.required_visibility.clone(),
            reasons: self.reasons.clone(),
            span: self.span.clone(),
        };
        proof {
            assert(copy.representative_id.deep_view() =~= self.representative_id.deep_view());
            assert(copy.reasons.deep_view() =~= self.reasons.deep_view());
            assert(copy.span.deep_view() =~= self.span.deep_view());
        }
        copy
    }
}

/// All definitions that have to stay public.
#[derive(Debug, PartialEq, Eq)]
pub struct RequiredVisibilityReport {
    pub scope: String,
    pub evidence_exclusions: Vec<String>,
    pub definitions: Vec<RequiredVisibilityDefinitionReport>,
}

/// The model of [`RequiredVisibilityReport`].
#[verifier::ext_equal]
pub struct RequiredVisibilityReportView {
    pub scope: Seq<char>,
    pub evidence_exclusions: Seq<Seq<char>>,
    pub definitions: Seq<RequiredVisibilityDefinitionReportView>,
}

impl DeepView for RequiredVisibilityReport {
    type V = RequiredVisibilityReportView;

    open spec fn deep_view(&self) -> RequiredVisibilityReportView {
        RequiredVisibilityReportView {
            scope: self.scope.deep_view(),
            evidence_exclusions: self.evidence_exclusions.deep_view(),
            definitions: self.definitions.deep_view(),
        }
    }
}

impl Clone for RequiredVisibilityReport {
    fn clone(&self) -> (copy: Self)
        ensures
            copy.deep_view() == self.deep_view(),
    {
        let copy = RequiredVisibilityReport {
            scope: self.scope.clone(),
            evidence_exclusions: self.evidence_exclusions.clone(),
            definitions: self.definitions.clone(),
        };
        proof {
            assert(copy.evidence_exclusions.deep_view() =~= self.evidence_exclusions.deep_view());
            assert(copy.definitions.deep_view() =~= self.definitions.deep_view());
        }
        copy
    }
}

/// The sizes of the closed world and of its findings.
#[derive(Clone, Copy, Debug, PartialEq, Eq, Structural)]
pub struct ClosedWorldSummaryReport {
    pub definition_nodes: u64,
    pub reference_edges: u64,
    pub production_roots: u64,
    pub nonproduction_roots: u64,
    pub production_live: u64,
    pub nonproduction_live: u64,
    pub public_candidates: u64,
    pub dead_public: u64,
    pub unnecessary_public: u64,
}

impl DeepView for ClosedWorldSummaryReport {
    type V = ClosedWorldSummaryReport;

    open spec fn deep_view(&self) -> ClosedWorldSummaryReport {
        *self
    }
}

/// A public definition that need not be public.
#[derive(Debug, PartialEq, Eq)]
pub struct ClosedWorldFindingReport {
    pub kind: String,
    pub reason: String,
    pub package_id: String,
    pub crate_name: String,
    pub representative_invocation: String,
    pub representative_id: CompilerDefinitionIdReport,
    pub definition_path: String,
    pub definition_kind: String,
    pub production_live: bool,
    pub nonproduction_live: bool,
    pub test_compiled_only: bool,
    pub span: Option<CompilerSourceSpanReport>,
    pub attribution_callsite: Option<CompilerSourceSpanReport>,
}

/// The model of [`ClosedWorldFindingReport`].
#[verifier::ext_equal]
pub struct ClosedWorldFindingReportView {
    pub kind: Seq<char>,
    pub reason: Seq<char>,
    pub package_id: Seq<char>,
    pub crate_name: Seq<char>,
    pub representative_invocation: Seq<char>,
    pub representative_id: CompilerDefinitionIdReportView,
    pub definition_path: Seq<char>,
    pub definition_kind: Seq<char>,
    pub production_live: bool,
    pub nonproduction_live: bool,
    pub test_compiled_only: bool,
    pub span: Option<CompilerSourceSpanReportView>,
    pub attribution_callsite: Option<CompilerSourceSpanReportView>,
}

impl DeepView for ClosedWorldFindingReport {
    type V = ClosedWorldFindingReportView;

    open spec fn deep_view(&self) -> ClosedWorldFindingReportView {
        ClosedWorldFindingReportView {
            kind: self.kind.deep_view(),
            reason: self.reason.deep_view(),
            package_id: self.package_id.deep_view(),
            crate_name: self.crate_name.deep_view(),
            representative_invocation: self.representative_invocation.deep_view(),
            representative_id: self.representative_id.deep_view(),
            definition_path: self.definition_path.deep_view(),
            definition_kind: self.definition_kind.deep_view(),
            production_live: self.production_live,
            nonproduction_live: self.nonproduction_live,
            test_compiled_only: self.test_compiled_only,
            span: self.span.deep_view(),
            attribution_callsite: self.attribution_callsite.deep_view(),
        }
    }
}

impl Clone for ClosedWorldFindingReport {
    fn clone(&self) -> (copy: Self)
        ensures
            copy.deep_view() == self.deep_view(),
    {
        let copy = ClosedWorldFindingReport {
            kind: self.kind.clone(),
            reason: self.reason.clone(),
            package_id: self.package_id.clone(),
            crate_name: self.crate_name.clone(),
            representative_invocation: self.representative_invocation.clone(),
            representative_id: self.representative_id.clone(),
            definition_path: self.definition_path.clone(),
            definition_kind: self.definition_kind.clone(),
            production_live: self.production_live,
            nonproduction_live: self.nonproduction_live,
            test_compiled_only: self.test_compiled_only,
            span: self.span.clone(),
            attribution_callsite: self.attribution_callsite.clone(),
        };
        proof {
            assert(copy.representative_id.deep_view() =~= self.representative_id.deep_view());
            assert(copy.span.deep_view() =~= self.span.deep_view());
            assert(copy.attribution_callsite.deep_view() =~= self.attribution_callsite.deep_view());
        }
        copy
    }
}

/// What the closed world of the selected targets shows.
#[derive(Debug, PartialEq, Eq)]
pub struct ClosedWorldReport {
    pub scope: String,
    pub evidence_exclusions: Vec<String>,
    pub summary: ClosedWorldSummaryReport,
    pub findings: Vec<ClosedWorldFindingReport>,
}

/// The model of [`ClosedWorldReport`].
#[verifier::ext_equal]
pub struct ClosedWorldReportView {
    pub scope: Seq<char>,
    pub evidence_exclusions: Seq<Seq<char>>,
    pub summary: ClosedWorldSummaryReport,
    pub findings: Seq<ClosedWorldFindingReportView>,
}

impl DeepView for ClosedWorldReport {
    type V = ClosedWorldReportView;

    open spec fn deep_view(&self) -> ClosedWorldReportView {
        ClosedWorldReportView {
            scope: self.scope.deep_view(),
            evidence_exclusions: self.evidence_exclusions.deep_view(),
            summary: self.summary,
            findings: self.findings.deep_view(),
        }
    }
}

impl Clone for ClosedWorldReport {
    fn clone(&self) -> (copy: Self)
        ensures
            copy.deep_view() == self.deep_view(),
    {
        let copy = ClosedWorldReport {
            scope: self.scope.clone(),
            evidence_exclusions: self.evidence_exclusions.clone(),
            summary: self.summary,
            findings: self.findings.clone(),
        };
        proof {
            assert(copy.evidence_exclusions.deep_view() =~= self.evidence_exclusions.deep_view());
            assert(copy.findings.deep_view() =~= self.findings.deep_view());
        }
        copy
    }
}

/// The definition that an impact report was asked about.
#[derive(Debug, PartialEq, Eq)]
pub struct ImpactQueryReport {
    pub package: String,
    pub definition_path: String,
    pub path: Option<String>,
    pub line: Option<u64>,
    pub column: Option<u64>,
}

/// The model of [`ImpactQueryReport`].
#[verifier::ext_equal]
pub struct ImpactQueryReportView {
    pub package: Seq<char>,
    pub definition_path: Seq<char>,
    pub path: Option<Seq<char>>,
    pub line: Option<u64>,
    pub column: Option<u64>,
}

impl DeepView for ImpactQueryReport {
    type V = ImpactQueryReportView;

    open spec fn deep_view(&self) -> ImpactQueryReportView {
        ImpactQueryReportView {
            package: self.package.deep_view(),
            definition_path: self.definition_path.deep_view(),
            path: self.path.deep_view(),
            line: self.line,
            column: self.column,
        }
    }
}

impl Clone for ImpactQueryReport {
    fn clone(&self) -> (copy: Self)
        ensures
            copy.deep_view() == self.deep_view(),
    {
        let copy = ImpactQueryReport {
            package: self.package.clone(),
            definition_path: self.definition_path.clone(),
            path: self.path.clone(),
            line: self.line,
            column: self.column,
        };
        proof {
            assert(copy.path.deep_view() =~= self.path.deep_view());
        }
        copy
    }
}

/// A definition in an impact report.
#[derive(Debug, PartialEq, Eq)]
pub struct ImpactDefinitionReport {
    pub package_id: String,
    pub package_name: String,
    pub crate_name: String,
    pub target_name: String,
    pub definition_path: String,
    pub definition_kind: String,
    pub expansion_origin: String,
    pub span: Option<CompilerSourceSpanReport>,
    pub attribution_callsite: Option<CompilerSourceSpanReport>,
}

/// The model of [`ImpactDefinitionReport`].
#[verifier::ext_equal]
pub struct ImpactDefinitionReportView {
    pub package_id: Seq<char>,
    pub package_name: Seq<char>,
    pub crate_name: Seq<char>,
    pub target_name: Seq<char>,
    pub definition_path: Seq<char>,
    pub definition_kind: Seq<char>,
    pub expansion_origin: Seq<char>,
    pub span: Option<CompilerSourceSpanReportView>,
    pub attribution_callsite: Option<CompilerSourceSpanReportView>,
}

impl DeepView for ImpactDefinitionReport {
    type V = ImpactDefinitionReportView;

    open spec fn deep_view(&self) -> ImpactDefinitionReportView {
        ImpactDefinitionReportView {
            package_id: self.package_id.deep_view(),
            package_name: self.package_name.deep_view(),
            crate_name: self.crate_name.deep_view(),
            target_name: self.target_name.deep_view(),
            definition_path: self.definition_path.deep_view(),
            definition_kind: self.definition_kind.deep_view(),
            expansion_origin: self.expansion_origin.deep_view(),
            span: self.span.deep_view(),
            attribution_callsite: self.attribution_callsite.deep_view(),
        }
    }
}

impl Clone for ImpactDefinitionReport {
    fn clone(&self) -> (copy: Self)
        ensures
            copy.deep_view() == self.deep_view(),
    {
        let copy = ImpactDefinitionReport {
            package_id: self.package_id.clone(),
            package_name: self.package_name.clone(),
            crate_name: self.crate_name.clone(),
            target_name: self.target_name.clone(),
            definition_path: self.definition_path.clone(),
            definition_kind: self.definition_kind.clone(),
            expansion_origin: self.expansion_origin.clone(),
            span: self.span.clone(),
            attribution_callsite: self.attribution_callsite.clone(),
        };
        proof {
            assert(copy.span.deep_view() =~= self.span.deep_view());
            assert(copy.attribution_callsite.deep_view() =~= self.attribution_callsite.deep_view());
        }
        copy
    }
}

/// Ordered field by field.
impl Ordered for ImpactDefinitionReport {
    open spec fn precedes(a: ImpactDefinitionReportView, b: ImpactDefinitionReportView) -> bool {
        <(String, (String, (String, (String, (String, (String, (String, (Option<CompilerSourceSpanReport>, Option<CompilerSourceSpanReport>)))))))) as Ordered>::precedes(
            (a.package_id, (a.package_name, (a.crate_name, (a.target_name, (a.definition_path, (a.definition_kind, (a.expansion_origin, (a.span, a.attribution_callsite)))))))),
            (b.package_id, (b.package_name, (b.crate_name, (b.target_name, (b.definition_path, (b.definition_kind, (b.expansion_origin, (b.span, b.attribution_callsite)))))))),
        )
    }

    proof fn irreflexive(a: ImpactDefinitionReportView) {
        <(String, (String, (String, (String, (String, (String, (String, (Option<CompilerSourceSpanReport>, Option<CompilerSourceSpanReport>)))))))) as Ordered>::irreflexive((a.package_id, (a.package_name, (a.crate_name, (a.target_name, (a.definition_path, (a.definition_kind, (a.expansion_origin, (a.span, a.attribution_callsite)))))))));
    }

    proof fn transitive(a: ImpactDefinitionReportView, b: ImpactDefinitionReportView, c: ImpactDefinitionReportView) {
        <(String, (String, (String, (String, (String, (String, (String, (Option<CompilerSourceSpanReport>, Option<CompilerSourceSpanReport>)))))))) as Ordered>::transitive(
            (a.package_id, (a.package_name, (a.crate_name, (a.target_name, (a.definition_path, (a.definition_kind, (a.expansion_origin, (a.span, a.attribution_callsite)))))))),
            (b.package_id, (b.package_name, (b.crate_name, (b.target_name, (b.definition_path, (b.definition_kind, (b.expansion_origin, (b.span, b.attribution_callsite)))))))),
            (c.package_id, (c.package_name, (c.crate_name, (c.target_name, (c.definition_path, (c.definition_kind, (c.expansion_origin, (c.span, c.attribution_callsite)))))))),
        );
    }

    proof fn total(a: ImpactDefinitionReportView, b: ImpactDefinitionReportView) {
        <(String, (String, (String, (String, (String, (String, (String, (Option<CompilerSourceSpanReport>, Option<CompilerSourceSpanReport>)))))))) as Ordered>::total((a.package_id, (a.package_name, (a.crate_name, (a.target_name, (a.definition_path, (a.definition_kind, (a.expansion_origin, (a.span, a.attribution_callsite)))))))), (b.package_id, (b.package_name, (b.crate_name, (b.target_name, (b.definition_path, (b.definition_kind, (b.expansion_origin, (b.span, b.attribution_callsite)))))))));
    }

    fn rank(&self, other: &Self) -> (rank: Rank) {
        match self.package_id.rank(&other.package_id) {
            Rank::Equal => {
                match self.package_name.rank(&other.package_name) {
                    Rank::Equal => {
                        match self.crate_name.rank(&other.crate_name) {
                            Rank::Equal => {
                                match self.target_name.rank(&other.target_name) {
                                    Rank::Equal => {
                                        match self.definition_path.rank(&other.definition_path) {
                                            Rank::Equal => {
                                                match self.definition_kind.rank(&other.definition_kind) {
                                                    Rank::Equal => {
                                                        match self.expansion_origin.rank(&other.expansion_origin) {
                                                            Rank::Equal => {
                                                                match self.span.rank(&other.span) {
                                                                    Rank::Equal => {
                                                                        self.attribution_callsite.rank(&other.attribution_callsite)
                                                                    },
                                                                    decided => decided,
                                                                }
                                                            },
                                                            decided => decided,
                                                        }
                                                    },
                                                    decided => decided,
                                                }
                                            },
                                            decided => decided,
                                        }
                                    },
                                    decided => decided,
                                }
                            },
                            decided => decided,
                        }
                    },
                    decided => decided,
                }
            },
            decided => decided,
        }
    }
}

/// The kind of code that uses a definition.
#[derive(Clone, Copy, Debug, PartialEq, Eq, Structural)]
pub enum ImpactProvenanceClass {
    Production,
    Nonproduction,
    BuildTime,
    PublicInterface,
}

impl DeepView for ImpactProvenanceClass {
    type V = ImpactProvenanceClass;

    open spec fn deep_view(&self) -> ImpactProvenanceClass {
        *self
    }
}

impl ImpactProvenanceClass {
    /// The place of the variant in the declaration.
    pub open spec fn place(self) -> u8 {
        match self {
            ImpactProvenanceClass::Production => 0,
            ImpactProvenanceClass::Nonproduction => 1,
            ImpactProvenanceClass::BuildTime => 2,
            ImpactProvenanceClass::PublicInterface => 3,
        }
    }

    fn declared_at(self) -> (place: u8)
        ensures
            place == self.place(),
    {
        match self {
            ImpactProvenanceClass::Production => 0,
            ImpactProvenanceClass::Nonproduction => 1,
            ImpactProvenanceClass::BuildTime => 2,
            ImpactProvenanceClass::PublicInterface => 3,
        }
    }
}

/// Ordered as declared.
impl Ordered for ImpactProvenanceClass {
    open spec fn precedes(a: ImpactProvenanceClass, b: ImpactProvenanceClass) -> bool {
        a.place() < b.place()
    }

    proof fn irreflexive(a: ImpactProvenanceClass) {
    }

    proof fn transitive(a: ImpactProvenanceClass, b: ImpactProvenanceClass, c: ImpactProvenanceClass) {
    }

    proof fn total(a: ImpactProvenanceClass, b: ImpactProvenanceClass) {
    }

    fn rank(&self, other: &Self) -> (rank: Rank) {
        let left: u8 = self.declared_at();
        let right: u8 = other.declared_at();
        if left < right {
            Rank::Less
        } else if left == right {
            Rank::Equal
        } else {
            Rank::Greater
        }
    }
}

/// The target whose code uses a definition.
#[derive(Debug, PartialEq, Eq)]
pub struct ImpactProvenanceReport {
    pub class: ImpactProvenanceClass,
    pub package_id: String,
    pub target_name: String,
    pub target_role: String,
    pub compilation_context: String,
}

/// The model of [`ImpactProvenanceReport`].
#[verifier::ext_equal]
pub struct ImpactProvenanceReportView {
    pub class: ImpactProvenanceClass,
    pub package_id: Seq<char>,
    pub target_name: Seq<char>,
    pub target_role: Seq<char>,
    pub compilation_context: Seq<char>,
}

impl DeepView for ImpactProvenanceReport {
    type V = ImpactProvenanceReportView;

    open spec fn deep_view(&self) -> ImpactProvenanceReportView {
        ImpactProvenanceReportView {
            class: self.class,
            package_id: self.package_id.deep_view(),
            target_name: self.target_name.deep_view(),
            target_role: self.target_role.deep_view(),
            compilation_context: self.compilation_context.deep_view(),
        }
    }
}

impl Clone for ImpactProvenanceReport {
    fn clone(&self) -> (copy: Self)
        ensures
            copy.deep_view() == self.deep_view(),
    {
        let copy = ImpactProvenanceReport {
            class: self.class,
            package_id: self.package_id.clone(),
            target_name: self.target_name.clone(),
            target_role: self.target_role.clone(),
            compilation_context: self.compilation_context.clone(),
        };
        copy
    }
}

/// Ordered field by field.
impl Ordered for ImpactProvenanceReport {
    open spec fn precedes(a: ImpactProvenanceReportView, b: ImpactProvenanceReportView) -> bool {
        <(ImpactProvenanceClass, (String, (String, (String, String)))) as Ordered>::precedes(
            (a.class, (a.package_id, (a.target_name, (a.target_role, a.compilation_context)))),
            (b.class, (b.package_id, (b.target_name, (b.target_role, b.compilation_context)))),
        )
    }

    proof fn irreflexive(a: ImpactProvenanceReportView) {
        <(ImpactProvenanceClass, (String, (String, (String, String)))) as Ordered>::irreflexive((a.class, (a.package_id, (a.target_name, (a.target_role, a.compilation_context)))));
    }

    proof fn transitive(a: ImpactProvenanceReportView, b: ImpactProvenanceReportView, c: ImpactProvenanceReportView) {
        <(ImpactProvenanceClass, (String, (String, (String, String)))) as Ordered>::transitive(
            (a.class, (a.package_id, (a.target_name, (a.target_role, a.compilation_context)))),
            (b.class, (b.package_id, (b.target_name, (b.target_role, b.compilation_context)))),
            (c.class, (c.package_id, (c.target_name, (c.target_role, c.compilation_context)))),
        );
    }

    proof fn total(a: ImpactProvenanceReportView, b: ImpactProvenanceReportView) {
        <(ImpactProvenanceClass, (String, (String, (String, String)))) as Ordered>::total((a.class, (a.package_id, (a.target_name, (a.target_role, a.compilation_context)))), (b.class, (b.package_id, (b.target_name, (b.target_role, b.compilation_context)))));
    }

    fn rank(&self, other: &Self) -> (rank: Rank) {
        match self.class.rank(&other.class) {
            Rank::Equal => {
                match self.package_id.rank(&other.package_id) {
                    Rank::Equal => {
                        match self.target_name.rank(&other.target_name) {
                            Rank::Equal => {
                                match self.target_role.rank(&other.target_role) {
                                    Rank::Equal => {
                                        self.compilation_context.rank(&other.compilation_context)
                                    },
                                    decided => decided,
                                }
                            },
                            decided => decided,
                        }
                    },
                    decided => decided,
                }
            },
            decided => decided,
        }
    }
}

/// Whether a definition has to be public.
#[derive(Clone, Copy, Debug, PartialEq, Eq, Structural)]
pub enum ImpactVisibilityDisposition {
    RequiredPublic,
    NarrowablePublic,
    DeadPublic,
    NotPublicCandidate,
}

impl DeepView for ImpactVisibilityDisposition {
    type V = ImpactVisibilityDisposition;

    open spec fn deep_view(&self) -> ImpactVisibilityDisposition {
        *self
    }
}

/// A direct use of the selected definition.
#[derive(Debug, PartialEq, Eq)]
pub struct ImpactReferenceReport {
    pub consumer: ImpactDefinitionReport,
    pub dependency: ImpactDefinitionReport,
    pub reference_kind: String,
    pub representative_span: Option<CompilerSourceSpanReport>,
    pub provenance: ImpactProvenanceReport,
}

/// The model of [`ImpactReferenceReport`].
#[verifier::ext_equal]
pub struct ImpactReferenceReportView {
    pub consumer: ImpactDefinitionReportView,
    pub dependency: ImpactDefinitionReportView,
    pub reference_kind: Seq<char>,
    pub representative_span: Option<CompilerSourceSpanReportView>,
    pub provenance: ImpactProvenanceReportView,
}

impl DeepView for ImpactReferenceReport {
    type V = ImpactReferenceReportView;

    open spec fn deep_view(&self) -> ImpactReferenceReportView {
        ImpactReferenceReportView {
            consumer: self.consumer.deep_view(),
            dependency: self.dependency.deep_view(),
            reference_kind: self.reference_kind.deep_view(),
            representative_span: self.representative_span.deep_view(),
            provenance: self.provenance.deep_view(),
        }
    }
}

impl Clone for ImpactReferenceReport {
    fn clone(&self) -> (copy: Self)
        ensures
            copy.deep_view() == self.deep_view(),
    {
        let copy = ImpactReferenceReport {
            consumer: self.consumer.clone(),
            dependency: self.dependency.clone(),
            reference_kind: self.reference_kind.clone(),
            representative_span: self.representative_span.clone(),
            provenance: self.provenance.clone(),
        };
        proof {
            assert(copy.consumer.deep_view() =~= self.consumer.deep_view());
            assert(copy.dependency.deep_view() =~= self.dependency.deep_view());
            assert(copy.representative_span.deep_view() =~= self.representative_span.deep_view());
            assert(copy.provenance.deep_view() =~= self.provenance.deep_view());
        }
        copy
    }
}

/// Ordered field by field.
impl Ordered for ImpactReferenceReport {
    open spec fn precedes(a: ImpactReferenceReportView, b: ImpactReferenceReportView) -> bool {
        <(ImpactDefinitionReport, (ImpactDefinitionReport, (String, (Option<CompilerSourceSpanReport>, ImpactProvenanceReport)))) as Ordered>::precedes(
            (a.consumer, (a.dependency, (a.reference_kind, (a.representative_span, a.provenance)))),
            (b.consumer, (b.dependency, (b.reference_kind, (b.representative_span, b.provenance)))),
        )
    }

    proof fn irreflexive(a: ImpactReferenceReportView) {
        <(ImpactDefinitionReport, (ImpactDefinitionReport, (String, (Option<CompilerSourceSpanReport>, ImpactProvenanceReport)))) as Ordered>::irreflexive((a.consumer, (a.dependency, (a.reference_kind, (a.representative_span, a.provenance)))));
    }

    proof fn transitive(a: ImpactReferenceReportView, b: ImpactReferenceReportView, c: ImpactReferenceReportView) {
        <(ImpactDefinitionReport, (ImpactDefinitionReport, (String, (Option<CompilerSourceSpanReport>, ImpactProvenanceReport)))) as Ordered>::transitive(
            (a.consumer, (a.dependency, (a.reference_kind, (a.representative_span, a.provenance)))),
            (b.consumer, (b.dependency, (b.reference_kind, (b.representative_span, b.provenance)))),
            (c.consumer, (c.dependency, (c.reference_kind, (c.representative_span, c.provenance)))),
        );
    }

    proof fn total(a: ImpactReferenceReportView, b: ImpactReferenceReportView) {
        <(ImpactDefinitionReport, (ImpactDefinitionReport, (String, (Option<CompilerSourceSpanReport>, ImpactProvenanceReport)))) as Ordered>::total((a.consumer, (a.dependency, (a.reference_kind, (a.representative_span, a.provenance)))), (b.consumer, (b.dependency, (b.reference_kind, (b.representative_span, b.provenance)))));
    }

    fn rank(&self, other: &Self) -> (rank: Rank) {
        match self.consumer.rank(&other.consumer) {
            Rank::Equal => {
                match self.dependency.rank(&other.dependency) {
                    Rank::Equal => {
                        match self.reference_kind.rank(&other.reference_kind) {
                            Rank::Equal => {
                                match self.representative_span.rank(&other.representative_span) {
                                    Rank::Equal => {
                                        self.provenance.rank(&other.provenance)
                                    },
                                    decided => decided,
                                }
                            },
                            decided => decided,
                        }
                    },
                    decided => decided,
                }
            },
            decided => decided,
        }
    }
}

/// One step of a chain of uses.
#[derive(Debug, PartialEq, Eq)]
pub struct ImpactReferenceStepReport {
    pub from: ImpactDefinitionReport,
    pub to: ImpactDefinitionReport,
    pub reference_kind: String,
    pub representative_span: Option<CompilerSourceSpanReport>,
}

/// The model of [`ImpactReferenceStepReport`].
#[verifier::ext_equal]
pub struct ImpactReferenceStepReportView {
    pub from: ImpactDefinitionReportView,
    pub to: ImpactDefinitionReportView,
    pub reference_kind: Seq<char>,
    pub representative_span: Option<CompilerSourceSpanReportView>,
}

impl DeepView for ImpactReferenceStepReport {
    type V = ImpactReferenceStepReportView;

    open spec fn deep_view(&self) -> ImpactReferenceStepReportView {
        ImpactReferenceStepReportView {
            from: self.from.deep_view(),
            to: self.to.deep_view(),
            reference_kind: self.reference_kind.deep_view(),
            representative_span: self.representative_span.deep_view(),
        }
    }
}

impl Clone for ImpactReferenceStepReport {
    fn clone(&self) -> (copy: Self)
        ensures
            copy.deep_view() == self.deep_view(),
    {
        let copy = ImpactReferenceStepReport {
            from: self.from.clone(),
            to: self.to.clone(),
            reference_kind: self.reference_kind.clone(),
            representative_span: self.representative_span.clone(),
        };
        proof {
            assert(copy.from.deep_view() =~= self.from.deep_view());
            assert(copy.to.deep_view() =~= self.to.deep_view());
            assert(copy.representative_span.deep_view() =~= self.representative_span.deep_view());
        }
        copy
    }
}

/// A chain of uses from a root to the selected definition.
#[derive(Debug, PartialEq, Eq)]
pub struct ImpactWitnessReport {
    pub provenance: ImpactProvenanceReport,
    pub root: ImpactDefinitionReport,
    pub root_reason: String,
    pub steps: Vec<ImpactReferenceStepReport>,
}

/// The model of [`ImpactWitnessReport`].
#[verifier::ext_equal]
pub struct ImpactWitnessReportView {
    pub provenance: ImpactProvenanceReportView,
    pub root: ImpactDefinitionReportView,
    pub root_reason: Seq<char>,
    pub steps: Seq<ImpactReferenceStepReportView>,
}

impl DeepView for ImpactWitnessReport {
    type V = ImpactWitnessReportView;

    open spec fn deep_view(&self) -> ImpactWitnessReportView {
        ImpactWitnessReportView {
            provenance: self.provenance.deep_view(),
            root: self.root.deep_view(),
            root_reason: self.root_reason.deep_view(),
            steps: self.steps.deep_view(),
        }
    }
}

impl Clone for ImpactWitnessReport {
    fn clone(&self) -> (copy: Self)
        ensures
            copy.deep_view() == self.deep_view(),
    {
        let copy = ImpactWitnessReport {
            provenance: self.provenance.clone(),
            root: self.root.clone(),
            root_reason: self.root_reason.clone(),
            steps: self.steps.clone(),
        };
        proof {
            assert(copy.provenance.deep_view() =~= self.provenance.deep_view());
            assert(copy.root.deep_view() =~= self.root.deep_view());
            assert(copy.steps.deep_view() =~= self.steps.deep_view());
        }
        copy
    }
}

/// The extent of the impact of a definition.
#[derive(Clone, Copy, Debug, PartialEq, Eq, Structural)]
pub struct ImpactSummaryReport {
    pub direct_reference_relationships: u64,
    pub transitive_consumers: u64,
    pub production: bool,
    pub nonproduction: bool,
    pub build_time: bool,
    pub public_interface: bool,
}

impl DeepView for ImpactSummaryReport {
    type V = ImpactSummaryReport;

    open spec fn deep_view(&self) -> ImpactSummaryReport {
        *self
    }
}

/// Who uses a definition, and whether it has to be public.
#[derive(Debug, PartialEq, Eq)]
pub struct ImpactReport {
    pub status: SemanticStatus,
    pub reason: Option<String>,
    pub scope: String,
    pub evidence_exclusions: Vec<String>,
    pub query: ImpactQueryReport,
    pub candidates: Vec<ImpactDefinitionReport>,
    pub selected: Option<ImpactDefinitionReport>,
    pub visibility_disposition: Option<ImpactVisibilityDisposition>,
    pub summary: Option<ImpactSummaryReport>,
    pub direct_references: Vec<ImpactReferenceReport>,
    pub witnesses: Vec<ImpactWitnessReport>,
    pub reference_site_note: String,
}

/// The model of [`ImpactReport`].
#[verifier::ext_equal]
pub struct ImpactReportView {
    pub status: SemanticStatus,
    pub reason: Option<Seq<char>>,
    pub scope: Seq<char>,
    pub evidence_exclusions: Seq<Seq<char>>,
    pub query: ImpactQueryReportView,
    pub candidates: Seq<ImpactDefinitionReportView>,
    pub selected: Option<ImpactDefinitionReportView>,
    pub visibility_disposition: Option<ImpactVisibilityDisposition>,
    pub summary: Option<ImpactSummaryReport>,
    pub direct_references: Seq<ImpactReferenceReportView>,
    pub witnesses: Seq<ImpactWitnessReportView>,
    pub reference_site_note: Seq<char>,
}

impl DeepView for ImpactReport {
    type V = ImpactReportView;

    open spec fn deep_view(&self) -> ImpactReportView {
        ImpactReportView {
            status: self.status,
            reason: self.reason.deep_view(),
            scope: self.scope.deep_view(),
            evidence_exclusions: self.evidence_exclusions.deep_view(),
            query: self.query.deep_view(),
            candidates: self.candidates.deep_view(),
            selected: self.selected.deep_view(),
            visibility_disposition: self.visibility_disposition,
            summary: self.summary,
            direct_references: self.direct_references.deep_view(),
            witnesses: self.witnesses.deep_view(),
            reference_site_note: self.reference_site_note.deep_view(),
        }
    }
}

impl Clone for ImpactReport {
    fn clone(&self) -> (copy: Self)
        ensures
            copy.deep_view() == self.deep_view(),
    {
        let copy = ImpactReport {
            status: self.status,
            reason: self.reason.clone(),
            scope: self.scope.clone(),
            evidence_exclusions: self.evidence_exclusions.clone(),
            query: self.query.clone(),
            candidates: self.candidates.clone(),
            selected: self.selected.clone(),
            visibility_disposition: self.visibility_disposition,
            summary: self.summary,
            direct_references: self.direct_references.clone(),
            witnesses: self.witnesses.clone(),
            reference_site_note: self.reference_site_note.clone(),
        };
        proof {
            assert(copy.reason.deep_view() =~= self.reason.deep_view());
            assert(copy.evidence_exclusions.deep_view() =~= self.evidence_exclusions.deep_view());
            assert(copy.query.deep_view() =~= self.query.deep_view());
            assert(copy.candidates.deep_view() =~= self.candidates.deep_view());
            assert(copy.selected.deep_view() =~= self.selected.deep_view());
            assert(copy.direct_references.deep_view() =~= self.direct_references.deep_view());
            assert(copy.witnesses.deep_view() =~= self.witnesses.deep_view());
        }
        copy
    }
}

/// One compiler invocation of a run.
#[derive(Debug, PartialEq, Eq)]
pub struct CompilerInvocationReport {
    pub key: String,
    pub target: Option<CompilerTargetReport>,
    pub crate_name: String,
    pub target_triple: String,
    pub compilation_context: String,
    pub test: bool,
    pub features: Vec<String>,
    pub cfg: Vec<String>,
    pub definitions: u64,
    pub public_bindings: u64,
    pub roots: u64,
    pub references: u64,
    pub status: SemanticStatus,
    pub reason: Option<String>,
}

/// The model of [`CompilerInvocationReport`].
#[verifier::ext_equal]
pub struct CompilerInvocationReportView {
    pub key: Seq<char>,
    pub target: Option<CompilerTargetReportView>,
    pub crate_name: Seq<char>,
    pub target_triple: Seq<char>,
    pub compilation_context: Seq<char>,
    pub test: bool,
    pub features: Seq<Seq<char>>,
    pub cfg: Seq<Seq<char>>,
    pub definitions: u64,
    pub public_bindings: u64,
    pub roots: u64,
    pub references: u64,
    pub status: SemanticStatus,
    pub reason: Option<Seq<char>>,
}

impl DeepView for CompilerInvocationReport {
    type V = CompilerInvocationReportView;

    open spec fn deep_view(&self) -> CompilerInvocationReportView {
        CompilerInvocationReportView {
            key: self.key.deep_view(),
            target: self.target.deep_view(),
            crate_name: self.crate_name.deep_view(),
            target_triple: self.target_triple.deep_view(),
            compilation_context: self.compilation_context.deep_view(),
            test: self.test,
            features: self.features.deep_view(),
            cfg: self.cfg.deep_view(),
            definitions: self.definitions,
            public_bindings: self.public_bindings,
            roots: self.roots,
            references: self.references,
            status: self.status,
            reason: self.reason.deep_view(),
        }
    }
}

impl Clone for CompilerInvocationReport {
    fn clone(&self) -> (copy: Self)
        ensures
            copy.deep_view() == self.deep_view(),
    {
        let copy = CompilerInvocationReport {
            key: self.key.clone(),
            target: self.target.clone(),
            crate_name: self.crate_name.clone(),
            target_triple: self.target_triple.clone(),
            compilation_context: self.compilation_context.clone(),
            test: self.test,
            features: self.features.clone(),
            cfg: self.cfg.clone(),
            definitions: self.definitions,
            public_bindings: self.public_bindings,
            roots: self.roots,
            references: self.references,
            status: self.status,
            reason: self.reason.clone(),
        };
        proof {
            assert(copy.target.deep_view() =~= self.target.deep_view());
            assert(copy.features.deep_view() =~= self.features.deep_view());
            assert(copy.cfg.deep_view() =~= self.cfg.deep_view());
            assert(copy.reason.deep_view() =~= self.reason.deep_view());
        }
        copy
    }
}

/// A path that was selected for analysis.
#[derive(Debug, PartialEq, Eq)]
pub struct SelectedPathReport {
    pub path: String,
    pub kind: SelectedPathKind,
}

/// The model of [`SelectedPathReport`].
#[verifier::ext_equal]
pub struct SelectedPathReportView {
    pub path: Seq<char>,
    pub kind: SelectedPathKind,
}

impl DeepView for SelectedPathReport {
    type V = SelectedPathReportView;

    open spec fn deep_view(&self) -> SelectedPathReportView {
        SelectedPathReportView {
            path: self.path.deep_view(),
            kind: self.kind,
        }
    }
}

impl Clone for SelectedPathReport {
    fn clone(&self) -> (copy: Self)
        ensures
            copy.deep_view() == self.deep_view(),
    {
        let copy = SelectedPathReport {
            path: self.path.clone(),
            kind: self.kind,
        };
        copy
    }
}

/// Ordered field by field.
impl Ordered for SelectedPathReport {
    open spec fn precedes(a: SelectedPathReportView, b: SelectedPathReportView) -> bool {
        <(String, SelectedPathKind) as Ordered>::precedes(
            (a.path, a.kind),
            (b.path, b.kind),
        )
    }

    proof fn irreflexive(a: SelectedPathReportView) {
        <(String, SelectedPathKind) as Ordered>::irreflexive((a.path, a.kind));
    }

    proof fn transitive(a: SelectedPathReportView, b: SelectedPathReportView, c: SelectedPathReportView) {
        <(String, SelectedPathKind) as Ordered>::transitive(
            (a.path, a.kind),
            (b.path, b.kind),
            (c.path, c.kind),
        );
    }

    proof fn total(a: SelectedPathReportView, b: SelectedPathReportView) {
        <(String, SelectedPathKind) as Ordered>::total((a.path, a.kind), (b.path, b.kind));
    }

    fn rank(&self, other: &Self) -> (rank: Rank) {
        match self.path.rank(&other.path) {
            Rank::Equal => {
                self.kind.rank(&other.kind)
            },
            decided => decided,
        }
    }
}

/// What was selected for analysis.
#[derive(Debug, PartialEq, Eq)]
pub struct SelectionReport {
    pub paths: Vec<SelectedPathReport>,
    pub include_hidden: bool,
    pub respect_ignores: bool,
    pub ignore_boundary: String,
}

/// The model of [`SelectionReport`].
#[verifier::ext_equal]
pub struct SelectionReportView {
    pub paths: Seq<SelectedPathReportView>,
    pub include_hidden: bool,
    pub respect_ignores: bool,
    pub ignore_boundary: Seq<char>,
}

impl DeepView for SelectionReport {
    type V = SelectionReportView;

    open spec fn deep_view(&self) -> SelectionReportView {
        SelectionReportView {
            paths: self.paths.deep_view(),
            include_hidden: self.include_hidden,
            respect_ignores: self.respect_ignores,
            ignore_boundary: self.ignore_boundary.deep_view(),
        }
    }
}

impl Clone for SelectionReport {
    fn clone(&self) -> (copy: Self)
        ensures
            copy.deep_view() == self.deep_view(),
    {
        let copy = SelectionReport {
            paths: self.paths.clone(),
            include_hidden: self.include_hidden,
            respect_ignores: self.respect_ignores,
            ignore_boundary: self.ignore_boundary.clone(),
        };
        proof {
            assert(copy.paths.deep_view() =~= self.paths.deep_view());
        }
        copy
    }
}

impl SelectionReport {
    /// Reports a selection; its paths come sorted, each once.
    pub fn new(
        paths: Vec<SelectedPathReport>,
        include_hidden: bool,
        respect_ignores: bool,
    ) -> (report: Self)
        ensures
            report.paths.deep_view() == ascending::<SelectedPathReport>(
                paths.deep_view().to_set(),
            ),
            report.include_hidden == include_hidden,
            report.respect_ignores == respect_ignores,
            report.ignore_boundary@ == "path"@,
    {
        SelectionReport {
            paths: crate::collections::sorted_unique(paths),
            include_hidden,
            respect_ignores,
            ignore_boundary: "path".to_owned(),
        }
    }
}

/// All counts of a run.
#[derive(Debug, PartialEq, Eq)]
pub struct Report {
    pub root: String,
    pub selection: SelectionReport,
    pub profile: ProfileReport,
    pub file_count: u64,
    pub bytes: u64,
    pub files: Vec<FileReport>,
    pub buckets: Vec<BucketReport>,
    pub total: LineCounts,
    pub metrics: ComplexityMetrics,
    pub diagnostics: Vec<Diagnostic>,
}

/// The model of [`Report`].
#[verifier::ext_equal]
pub struct ReportView {
    pub root: Seq<char>,
    pub selection: SelectionReportView,
    pub profile: ProfileReportView,
    pub file_count: u64,
    pub bytes: u64,
    pub files: Seq<FileReportView>,
    pub buckets: Seq<BucketReport>,
    pub total: LineCounts,
    pub metrics: ComplexityMetrics,
    pub diagnostics: Seq<DiagnosticView>,
}

impl DeepView for Report {
    type V = ReportView;

    open spec fn deep_view(&self) -> ReportView {
        ReportView {
            root: self.root.deep_view(),
            selection: self.selection.deep_view(),
            profile: self.profile.deep_view(),
            file_count: self.file_count,
            bytes: self.bytes,
            files: self.files.deep_view(),
            buckets: self.buckets.deep_view(),
            total: self.total,
            metrics: self.metrics,
            diagnostics: self.diagnostics.deep_view(),
        }
    }
}

/// All that one compiler run shows.
#[derive(Debug, PartialEq, Eq)]
pub struct CompilerReport {
    pub protocol_version: u32,
    pub driver_version: String,
    pub rustc_version: String,
    pub rustc_commit: String,
    pub rustc_commit_date: String,
    pub rustc_host: String,
    pub expected_invocations: u64,
    pub collected_invocations: u64,
    pub correlated_invocations: u64,
    pub invocations: Vec<CompilerInvocationReport>,
    pub status: SemanticStatus,
    pub reason: Option<String>,
    pub required_visibility: Option<RequiredVisibilityReport>,
    pub closed_world: Option<ClosedWorldReport>,
    pub api_surface: Option<ApiSurfaceReport>,
    pub impact: Option<ImpactReport>,
}

/// The model of [`CompilerReport`].
#[verifier::ext_equal]
pub struct CompilerReportView {
    pub protocol_version: u32,
    pub driver_version: Seq<char>,
    pub rustc_version: Seq<char>,
    pub rustc_commit: Seq<char>,
    pub rustc_commit_date: Seq<char>,
    pub rustc_host: Seq<char>,
    pub expected_invocations: u64,
    pub collected_invocations: u64,
    pub correlated_invocations: u64,
    pub invocations: Seq<CompilerInvocationReportView>,
    pub status: SemanticStatus,
    pub reason: Option<Seq<char>>,
    pub required_visibility: Option<RequiredVisibilityReportView>,
    pub closed_world: Option<ClosedWorldReportView>,
    pub api_surface: Option<ApiSurfaceReportView>,
    pub impact: Option<ImpactReportView>,
}

impl DeepView for CompilerReport {
    type V = CompilerReportView;

    open spec fn deep_view(&self) -> CompilerReportView {
        CompilerReportView {
            protocol_version: self.protocol_version,
            driver_version: self.driver_version.deep_view(),
            rustc_version: self.rustc_version.deep_view(),
            rustc_commit: self.rustc_commit.deep_view(),
            rustc_commit_date: self.rustc_commit_date.deep_view(),
            rustc_host: self.rustc_host.deep_view(),
            expected_invocations: self.expected_invocations,
            collected_invocations: self.collected_invocations,
            correlated_invocations: self.correlated_invocations,
            invocations: self.invocations.deep_view(),
            status: self.status,
            reason: self.reason.deep_view(),
            required_visibility: self.required_visibility.deep_view(),
            closed_world: self.closed_world.deep_view(),
            api_surface: self.api_surface.deep_view(),
            impact: self.impact.deep_view(),
        }
    }
}

impl Clone for CompilerReport {
    fn clone(&self) -> (copy: Self)
        ensures
            copy.deep_view() == self.deep_view(),
    {
        let copy = CompilerReport {
            protocol_version: self.protocol_version,
            driver_version: self.driver_version.clone(),
            rustc_version: self.rustc_version.clone(),
            rustc_commit: self.rustc_commit.clone(),
            rustc_commit_date: self.rustc_commit_date.clone(),
            rustc_host: self.rustc_host.clone(),
            expected_invocations: self.expected_invocations,
            collected_invocations: self.collected_invocations,
            correlated_invocations: self.correlated_invocations,
            invocations: self.invocations.clone(),
            status: self.status,
            reason: self.reason.clone(),
            required_visibility: self.required_visibility.clone(),
            closed_world: self.closed_world.clone(),
            api_surface: self.api_surface.clone(),
            impact: self.impact.clone(),
        };
        proof {
            assert(copy.invocations.deep_view() =~= self.invocations.deep_view());
            assert(copy.reason.deep_view() =~= self.reason.deep_view());
            assert(copy.required_visibility.deep_view() =~= self.required_visibility.deep_view());
            assert(copy.closed_world.deep_view() =~= self.closed_world.deep_view());
            assert(copy.api_surface.deep_view() =~= self.api_surface.deep_view());
            assert(copy.impact.deep_view() =~= self.impact.deep_view());
        }
        copy
    }
}

} // verus!
