//! Total orders on the mathematical models of the library's values.

use vstd::prelude::*;
use vstd::std_specs::iter::IteratorSpec;

verus! {

/// The outcome of comparing two values.
#[derive(Clone, Copy, Debug, PartialEq, Eq, Structural)]
pub enum Rank {
    Less,
    Equal,
    Greater,
}

/// A type whose models are strictly and totally ordered.
pub trait Ordered: DeepView + Sized {
    /// Whether the model `a` comes strictly before the model `b`.
    spec fn precedes(a: <Self as DeepView>::V, b: <Self as DeepView>::V) -> bool;

    /// No model precedes itself.
    proof fn irreflexive(a: <Self as DeepView>::V)
        ensures
            !Self::precedes(a, a),
    ;

    /// Precedence is transitive.
    proof fn transitive(a: <Self as DeepView>::V, b: <Self as DeepView>::V, c: <Self as DeepView>::V)
        requires
            Self::precedes(a, b),
            Self::precedes(b, c),
        ensures
            Self::precedes(a, c),
    ;

    /// Two different models are always comparable.
    proof fn total(a: <Self as DeepView>::V, b: <Self as DeepView>::V)
        ensures
            Self::precedes(a, b) || a == b || Self::precedes(b, a),
    ;

    /// Compares two values by their models.
    fn rank(&self, other: &Self) -> (rank: Rank)
        ensures
            match rank {
                Rank::Less => Self::precedes(self.deep_view(), other.deep_view()),
                Rank::Equal => self.deep_view() == other.deep_view(),
                Rank::Greater => Self::precedes(other.deep_view(), self.deep_view()),
            },
    ;
}

impl Ordered for u32 {
    open spec fn precedes(a: u32, b: u32) -> bool {
        a < b
    }

    proof fn irreflexive(a: u32) {
    }

    proof fn transitive(a: u32, b: u32, c: u32) {
    }

    proof fn total(a: u32, b: u32) {
    }

    fn rank(&self, other: &Self) -> (rank: Rank) {
        if *self < *other {
            Rank::Less
        } else if *self == *other {
            Rank::Equal
        } else {
            Rank::Greater
        }
    }
}

impl Ordered for u64 {
    open spec fn precedes(a: u64, b: u64) -> bool {
        a < b
    }

    proof fn irreflexive(a: u64) {
    }

    proof fn transitive(a: u64, b: u64, c: u64) {
    }

    proof fn total(a: u64, b: u64) {
    }

    fn rank(&self, other: &Self) -> (rank: Rank) {
        if *self < *other {
            Rank::Less
        } else if *self == *other {
            Rank::Equal
        } else {
            Rank::Greater
        }
    }
}

impl Ordered for u128 {
    open spec fn precedes(a: u128, b: u128) -> bool {
        a < b
    }

    proof fn irreflexive(a: u128) {
    }

    proof fn transitive(a: u128, b: u128, c: u128) {
    }

    proof fn total(a: u128, b: u128) {
    }

    fn rank(&self, other: &Self) -> (rank: Rank) {
        if *self < *other {
            Rank::Less
        } else if *self == *other {
            Rank::Equal
        } else {
            Rank::Greater
        }
    }
}

impl Ordered for usize {
    open spec fn precedes(a: usize, b: usize) -> bool {
        a < b
    }

    proof fn irreflexive(a: usize) {
    }

    proof fn transitive(a: usize, b: usize, c: usize) {
    }

    proof fn total(a: usize, b: usize) {
    }

    fn rank(&self, other: &Self) -> (rank: Rank) {
        if *self < *other {
            Rank::Less
        } else if *self == *other {
            Rank::Equal
        } else {
            Rank::Greater
        }
    }
}

fn rank_char(left: char, right: char) -> (rank: Rank)
    ensures
        match rank {
            Rank::Less => left < right,
            Rank::Equal => left == right,
            Rank::Greater => right < left,
        },
{
    let a: u32 = left as u32;
    let b: u32 = right as u32;
    if a < b {
        Rank::Less
    } else if a == b {
        Rank::Equal
    } else {
        Rank::Greater
    }
}

impl Ordered for char {
    open spec fn precedes(a: char, b: char) -> bool {
        a < b
    }

    proof fn irreflexive(a: char) {
    }

    proof fn transitive(a: char, b: char, c: char) {
    }

    proof fn total(a: char, b: char) {
    }

    fn rank(&self, other: &Self) -> (rank: Rank) {
        rank_char(*self, *other)
    }
}

impl Ordered for bool {
    open spec fn precedes(a: bool, b: bool) -> bool {
        !a && b
    }

    proof fn irreflexive(a: bool) {
    }

    proof fn transitive(a: bool, b: bool, c: bool) {
    }

    proof fn total(a: bool, b: bool) {
    }

    fn rank(&self, other: &Self) -> (rank: Rank) {
        if *self == *other {
            Rank::Equal
        } else if *other {
            Rank::Less
        } else {
            Rank::Greater
        }
    }
}

/// Lexicographic precedence of two sequences of models of `T`: a proper prefix comes first.
pub open spec fn seq_precedes<T: Ordered>(
    a: Seq<<T as DeepView>::V>,
    b: Seq<<T as DeepView>::V>,
) -> bool
    decreases a.len(),
{
    if b.len() == 0 {
        false
    } else if a.len() == 0 {
        true
    } else {
        T::precedes(a[0], b[0]) || (a[0] == b[0] && seq_precedes::<T>(
            a.drop_first(),
            b.drop_first(),
        ))
    }
}

/// Lexicographic precedence is irreflexive.
pub proof fn lemma_seq_irreflexive<T: Ordered>(a: Seq<<T as DeepView>::V>)
    ensures
        !seq_precedes::<T>(a, a),
    decreases a.len(),
{
    if a.len() > 0 {
        T::irreflexive(a[0]);
        lemma_seq_irreflexive::<T>(a.drop_first());
    }
}

/// Lexicographic precedence is transitive.
pub proof fn lemma_seq_transitive<T: Ordered>(
    a: Seq<<T as DeepView>::V>,
    b: Seq<<T as DeepView>::V>,
    c: Seq<<T as DeepView>::V>,
)
    requires
        seq_precedes::<T>(a, b),
        seq_precedes::<T>(b, c),
    ensures
        seq_precedes::<T>(a, c),
    decreases a.len(),
{
    if a.len() > 0 {
        if T::precedes(a[0], b[0]) && T::precedes(b[0], c[0]) {
            T::transitive(a[0], b[0], c[0]);
        } else if a[0] == b[0] && b[0] == c[0] && !T::precedes(a[0], b[0]) && !T::precedes(
            b[0],
            c[0],
        ) {
            lemma_seq_transitive::<T>(a.drop_first(), b.drop_first(), c.drop_first());
        }
    }
}

/// Two different sequences are comparable lexicographically.
pub proof fn lemma_seq_total<T: Ordered>(
    a: Seq<<T as DeepView>::V>,
    b: Seq<<T as DeepView>::V>,
)
    ensures
        seq_precedes::<T>(a, b) || a == b || seq_precedes::<T>(b, a),
    decreases a.len(),
{
    if a.len() == 0 {
        if b.len() == 0 {
            assert(a =~= b);
        }
    } else if b.len() > 0 {
        T::total(a[0], b[0]);
        lemma_seq_total::<T>(a.drop_first(), b.drop_first());
        if a[0] == b[0] && a.drop_first() == b.drop_first() {
            assert(a =~= seq![a[0]] + a.drop_first());
            assert(b =~= seq![b[0]] + b.drop_first());
        }
    }
}

/// Compares two texts by their characters. This is also the order of their UTF-8 bytes.
pub fn rank_text(left: &str, right: &str) -> (rank: Rank)
    ensures
        match rank {
            Rank::Less => seq_precedes::<char>(left@, right@),
            Rank::Equal => left@ == right@,
            Rank::Greater => seq_precedes::<char>(right@, left@),
        },
{
    let mut rest_left = left.chars();
    let mut rest_right = right.chars();
    let ghost mut done: int = 0;
    proof {
        assert(left@.skip(0) =~= left@);
        assert(right@.skip(0) =~= right@);
    }
    loop
        invariant
            0 <= done <= left@.len(),
            done <= right@.len(),
            left@.take(done) == right@.take(done),
            rest_left.remaining() == left@.skip(done),
            rest_right.remaining() == right@.skip(done),
            seq_precedes::<char>(left@, right@) == seq_precedes::<char>(
                left@.skip(done),
                right@.skip(done),
            ),
            seq_precedes::<char>(right@, left@) == seq_precedes::<char>(
                right@.skip(done),
                left@.skip(done),
            ),
        decreases left@.len() - done,
    {
        let next_left = rest_left.next();
        let next_right = rest_right.next();
        match next_left {
            None => {
                proof {
                    assert(left@.take(done) =~= left@);
                }
                match next_right {
                    None => {
                        proof {
                            assert(right@.take(done) =~= right@);
                        }
                        return Rank::Equal;
                    },
                    Some(_) => {
                        return Rank::Less;
                    },
                }
            },
            Some(a) => match next_right {
                None => {
                    return Rank::Greater;
                },
                Some(b) => {
                    proof {
                        assert(a == left@[done]);
                        assert(b == right@[done]);
                        assert(left@.skip(done)[0] == a);
                        assert(right@.skip(done)[0] == b);
                    }
                    match a.rank(&b) {
                        Rank::Less => {
                            return Rank::Less;
                        },
                        Rank::Greater => {
                            return Rank::Greater;
                        },
                        Rank::Equal => {
                            proof {
                                assert(left@.skip(done).drop_first() =~= left@.skip(done + 1));
                                assert(right@.skip(done).drop_first() =~= right@.skip(done + 1));
                                assert(left@.take(done + 1) =~= left@.take(done).push(a));
                                assert(right@.take(done + 1) =~= right@.take(done).push(b));
                                done = done + 1;
                            }
                        },
                    }
                },
            },
        }
    }
}

impl Ordered for String {
    open spec fn precedes(a: Seq<char>, b: Seq<char>) -> bool {
        seq_precedes::<char>(a, b)
    }

    proof fn irreflexive(a: Seq<char>) {
        lemma_seq_irreflexive::<char>(a);
    }

    proof fn transitive(a: Seq<char>, b: Seq<char>, c: Seq<char>) {
        lemma_seq_transitive::<char>(a, b, c);
    }

    proof fn total(a: Seq<char>, b: Seq<char>) {
        lemma_seq_total::<char>(a, b);
    }

    fn rank(&self, other: &Self) -> (rank: Rank) {
        rank_text(self.as_str(), other.as_str())
    }
}

impl<T: Ordered> Ordered for Vec<T> {
    open spec fn precedes(a: Seq<<T as DeepView>::V>, b: Seq<<T as DeepView>::V>) -> bool {
        seq_precedes::<T>(a, b)
    }

    proof fn irreflexive(a: Seq<<T as DeepView>::V>) {
        lemma_seq_irreflexive::<T>(a);
    }

    proof fn transitive(
        a: Seq<<T as DeepView>::V>,
        b: Seq<<T as DeepView>::V>,
        c: Seq<<T as DeepView>::V>,
    ) {
        lemma_seq_transitive::<T>(a, b, c);
    }

    proof fn total(a: Seq<<T as DeepView>::V>, b: Seq<<T as DeepView>::V>) {
        lemma_seq_total::<T>(a, b);
    }

    fn rank(&self, other: &Self) -> (rank: Rank) {
        let ghost left = self.deep_view();
        let ghost right = other.deep_view();
        let mut index: usize = 0;
        proof {
            assert(left.skip(0) =~= left);
            assert(right.skip(0) =~= right);
        }
        while index < self.len() && index < other.len()
            invariant
                left == self.deep_view(),
                right == other.deep_view(),
                index <= left.len(),
                index <= right.len(),
                left.take(index as int) == right.take(index as int),
                seq_precedes::<T>(left, right) == seq_precedes::<T>(
                    left.skip(index as int),
                    right.skip(index as int),
                ),
                seq_precedes::<T>(right, left) == seq_precedes::<T>(
                    right.skip(index as int),
                    left.skip(index as int),
                ),
            decreases self.len() - index,
        {
            proof {
                let done = index as int;
                assert(left.skip(done)[0] == self[done].deep_view());
                assert(right.skip(done)[0] == other[done].deep_view());
                assert(left.skip(done).drop_first() =~= left.skip(done + 1));
                assert(right.skip(done).drop_first() =~= right.skip(done + 1));
                assert(left.take(done + 1) =~= left.take(done).push(left[done]));
                assert(right.take(done + 1) =~= right.take(done).push(right[done]));
                T::irreflexive(left[done]);
            }
            match self[index].rank(&other[index]) {
                Rank::Less => {
                    return Rank::Less;
                },
                Rank::Greater => {
                    return Rank::Greater;
                },
                Rank::Equal => {},
            }
            index = index + 1;
        }
        proof {
            assert(left.take(left.len() as int) =~= left);
            assert(right.take(right.len() as int) =~= right);
        }
        if index < other.len() {
            Rank::Less
        } else if index < self.len() {
            Rank::Greater
        } else {
            Rank::Equal
        }
    }
}

impl<T: Ordered> Ordered for Option<T> {
    open spec fn precedes(a: Option<<T as DeepView>::V>, b: Option<<T as DeepView>::V>) -> bool {
        match (a, b) {
            (None, Some(_)) => true,
            (Some(x), Some(y)) => T::precedes(x, y),
            _ => false,
        }
    }

    proof fn irreflexive(a: Option<<T as DeepView>::V>) {
        if let Some(x) = a {
            T::irreflexive(x);
        }
    }

    proof fn transitive(
        a: Option<<T as DeepView>::V>,
        b: Option<<T as DeepView>::V>,
        c: Option<<T as DeepView>::V>,
    ) {
        if let (Some(x), Some(y), Some(z)) = (a, b, c) {
            T::transitive(x, y, z);
        }
    }

    proof fn total(a: Option<<T as DeepView>::V>, b: Option<<T as DeepView>::V>) {
        if let (Some(x), Some(y)) = (a, b) {
            T::total(x, y);
        }
    }

    fn rank(&self, other: &Self) -> (rank: Rank) {
        match (self, other) {
            (None, None) => Rank::Equal,
            (None, Some(_)) => Rank::Less,
            (Some(_), None) => Rank::Greater,
            (Some(left), Some(right)) => left.rank(right),
        }
    }
}

impl<A: Ordered, B: Ordered> Ordered for (A, B) {
    open spec fn precedes(
        a: (<A as DeepView>::V, <B as DeepView>::V),
        b: (<A as DeepView>::V, <B as DeepView>::V),
    ) -> bool {
        A::precedes(a.0, b.0) || (a.0 == b.0 && B::precedes(a.1, b.1))
    }

    proof fn irreflexive(a: (<A as DeepView>::V, <B as DeepView>::V)) {
        A::irreflexive(a.0);
        B::irreflexive(a.1);
    }

    proof fn transitive(
        a: (<A as DeepView>::V, <B as DeepView>::V),
        b: (<A as DeepView>::V, <B as DeepView>::V),
        c: (<A as DeepView>::V, <B as DeepView>::V),
    ) {
        if A::precedes(a.0, b.0) && A::precedes(b.0, c.0) {
            A::transitive(a.0, b.0, c.0);
        }
        if B::precedes(a.1, b.1) && B::precedes(b.1, c.1) {
            B::transitive(a.1, b.1, c.1);
        }
    }

    proof fn total(
        a: (<A as DeepView>::V, <B as DeepView>::V),
        b: (<A as DeepView>::V, <B as DeepView>::V),
    ) {
        A::total(a.0, b.0);
        B::total(a.1, b.1);
    }

    fn rank(&self, other: &Self) -> (rank: Rank) {
        match self.0.rank(&other.0) {
            Rank::Equal => self.1.rank(&other.1),
            decided => decided,
        }
    }
}

} // verus!
