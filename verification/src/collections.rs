//! Sets and maps kept as sorted vectors, and stable sorting by a key.

use vstd::prelude::*;

use crate::order::{Ordered, Rank};

verus! {

/// Every element of `s` strictly precedes the ones after it.
pub open spec fn strictly_sorted<T: Ordered>(s: Seq<<T as DeepView>::V>) -> bool {
    forall|i: int, j: int| 0 <= i < j < s.len() ==> T::precedes(#[trigger] s[i], #[trigger] s[j])
}

/// The elements of a finite set in ascending order.
pub open spec fn ascending<T: Ordered>(set: Set<<T as DeepView>::V>) -> Seq<<T as DeepView>::V> {
    choose|s: Seq<<T as DeepView>::V>| strictly_sorted::<T>(s) && #[trigger] s.to_set() == set
}

/// A set has at most one strictly ascending enumeration.
pub proof fn lemma_ascending_unique<T: Ordered>(
    a: Seq<<T as DeepView>::V>,
    b: Seq<<T as DeepView>::V>,
)
    requires
        strictly_sorted::<T>(a),
        strictly_sorted::<T>(b),
        a.to_set() == b.to_set(),
    ensures
        a == b,
    decreases a.len(),
{
    if a.len() == 0 {
        if b.len() > 0 {
            assert(b.to_set().contains(b[0]));
            assert(a.to_set().contains(b[0]));
        }
        assert(a =~= b);
    } else {
        assert(a.to_set().contains(a[0]));
        assert(b.contains(a[0]));
        let j = choose|j: int| 0 <= j < b.len() && b[j] == a[0];
        assert(b.to_set().contains(b[0]));
        assert(a.contains(b[0]));
        let i = choose|i: int| 0 <= i < a.len() && a[i] == b[0];
        if i > 0 {
            assert(T::precedes(a[0], a[i]));
            if j > 0 {
                assert(T::precedes(b[0], b[j]));
                T::transitive(a[0], b[0], a[0]);
            }
            T::irreflexive(a[0]);
        }
        assert(a[0] == b[0]);
        let ra = a.drop_first();
        let rb = b.drop_first();
        assert forall|x: <T as DeepView>::V| ra.to_set().contains(x) <==> rb.to_set().contains(
            x,
        ) by {
            T::irreflexive(a[0]);
            if ra.contains(x) {
                let k = choose|k: int| 0 <= k < ra.len() && ra[k] == x;
                assert(a[k + 1] == x);
                assert(T::precedes(a[0], a[k + 1]));
                assert(a.to_set().contains(x));
                assert(b.contains(x));
                let m = choose|m: int| 0 <= m < b.len() && b[m] == x;
                assert(m != 0);
                assert(rb[m - 1] == x);
            }
            if rb.contains(x) {
                let k = choose|k: int| 0 <= k < rb.len() && rb[k] == x;
                assert(b[k + 1] == x);
                assert(T::precedes(b[0], b[k + 1]));
                assert(b.to_set().contains(x));
                assert(a.contains(x));
                let m = choose|m: int| 0 <= m < a.len() && a[m] == x;
                assert(m != 0);
                assert(ra[m - 1] == x);
            }
        }
        assert(ra.to_set() =~= rb.to_set());
        assert forall|p: int, q: int| 0 <= p < q < ra.len() implies T::precedes(
            #[trigger] ra[p],
            #[trigger] ra[q],
        ) by {
            assert(T::precedes(a[p + 1], a[q + 1]));
        }
        assert forall|p: int, q: int| 0 <= p < q < rb.len() implies T::precedes(
            #[trigger] rb[p],
            #[trigger] rb[q],
        ) by {
            assert(T::precedes(b[p + 1], b[q + 1]));
        }
        lemma_ascending_unique::<T>(ra, rb);
        assert(a =~= seq![a[0]] + ra);
        assert(b =~= seq![b[0]] + rb);
    }
}

/// A strictly sorted sequence is the ascending enumeration of its elements.
pub proof fn lemma_ascending<T: Ordered>(s: Seq<<T as DeepView>::V>)
    requires
        strictly_sorted::<T>(s),
    ensures
        ascending::<T>(s.to_set()) == s,
        s.no_duplicates(),
        s.to_set().len() == s.len(),
        s.to_set().finite(),
{
    assert(strictly_sorted::<T>(s) && s.to_set() == s.to_set());
    lemma_ascending_unique::<T>(ascending::<T>(s.to_set()), s);
    assert forall|i: int, j: int| 0 <= i < s.len() && 0 <= j < s.len() && i != j implies s[i]
        != s[j] by {
        T::irreflexive(s[i]);
        if i < j {
            assert(T::precedes(s[i], s[j]));
        } else {
            assert(T::precedes(s[j], s[i]));
        }
    }
    s.unique_seq_to_set();
}

/// Every finite set has an ascending enumeration.
pub proof fn lemma_ascending_exists<T: Ordered>(set: Set<<T as DeepView>::V>)
    requires
        set.finite(),
    ensures
        strictly_sorted::<T>(ascending::<T>(set)),
        ascending::<T>(set).to_set() == set,
    decreases set.len(),
{
    if set.len() == 0 {
        let s = Seq::<<T as DeepView>::V>::empty();
        assert(s.to_set() =~= set);
        assert(strictly_sorted::<T>(s));
    } else {
        let x = set.choose();
        let rest = set.remove(x);
        lemma_ascending_exists::<T>(rest);
        let s = ascending::<T>(rest);
        let cut = lemma_gap::<T>(s, x);
        let t = s.insert(cut, x);
        lemma_insert_sorted::<T>(s, x, cut);
        assert(t.to_set() =~= set);
    }
}

/// The place at which an element belongs in a strictly sorted sequence that does not hold it.
proof fn lemma_gap<T: Ordered>(s: Seq<<T as DeepView>::V>, x: <T as DeepView>::V) -> (cut: int)
    requires
        strictly_sorted::<T>(s),
        !s.contains(x),
    ensures
        0 <= cut <= s.len(),
        forall|i: int| 0 <= i < cut ==> T::precedes(#[trigger] s[i], x),
        forall|i: int| cut <= i < s.len() ==> T::precedes(x, #[trigger] s[i]),
    decreases s.len(),
{
    if s.len() == 0 {
        0
    } else {
        let last = s.len() - 1;
        T::total(s[last], x);
        assert(s.contains(s[last]));
        if T::precedes(s[last], x) {
            assert forall|i: int| 0 <= i < s.len() implies T::precedes(#[trigger] s[i], x) by {
                if i < last {
                    T::transitive(s[i], s[last], x);
                }
            }
            s.len() as int
        } else {
            let head = s.drop_last();
            assert forall|y: <T as DeepView>::V| head.contains(y) implies s.contains(y) by {
                let k = choose|k: int| 0 <= k < head.len() && head[k] == y;
                assert(s[k] == y);
            }
            let cut = lemma_gap::<T>(head, x);
            assert forall|i: int| 0 <= i < cut implies T::precedes(#[trigger] s[i], x) by {
                assert(head[i] == s[i]);
            }
            assert forall|i: int| cut <= i < s.len() implies T::precedes(x, #[trigger] s[i]) by {
                if i < last {
                    assert(head[i] == s[i]);
                }
            }
            cut
        }
    }
}

/// Inserting an element at its place keeps a sequence strictly sorted and adds just that element.
proof fn lemma_insert_sorted<T: Ordered>(
    s: Seq<<T as DeepView>::V>,
    x: <T as DeepView>::V,
    cut: int,
)
    requires
        strictly_sorted::<T>(s),
        0 <= cut <= s.len(),
        forall|i: int| 0 <= i < cut ==> T::precedes(#[trigger] s[i], x),
        forall|i: int| cut <= i < s.len() ==> T::precedes(x, #[trigger] s[i]),
    ensures
        strictly_sorted::<T>(s.insert(cut, x)),
        s.insert(cut, x).to_set() == s.to_set().insert(x),
{
    let t = s.insert(cut, x);
    assert forall|i: int, j: int| 0 <= i < j < t.len() implies T::precedes(
        #[trigger] t[i],
        #[trigger] t[j],
    ) by {
        let a = if i < cut { i } else { i - 1 };
        let b = if j < cut { j } else { j - 1 };
        if i == cut {
            assert(t[j] == s[b]);
        } else if j == cut {
            assert(t[i] == s[a]);
        } else {
            assert(t[i] == s[a]);
            assert(t[j] == s[b]);
        }
    }
    assert forall|y: <T as DeepView>::V| t.to_set().contains(y) <==> s.to_set().insert(
        x,
    ).contains(y) by {
        if t.contains(y) {
            let k = choose|k: int| 0 <= k < t.len() && t[k] == y;
            if k < cut {
                assert(s[k] == y);
            } else if k > cut {
                assert(s[k - 1] == y);
            }
        }
        if s.contains(y) {
            let k = choose|k: int| 0 <= k < s.len() && s[k] == y;
            if k < cut {
                assert(t[k] == y);
            } else {
                assert(t[k + 1] == y);
            }
        }
        assert(t[cut] == x);
    }
    assert(t.to_set() =~= s.to_set().insert(x));
}

/// An empty list.
pub fn no_items<T: DeepView>() -> (items: Vec<T>)
    ensures
        items.deep_view() == Seq::<<T as DeepView>::V>::empty(),
{
    let items: Vec<T> = Vec::new();
    proof {
        assert(items.deep_view() =~= Seq::<<T as DeepView>::V>::empty());
    }
    items
}

/// Appends an item to a list.
pub fn push_item<T: DeepView>(items: &mut Vec<T>, item: T)
    ensures
        final(items).deep_view() == old(items).deep_view().push(item.deep_view()),
{
    let ghost before = items.deep_view();
    let ghost added = item.deep_view();
    items.push(item);
    proof {
        assert(items.deep_view() =~= before.push(added));
    }
}

/// The items that a function yields on the elements of a sequence, in their order.
pub open spec fn collected<A, B>(s: Seq<A>, f: spec_fn(A) -> Option<B>) -> Seq<B>
    decreases s.len(),
{
    if s.len() == 0 {
        Seq::empty()
    } else {
        match f(s.last()) {
            Some(item) => collected(s.drop_last(), f).push(item),
            None => collected(s.drop_last(), f),
        }
    }
}

/// One element more adds what the function yields on it.
pub proof fn lemma_collected_step<A, B>(s: Seq<A>, f: spec_fn(A) -> Option<B>, count: int)
    requires
        0 <= count < s.len(),
    ensures
        collected(s.take(count + 1), f) == match f(s[count]) {
            Some(item) => collected(s.take(count), f).push(item),
            None => collected(s.take(count), f),
        },
{
    assert(s.take(count + 1).drop_last() =~= s.take(count));
    assert(s.take(count + 1).last() == s[count]);
}

/// The set of what a function yields on the elements of a sequence.
pub open spec fn image<A, B>(s: Seq<A>, f: spec_fn(A) -> Option<B>) -> Set<B> {
    Set::new(|item: B| exists|i: int| 0 <= i < s.len() && f(#[trigger] s[i]) == Some(item))
}

/// One element more adds what the function yields on it.
pub proof fn lemma_image_step<A, B>(s: Seq<A>, f: spec_fn(A) -> Option<B>, count: int)
    requires
        0 <= count < s.len(),
    ensures
        image(s.take(count + 1), f) == match f(s[count]) {
            Some(item) => image(s.take(count), f).insert(item),
            None => image(s.take(count), f),
        },
{
    let short = s.take(count);
    let long = s.take(count + 1);
    let expected = match f(s[count]) {
        Some(item) => image(short, f).insert(item),
        None => image(short, f),
    };
    assert forall|x: B| image(long, f).contains(x) <==> expected.contains(x) by {
        if image(long, f).contains(x) {
            let i = choose|i: int| 0 <= i < long.len() && f(#[trigger] long[i]) == Some(x);
            if i < count {
                assert(short[i] == long[i]);
            }
        }
        if image(short, f).contains(x) {
            let i = choose|i: int| 0 <= i < short.len() && f(#[trigger] short[i]) == Some(x);
            assert(short[i] == long[i]);
        }
        assert(long[count] == s[count]);
    }
    assert(image(long, f) =~= expected);
}

/// The whole sequence, and no element of it.
pub proof fn lemma_image_ends<A, B>(s: Seq<A>, f: spec_fn(A) -> Option<B>)
    ensures
        image(s.take(0), f) == Set::<B>::empty(),
        s.take(s.len() as int) == s,
{
    assert(image(s.take(0), f) =~= Set::<B>::empty());
    assert(s.take(s.len() as int) =~= s);
}

/// The union of the sets that a function yields on the elements of a sequence.
pub open spec fn flat_image<A, B>(s: Seq<A>, f: spec_fn(A) -> Set<B>) -> Set<B> {
    Set::new(|item: B| exists|i: int| 0 <= i < s.len() && f(#[trigger] s[i]).contains(item))
}

/// One element more adds the set that the function yields on it.
pub proof fn lemma_flat_image_step<A, B>(s: Seq<A>, f: spec_fn(A) -> Set<B>, count: int)
    requires
        0 <= count < s.len(),
    ensures
        flat_image(s.take(count + 1), f) == flat_image(s.take(count), f).union(f(s[count])),
{
    let short = s.take(count);
    let long = s.take(count + 1);
    let expected = flat_image(short, f).union(f(s[count]));
    assert forall|x: B| flat_image(long, f).contains(x) <==> expected.contains(x) by {
        if flat_image(long, f).contains(x) {
            let i = choose|i: int| 0 <= i < long.len() && f(#[trigger] long[i]).contains(x);
            if i < count {
                assert(short[i] == long[i]);
            }
        }
        if flat_image(short, f).contains(x) {
            let i = choose|i: int| 0 <= i < short.len() && f(#[trigger] short[i]).contains(x);
            assert(short[i] == long[i]);
        }
        assert(long[count] == s[count]);
    }
    assert(flat_image(long, f) =~= expected);
}

/// The first element of a sequence with a property.
pub open spec fn first_where<A>(s: Seq<A>, property: spec_fn(A) -> bool) -> Option<A>
    decreases s.len(),
{
    if s.len() == 0 {
        None
    } else if property(s[0]) {
        Some(s[0])
    } else {
        first_where(s.drop_first(), property)
    }
}

/// The search goes on behind an element without the property.
pub proof fn lemma_first_where_step<A>(s: Seq<A>, property: spec_fn(A) -> bool, count: int)
    requires
        0 <= count < s.len(),
    ensures
        first_where(s.skip(count), property) == if property(s[count]) {
            Some(s[count])
        } else {
            first_where(s.skip(count + 1), property)
        },
        s.skip(0) == s,
{
    assert(s.skip(count).drop_first() =~= s.skip(count + 1));
    assert(s.skip(count)[0] == s[count]);
    assert(s.skip(0) =~= s);
}

/// What a search over a whole sequence finds.
pub proof fn lemma_first_where<A>(s: Seq<A>, property: spec_fn(A) -> bool)
    ensures
        first_where(s, property) matches Some(found) ==> property(found) && s.contains(found),
        first_where(s, property) is None ==> forall|i: int|
            0 <= i < s.len() ==> !property(#[trigger] s[i]),
        s.skip(0) == s,
        first_where(s.skip(s.len() as int), property) is None,
    decreases s.len(),
{
    assert(s.skip(0) =~= s);
    if s.len() > 0 {
        let rest = s.drop_first();
        lemma_first_where(rest, property);
        if !property(s[0]) {
            if first_where(rest, property) is Some {
                let found = first_where(rest, property)->0;
                let i = choose|i: int| 0 <= i < rest.len() && rest[i] == found;
                assert(s[i + 1] == found);
            } else {
                assert forall|i: int| 0 <= i < s.len() implies !property(#[trigger] s[i]) by {
                    if i > 0 {
                        assert(rest[i - 1] == s[i]);
                    }
                }
            }
        }
    }
}

/// How many elements of a sequence have a property.
pub open spec fn count_where<A>(s: Seq<A>, property: spec_fn(A) -> bool) -> nat
    decreases s.len(),
{
    if s.len() == 0 {
        0
    } else {
        count_where(s.drop_last(), property) + if property(s.last()) {
            1nat
        } else {
            0nat
        }
    }
}

/// One element more counts where it has the property; the count never exceeds the length.
pub proof fn lemma_count_step<A>(s: Seq<A>, property: spec_fn(A) -> bool, count: int)
    requires
        0 <= count < s.len(),
    ensures
        count_where(s.take(count + 1), property) == count_where(s.take(count), property) + if property(
            s[count],
        ) {
            1nat
        } else {
            0nat
        },
{
    assert(s.take(count + 1).drop_last() =~= s.take(count));
    assert(s.take(count + 1).last() == s[count]);
}

/// No more elements have a property than there are elements.
pub proof fn lemma_count_bound<A>(s: Seq<A>, property: spec_fn(A) -> bool)
    ensures
        count_where(s, property) <= s.len(),
        s.take(s.len() as int) == s,
        count_where(s.take(0), property) == 0,
    decreases s.len(),
{
    assert(s.take(s.len() as int) =~= s);
    if s.len() > 0 {
        lemma_count_bound(s.drop_last(), property);
    }
}

/// The first of the least elements of a sequence.
pub open spec fn least<A>(s: Seq<A>, less: spec_fn(A, A) -> bool) -> Option<A>
    decreases s.len(),
{
    if s.len() == 0 {
        None
    } else {
        match least(s.drop_last(), less) {
            Some(best) => if less(s.last(), best) {
                Some(s.last())
            } else {
                Some(best)
            },
            None => Some(s.last()),
        }
    }
}

/// One element more is the least where it is less than the least so far.
pub proof fn lemma_least_step<A>(s: Seq<A>, less: spec_fn(A, A) -> bool, count: int)
    requires
        0 <= count < s.len(),
    ensures
        least(s.take(count + 1), less) == match least(s.take(count), less) {
            Some(best) => if less(s[count], best) {
                Some(s[count])
            } else {
                Some(best)
            },
            None => Some(s[count]),
        },
{
    assert(s.take(count + 1).drop_last() =~= s.take(count));
    assert(s.take(count + 1).last() == s[count]);
}

/// The least element is one of the sequence; only an empty sequence has none.
pub proof fn lemma_least<A>(s: Seq<A>, less: spec_fn(A, A) -> bool)
    ensures
        least(s, less) is Some == (s.len() > 0),
        least(s, less) matches Some(best) ==> s.contains(best),
        s.take(s.len() as int) == s,
        least(s.take(0), less) is None,
    decreases s.len(),
{
    assert(s.take(s.len() as int) =~= s);
    if s.len() > 0 {
        let head = s.drop_last();
        lemma_least(head, less);
        if let Some(best) = least(head, less) {
            let i = choose|i: int| 0 <= i < head.len() && head[i] == best;
            assert(s[i] == best);
        }
        assert(s[s.len() - 1] == s.last());
    }
}

/// Two groupings laid over each other: the sets of a key are united.
pub open spec fn overlay<A, B>(left: Map<A, Set<B>>, right: Map<A, Set<B>>) -> Map<A, Set<B>> {
    Map::new(
        |key: A| left.contains_key(key) || right.contains_key(key),
        |key: A| group_at(left, key).union(group_at(right, key)),
    )
}

/// Adding to the upper of two groupings adds to both laid over each other.
pub proof fn lemma_overlay_add<A, B>(
    left: Map<A, Set<B>>,
    right: Map<A, Set<B>>,
    key: A,
    item: B,
)
    ensures
        overlay(left, right.insert(key, group_at(right, key).insert(item))) == overlay(
            left,
            right,
        ).insert(key, group_at(overlay(left, right), key).insert(item)),
        overlay(left, Map::<A, Set<B>>::empty()) == left,
{
    let added = right.insert(key, group_at(right, key).insert(item));
    let expected = overlay(left, right).insert(
        key,
        group_at(overlay(left, right), key).insert(item),
    );
    assert forall|k: A| #[trigger] expected.dom().contains(k) implies overlay(left, added)[k]
        == expected[k] by {
        assert(overlay(left, added)[k] =~= expected[k]);
    }
    assert(overlay(left, added) =~= expected);
    let nothing = Map::<A, Set<B>>::empty();
    assert forall|k: A| #[trigger] left.dom().contains(k) implies overlay(left, nothing)[k]
        == left[k] by {
        assert(overlay(left, nothing)[k] =~= left[k]);
    }
    assert(overlay(left, nothing) =~= left);
}

/// The pairs that a function yields on the elements of a sequence, grouped by their first part.
pub open spec fn grouped<A, B, C>(s: Seq<A>, f: spec_fn(A) -> Option<(B, C)>) -> Map<B, Set<C>> {
    Map::new(
        |key: B|
            exists|i: int|
                0 <= i < s.len() && f(#[trigger] s[i]) is Some && (f(s[i])->0).0 == key,
        |key: B| group_image(s, f, key),
    )
}

/// What a function yields together with a key.
pub open spec fn group_image<A, B, C>(
    s: Seq<A>,
    f: spec_fn(A) -> Option<(B, C)>,
    key: B,
) -> Set<C> {
    Set::new(|item: C| exists|i: int| 0 <= i < s.len() && f(#[trigger] s[i]) == Some((key, item)))
}

/// One element more adds the pair that the function yields on it.
pub proof fn lemma_grouped_step<A, B, C>(s: Seq<A>, f: spec_fn(A) -> Option<(B, C)>, count: int)
    requires
        0 <= count < s.len(),
    ensures
        grouped(s.take(count + 1), f) == match f(s[count]) {
            Some(pair) => grouped(s.take(count), f).insert(
                pair.0,
                group_at(grouped(s.take(count), f), pair.0).insert(pair.1),
            ),
            None => grouped(s.take(count), f),
        },
{
    let short = s.take(count);
    let long = s.take(count + 1);
    let before = grouped(short, f);
    let expected = match f(s[count]) {
        Some(pair) => before.insert(pair.0, group_at(before, pair.0).insert(pair.1)),
        None => before,
    };
    assert(long[count] == s[count]);
    assert forall|i: int| 0 <= i < count implies #[trigger] short[i] == long[i] by {}
    assert forall|key: B| grouped(long, f).dom().contains(key) <==> expected.dom().contains(key) by {
        if grouped(long, f).dom().contains(key) {
            let i = choose|i: int|
                0 <= i < long.len() && f(#[trigger] long[i]) is Some && (f(long[i])->0).0 == key;
            if i < count {
                assert(f(short[i]) is Some && (f(short[i])->0).0 == key);
            }
        }
        if before.dom().contains(key) {
            let i = choose|i: int|
                0 <= i < short.len() && f(#[trigger] short[i]) is Some && (f(short[i])->0).0 == key;
            assert(f(long[i]) is Some && (f(long[i])->0).0 == key);
        }
        assert(f(long[count]) == f(s[count]));
    }
    assert forall|key: B| #[trigger] expected.dom().contains(key) implies grouped(long, f)[key]
        == expected[key] by {
        let found = group_image(long, f, key);
        let wanted = expected[key];
        assert forall|item: C| found.contains(item) <==> wanted.contains(item) by {
            if found.contains(item) {
                let i = choose|i: int| 0 <= i < long.len() && f(#[trigger] long[i]) == Some((key, item));
                if i < count {
                    assert(f(short[i]) == Some((key, item)));
                    assert(before.dom().contains(key));
                }
            }
            if before.dom().contains(key) && group_image(short, f, key).contains(item) {
                let i = choose|i: int| 0 <= i < short.len()
                    && f(#[trigger] short[i]) == Some((key, item));
                assert(f(long[i]) == Some((key, item)));
            }
            assert(f(long[count]) == f(s[count]));
        }
        assert(found =~= wanted);
    }
    assert(grouped(long, f) =~= expected);
}

/// The whole sequence, and no element of it.
pub proof fn lemma_grouped_ends<A, B, C>(s: Seq<A>, f: spec_fn(A) -> Option<(B, C)>)
    ensures
        grouped(s.take(0), f) == Map::<B, Set<C>>::empty(),
        s.take(s.len() as int) == s,
{
    assert(grouped(s.take(0), f) =~= Map::<B, Set<C>>::empty());
    assert(s.take(s.len() as int) =~= s);
}

/// The pairs of a row and a place in it, row after row.
pub open spec fn cells(lengths: Seq<usize>) -> Seq<(usize, usize)>
    decreases lengths.len(),
{
    if lengths.len() == 0 {
        Seq::empty()
    } else {
        cells(lengths.drop_last()) + Seq::new(
            lengths.last() as nat,
            |i: int| ((lengths.len() - 1) as usize, i as usize),
        )
    }
}

/// Every cell lies within its row, and every place of a row has its cell.
pub proof fn lemma_cells(lengths: Seq<usize>)
    requires
        lengths.len() <= usize::MAX,
    ensures
        forall|k: int|
            0 <= k < cells(lengths).len() ==> (#[trigger] cells(lengths)[k]).0 < lengths.len()
                && cells(lengths)[k].1 < lengths[cells(lengths)[k].0 as int],
        forall|row: usize, place: usize|
            row < lengths.len() && place < lengths[row as int] ==> #[trigger] cells(
                lengths,
            ).contains((row, place)),
    decreases lengths.len(),
{
    if lengths.len() > 0 {
        let short = lengths.drop_last();
        lemma_cells(short);
        let last = (lengths.len() - 1) as usize;
        let tail = Seq::new(lengths.last() as nat, |i: int| (last, i as usize));
        let all = cells(lengths);
        assert(all == cells(short) + tail);
        assert forall|k: int| 0 <= k < all.len() implies (#[trigger] all[k]).0 < lengths.len()
            && all[k].1 < lengths[all[k].0 as int] by {
            if k < cells(short).len() {
                assert(all[k] == cells(short)[k]);
            } else {
                assert(all[k] == tail[k - cells(short).len()]);
            }
        }
        assert forall|row: usize, place: usize|
            row < lengths.len() && place < lengths[row as int] implies #[trigger] all.contains(
            (row, place),
        ) by {
            if row < last {
                assert(cells(short).contains((row, place)));
                let k = choose|k: int| 0 <= k < cells(short).len() && cells(short)[k] == (row, place);
                assert(all[k] == (row, place));
            } else {
                let k = cells(short).len() + place as int;
                assert(tail[place as int] == (row, place));
                assert(all[k] == (row, place));
            }
        }
    }
}

/// Lists the pairs of a row and a place in it, row after row.
pub fn list_cells(lengths: &Vec<usize>) -> (list: Vec<(usize, usize)>)
    ensures
        list@ == cells(lengths@),
        list.deep_view() == cells(lengths@),
{
    let mut list: Vec<(usize, usize)> = Vec::new();
    let mut row: usize = 0;
    proof {
        assert(lengths@.take(0) =~= Seq::<usize>::empty());
    }
    while row < lengths.len()
        invariant
            row <= lengths.len(),
            list@ == cells(lengths@.take(row as int)),
        decreases lengths.len() - row,
    {
        let ghost before = list@;
        let length: usize = lengths[row];
        let mut place: usize = 0;
        let ghost tail = Seq::new(length as nat, |i: int| (row, i as usize));
        while place < length
            invariant
                place <= length,
                tail == Seq::new(length as nat, |i: int| (row, i as usize)),
                list@ =~= before + tail.take(place as int),
            decreases length - place,
        {
            list.push((row, place));
            place = place + 1;
        }
        proof {
            assert(tail.take(length as int) =~= tail);
            assert(lengths@.take(row + 1).drop_last() =~= lengths@.take(row as int));
            assert(lengths@.take(row + 1).last() == length);
            assert(list@ =~= cells(lengths@.take(row + 1)));
        }
        row = row + 1;
    }
    proof {
        assert(lengths@.take(lengths@.len() as int) =~= lengths@);
        assert(list.deep_view() =~= list@);
    }
    list
}

/// A set of values, held in ascending order.
#[derive(Debug, PartialEq, Eq)]
pub struct SortedSet<T> {
    items: Vec<T>,
}

impl<T: Ordered> DeepView for SortedSet<T> {
    type V = Set<<T as DeepView>::V>;

    open spec fn deep_view(&self) -> Set<<T as DeepView>::V> {
        self.seq().to_set()
    }
}

impl<T: Ordered> SortedSet<T> {
    /// The models of the members, in ascending order.
    pub closed spec fn seq(&self) -> Seq<<T as DeepView>::V> {
        self.items.deep_view()
    }

    /// The members are held in strictly ascending order.
    pub open spec fn wf(&self) -> bool {
        strictly_sorted::<T>(self.seq())
    }

    /// The members in ascending order are a function of the set, and it is as large as it is long.
    pub proof fn lemma_seq(&self)
        requires
            self.wf(),
        ensures
            self.seq() == ascending::<T>(self.deep_view()),
            self.seq().no_duplicates(),
            self.seq().len() == self.deep_view().len(),
            self.deep_view().finite(),
            self.seq().len() <= usize::MAX,
    {
        lemma_ascending::<T>(self.seq());
        assert(self.items.len() == self.seq().len());
    }

    /// The empty set.
    pub fn new() -> (set: Self)
        ensures
            set.wf(),
            set.seq().len() == 0,
            set.deep_view() == Set::<<T as DeepView>::V>::empty(),
    {
        let set = SortedSet { items: Vec::new() };
        proof {
            assert(set.seq() =~= Seq::<<T as DeepView>::V>::empty());
            assert(set.deep_view() =~= Set::<<T as DeepView>::V>::empty());
        }
        set
    }

    /// The number of members.
    pub fn len(&self) -> (n: usize)
        ensures
            n == self.seq().len(),
    {
        self.items.len()
    }

    /// The member at a place of the ascending order.
    pub fn get(&self, index: usize) -> (item: &T)
        requires
            index < self.seq().len(),
        ensures
            item.deep_view() == self.seq()[index as int],
    {
        &self.items[index]
    }

    /// The place where an item stands, or where it would have to be inserted.
    fn place(&self, item: &T) -> (found: (usize, bool))
        requires
            self.wf(),
        ensures
            found.0 <= self.seq().len(),
            found.1 == self.deep_view().contains(item.deep_view()),
            found.1 ==> found.0 < self.seq().len() && self.seq()[found.0 as int]
                == item.deep_view(),
            forall|i: int|
                0 <= i < found.0 ==> T::precedes(#[trigger] self.seq()[i], item.deep_view()),
            !found.1 ==> forall|i: int|
                found.0 <= i < self.seq().len() ==> T::precedes(
                    item.deep_view(),
                    #[trigger] self.seq()[i],
                ),
    {
        let ghost s = self.seq();
        let ghost x = item.deep_view();
        let mut low: usize = 0;
        let mut high: usize = self.items.len();
        while low < high
            invariant
                s == self.seq(),
                x == item.deep_view(),
                self.wf(),
                low <= high <= s.len(),
                s.len() == self.items.len(),
                forall|i: int| 0 <= i < low ==> T::precedes(#[trigger] s[i], x),
                forall|i: int| high <= i < s.len() ==> T::precedes(x, #[trigger] s[i]),
            decreases high - low,
        {
            let middle: usize = low + (high - low) / 2;
            proof {
                assert(s[middle as int] == self.items[middle as int].deep_view());
            }
            match self.items[middle].rank(item) {
                Rank::Equal => {
                    proof {
                        assert(s.contains(x));
                        assert forall|i: int| 0 <= i < middle implies T::precedes(
                            #[trigger] s[i],
                            x,
                        ) by {
                            assert(T::precedes(s[i], s[middle as int]));
                        }
                    }
                    return (middle, true);
                },
                Rank::Less => {
                    proof {
                        assert forall|i: int| 0 <= i < middle + 1 implies T::precedes(
                            #[trigger] s[i],
                            x,
                        ) by {
                            if i < middle {
                                T::transitive(s[i], s[middle as int], x);
                            }
                        }
                    }
                    low = middle + 1;
                },
                Rank::Greater => {
                    proof {
                        assert forall|i: int| middle <= i < s.len() implies T::precedes(
                            x,
                            #[trigger] s[i],
                        ) by {
                            if i > middle {
                                T::transitive(x, s[middle as int], s[i]);
                            }
                        }
                    }
                    high = middle;
                },
            }
        }
        proof {
            if s.contains(x) {
                let k = choose|k: int| 0 <= k < s.len() && s[k] == x;
                T::irreflexive(x);
                assert(T::precedes(s[k], x) || T::precedes(x, s[k]));
            }
        }
        (low, false)
    }

    /// Whether the item is a member.
    pub fn contains(&self, item: &T) -> (found: bool)
        requires
            self.wf(),
        ensures
            found == self.deep_view().contains(item.deep_view()),
    {
        self.place(item).1
    }

    /// The place of a member in the ascending order.
    pub fn index_of(&self, item: &T) -> (index: Option<usize>)
        requires
            self.wf(),
        ensures
            index is Some == self.deep_view().contains(item.deep_view()),
            index matches Some(i) ==> i < self.seq().len() && self.seq()[i as int]
                == item.deep_view(),
    {
        let found = self.place(item);
        if found.1 {
            Some(found.0)
        } else {
            None
        }
    }

    /// Adds an item; the result says whether it was missing before.
    pub fn insert(&mut self, item: T) -> (added: bool)
        requires
            old(self).wf(),
        ensures
            final(self).wf(),
            final(self).deep_view() == old(self).deep_view().insert(item.deep_view()),
            added == !old(self).deep_view().contains(item.deep_view()),
            added ==> final(self).seq().len() == old(self).seq().len() + 1,
            !added ==> final(self).seq() == old(self).seq(),
    {
        let ghost before = self.seq();
        let ghost x = item.deep_view();
        let found = self.place(&item);
        if found.1 {
            proof {
                assert(before.contains(x));
                assert(before.to_set().insert(x) =~= before.to_set());
            }
            false
        } else {
            self.items.insert(found.0, item);
            proof {
                lemma_insert_sorted::<T>(before, x, found.0 as int);
                assert(self.seq() =~= before.insert(found.0 as int, x));
            }
            true
        }
    }

    /// The members in ascending order.
    pub fn into_vec(self) -> (items: Vec<T>)
        requires
            self.wf(),
        ensures
            items.deep_view() == self.seq(),
    {
        self.items
    }
}

/// Sorts items and keeps each just once.
pub fn sorted_unique<T: Ordered>(items: Vec<T>) -> (sorted: Vec<T>)
    ensures
        sorted.deep_view() == ascending::<T>(items.deep_view().to_set()),
        strictly_sorted::<T>(sorted.deep_view()),
        sorted.deep_view().to_set() == items.deep_view().to_set(),
{
    let ghost all = items.deep_view();
    let mut set: SortedSet<T> = SortedSet::new();
    proof {
        assert(all.take(0).to_set() =~= Set::<<T as DeepView>::V>::empty());
    }
    for item in it: items
        invariant
            set.wf(),
            all.len() == it.seq().len(),
            forall|i: int| 0 <= i < all.len() ==> #[trigger] all[i] == it.seq()[i].deep_view(),
            set.deep_view() == all.take(it.index() as int).to_set(),
    {
        proof {
            lemma_prefix_set(all, it.index() as int);
        }
        set.insert(item);
    }
    proof {
        assert(all.take(all.len() as int) =~= all);
        set.lemma_seq();
    }
    set.into_vec()
}

/// One element more of a sequence adds that element to the set of its elements.
pub proof fn lemma_prefix_set<A>(s: Seq<A>, count: int)
    requires
        0 <= count < s.len(),
    ensures
        s.take(count + 1).to_set() == s.take(count).to_set().insert(s[count]),
{
    let short = s.take(count);
    let long = s.take(count + 1);
    assert forall|x: A| long.to_set().contains(x) <==> short.to_set().insert(s[count]).contains(
        x,
    ) by {
        if long.contains(x) {
            let i = choose|i: int| 0 <= i < long.len() && long[i] == x;
            if i < count {
                assert(short[i] == x);
            }
        }
        if short.contains(x) {
            let i = choose|i: int| 0 <= i < short.len() && short[i] == x;
            assert(long[i] == x);
        }
        assert(long[count] == s[count]);
    }
    assert(long.to_set() =~= short.to_set().insert(s[count]));
}

/// A map from ordered keys, held in ascending order of the keys.
#[derive(Debug, PartialEq, Eq)]
pub struct SortedMap<K, W> {
    keys: SortedSet<K>,
    values: Vec<W>,
}

impl<K: Ordered, W: DeepView> DeepView for SortedMap<K, W> {
    type V = Map<<K as DeepView>::V, <W as DeepView>::V>;

    open spec fn deep_view(&self) -> Map<<K as DeepView>::V, <W as DeepView>::V> {
        Map::new(
            |k: <K as DeepView>::V| self.key_seq().contains(k),
            |k: <K as DeepView>::V| self.value_seq()[self.key_seq().index_of(k)],
        )
    }
}

impl<K: Ordered, W: DeepView> SortedMap<K, W> {
    /// The models of the keys, in ascending order.
    pub closed spec fn key_seq(&self) -> Seq<<K as DeepView>::V> {
        self.keys.seq()
    }

    /// The models of the values, in ascending order of their keys.
    pub closed spec fn value_seq(&self) -> Seq<<W as DeepView>::V> {
        self.values.deep_view()
    }

    /// The values themselves, in ascending order of their keys.
    pub closed spec fn slots(&self) -> Seq<W> {
        self.values@
    }

    /// One value per key, and the keys strictly ascending.
    pub closed spec fn wf(&self) -> bool {
        &&& self.keys.wf()
        &&& self.values@.len() == self.keys.seq().len()
    }

    /// What a well-formed map holds at each place.
    pub proof fn lemma_places(&self)
        requires
            self.wf(),
        ensures
            strictly_sorted::<K>(self.key_seq()),
            self.key_seq().len() == self.value_seq().len(),
            self.slots().len() == self.key_seq().len(),
            self.key_seq() == ascending::<K>(self.deep_view().dom()),
            self.deep_view().dom() == self.key_seq().to_set(),
            self.deep_view().dom().finite(),
            self.key_seq().len() == self.deep_view().dom().len(),
            self.key_seq().len() <= usize::MAX,
            forall|i: int|
                0 <= i < self.key_seq().len() ==> #[trigger] self.deep_view().dom().contains(
                    self.key_seq()[i],
                ) && self.deep_view()[self.key_seq()[i]] == self.value_seq()[i],
            forall|i: int|
                0 <= i < self.key_seq().len() ==> #[trigger] self.value_seq()[i]
                    == self.slots()[i].deep_view(),
    {
        self.keys.lemma_seq();
        assert(self.deep_view().dom() =~= self.key_seq().to_set());
        assert forall|i: int|
            0 <= i < self.key_seq().len() implies #[trigger] self.deep_view().dom().contains(
            self.key_seq()[i],
        ) && self.deep_view()[self.key_seq()[i]] == self.value_seq()[i] by {
            assert(self.key_seq().contains(self.key_seq()[i]));
            let j = self.key_seq().index_of(self.key_seq()[i]);
            assert(self.key_seq()[j] == self.key_seq()[i]);
            assert(j == i);
        }
    }

    /// The empty map.
    pub fn new() -> (map: Self)
        ensures
            map.wf(),
            map.key_seq().len() == 0,
            map.deep_view() == Map::<<K as DeepView>::V, <W as DeepView>::V>::empty(),
    {
        let map = SortedMap { keys: SortedSet::new(), values: Vec::new() };
        proof {
            assert(map.deep_view() =~= Map::<<K as DeepView>::V, <W as DeepView>::V>::empty());
        }
        map
    }

    /// The number of entries.
    pub fn len(&self) -> (n: usize)
        ensures
            n == self.key_seq().len(),
    {
        self.keys.len()
    }

    /// The key at a place of the ascending order.
    pub fn key_at(&self, index: usize) -> (key: &K)
        requires
            index < self.key_seq().len(),
        ensures
            key.deep_view() == self.key_seq()[index as int],
    {
        self.keys.get(index)
    }

    /// The value at a place of the ascending order of the keys.
    pub fn value_at(&self, index: usize) -> (value: &W)
        requires
            self.wf(),
            index < self.key_seq().len(),
        ensures
            *value == self.slots()[index as int],
            value.deep_view() == self.value_seq()[index as int],
    {
        &self.values[index]
    }

    /// Whether the key has an entry.
    pub fn contains_key(&self, key: &K) -> (found: bool)
        requires
            self.wf(),
        ensures
            found == self.deep_view().contains_key(key.deep_view()),
    {
        proof {
            self.lemma_places();
        }
        self.keys.contains(key)
    }

    /// The value of a key.
    pub fn get(&self, key: &K) -> (value: Option<&W>)
        requires
            self.wf(),
        ensures
            value is Some == self.deep_view().contains_key(key.deep_view()),
            value matches Some(found) ==> found.deep_view() == self.deep_view()[key.deep_view()]
                && self.slots().contains(*found),
    {
        proof {
            self.lemma_places();
        }
        match self.keys.index_of(key) {
            Some(index) => {
                proof {
                    assert(self.deep_view().dom().contains(self.key_seq()[index as int]));
                    assert(self.value_seq()[index as int] == self.slots()[index as int].deep_view());
                }
                Some(&self.values[index])
            },
            None => None,
        }
    }

    /// Sets the value of a key.
    pub fn insert(&mut self, key: K, value: W)
        requires
            old(self).wf(),
        ensures
            final(self).wf(),
            final(self).deep_view() == old(self).deep_view().insert(
                key.deep_view(),
                value.deep_view(),
            ),
            forall|w: W| #[trigger] final(self).slots().contains(w) ==> w == value
                || old(self).slots().contains(w),
    {
        let ghost before = *self;
        let ghost k = key.deep_view();
        let ghost w = value.deep_view();
        let found = self.keys.place(&key);
        proof {
            before.lemma_places();
        }
        if found.1 {
            self.values[found.0] = value;
            proof {
                self.lemma_places();
                assert(self.key_seq() == before.key_seq());
                let m = before.deep_view().insert(k, w);
                assert forall|x: <K as DeepView>::V| #[trigger]
                    self.deep_view().dom().contains(x) implies self.deep_view()[x] == m[x] by {
                    assert(self.key_seq().contains(x));
                    let i = choose|i: int| 0 <= i < self.key_seq().len() && self.key_seq()[i] == x;
                    assert(self.deep_view().dom().contains(self.key_seq()[i]));
                    assert(before.deep_view().dom().contains(before.key_seq()[i]));
                    assert(self.value_seq()[i] == self.slots()[i].deep_view());
                    before.keys.lemma_seq();
                }
                assert(before.deep_view().dom().contains(before.key_seq()[found.0 as int]));
                assert(self.deep_view() =~= m);
                assert forall|v: W| #[trigger] self.slots().contains(v) implies v == value
                    || before.slots().contains(v) by {
                    let i = choose|i: int| 0 <= i < self.slots().len() && self.slots()[i] == v;
                    if i != found.0 {
                        assert(before.slots()[i] == v);
                    }
                }
            }
        } else {
            self.keys.insert(key);
            self.values.insert(found.0, value);
            proof {
                let cut = found.0 as int;
                lemma_insert_sorted::<K>(before.key_seq(), k, cut);
                lemma_ascending::<K>(before.key_seq().insert(cut, k));
                self.keys.lemma_seq();
                assert(self.key_seq() == before.key_seq().insert(cut, k));
                self.lemma_places();
                let m = before.deep_view().insert(k, w);
                assert forall|x: <K as DeepView>::V| #[trigger]
                    self.deep_view().dom().contains(x) implies self.deep_view()[x] == m[x] by {
                    assert(self.key_seq().contains(x));
                    let i = choose|i: int| 0 <= i < self.key_seq().len() && self.key_seq()[i] == x;
                    assert(self.deep_view().dom().contains(self.key_seq()[i]));
                    assert(self.value_seq()[i] == self.slots()[i].deep_view());
                    if i < cut {
                        assert(before.key_seq()[i] == x);
                        assert(before.deep_view().dom().contains(before.key_seq()[i]));
                        assert(before.value_seq()[i] == before.slots()[i].deep_view());
                    } else if i > cut {
                        assert(before.key_seq()[i - 1] == x);
                        assert(before.deep_view().dom().contains(before.key_seq()[i - 1]));
                        assert(before.value_seq()[i - 1] == before.slots()[i - 1].deep_view());
                    }
                }
                assert(self.deep_view().dom() =~= m.dom());
                assert(self.deep_view() =~= m);
                assert forall|v: W| #[trigger] self.slots().contains(v) implies v == value
                    || before.slots().contains(v) by {
                    let i = choose|i: int| 0 <= i < self.slots().len() && self.slots()[i] == v;
                    if i < cut {
                        assert(before.slots()[i] == v);
                    } else if i > cut {
                        assert(before.slots()[i - 1] == v);
                    }
                }
            }
        }
    }
}

/// The set that a grouping holds for a key: the empty set where it has none.
pub open spec fn group_at<A, B>(groups: Map<A, Set<B>>, key: A) -> Set<B> {
    if groups.contains_key(key) {
        groups[key]
    } else {
        Set::empty()
    }
}

/// Ordered keys, each with a set of ordered items.
#[derive(Debug, PartialEq, Eq)]
pub struct Groups<K, T> {
    map: SortedMap<K, SortedSet<T>>,
}

impl<K: Ordered, T: Ordered> DeepView for Groups<K, T> {
    type V = Map<<K as DeepView>::V, Set<<T as DeepView>::V>>;

    open spec fn deep_view(&self) -> Map<<K as DeepView>::V, Set<<T as DeepView>::V>> {
        self.inner().deep_view()
    }
}

impl<K: Ordered, T: Ordered> Groups<K, T> {
    /// The map behind the grouping.
    pub closed spec fn inner(&self) -> SortedMap<K, SortedSet<T>> {
        self.map
    }

    /// The keys in ascending order.
    pub open spec fn key_seq(&self) -> Seq<<K as DeepView>::V> {
        self.inner().key_seq()
    }

    /// The map and all of its sets are well-formed.
    pub open spec fn wf(&self) -> bool {
        &&& self.inner().wf()
        &&& forall|group: SortedSet<T>| #[trigger] self.inner().slots().contains(group) ==> group.wf()
    }

    /// What a well-formed grouping holds at each place.
    pub proof fn lemma_places(&self)
        requires
            self.wf(),
        ensures
            self.key_seq() == ascending::<K>(self.deep_view().dom()),
            strictly_sorted::<K>(self.key_seq()),
            self.deep_view().dom() == self.key_seq().to_set(),
            self.deep_view().dom().finite(),
            self.key_seq().len() == self.deep_view().dom().len(),
            forall|i: int|
                0 <= i < self.key_seq().len() ==> #[trigger] self.deep_view().dom().contains(
                    self.key_seq()[i],
                ),
    {
        self.inner().lemma_places();
    }

    /// The grouping without keys.
    pub fn new() -> (groups: Self)
        ensures
            groups.wf(),
            groups.deep_view() == Map::<<K as DeepView>::V, Set<<T as DeepView>::V>>::empty(),
    {
        let groups = Groups { map: SortedMap::new() };
        proof {
            groups.map.lemma_places();
        }
        groups
    }

    /// The number of keys.
    pub fn len(&self) -> (n: usize)
        ensures
            n == self.key_seq().len(),
    {
        self.map.len()
    }

    /// The key at a place of the ascending order.
    pub fn key_at(&self, index: usize) -> (key: &K)
        requires
            index < self.key_seq().len(),
        ensures
            key.deep_view() == self.key_seq()[index as int],
    {
        self.map.key_at(index)
    }

    /// The set at a place of the ascending order of the keys.
    pub fn group(&self, index: usize) -> (group: &SortedSet<T>)
        requires
            self.wf(),
            index < self.key_seq().len(),
        ensures
            group.wf(),
            group.deep_view() == self.deep_view()[self.key_seq()[index as int]],
    {
        proof {
            self.map.lemma_places();
            assert(self.deep_view().dom().contains(self.key_seq()[index as int]));
            assert(self.inner().slots().contains(self.inner().slots()[index as int]));
        }
        self.map.value_at(index)
    }

    /// Whether the key has a set.
    pub fn contains_key(&self, key: &K) -> (found: bool)
        requires
            self.wf(),
        ensures
            found == self.deep_view().contains_key(key.deep_view()),
    {
        self.map.contains_key(key)
    }

    /// The set of a key.
    pub fn get(&self, key: &K) -> (group: Option<&SortedSet<T>>)
        requires
            self.wf(),
        ensures
            group is Some == self.deep_view().contains_key(key.deep_view()),
            group matches Some(found) ==> found.wf() && found.deep_view()
                == self.deep_view()[key.deep_view()],
    {
        self.map.get(key)
    }

    /// Adds an item to the set of a key; the result says whether it was missing before.
    pub fn add(&mut self, key: K, item: T) -> (added: bool)
        requires
            old(self).wf(),
        ensures
            final(self).wf(),
            final(self).deep_view() == old(self).deep_view().insert(
                key.deep_view(),
                group_at(old(self).deep_view(), key.deep_view()).insert(item.deep_view()),
            ),
            added == !group_at(old(self).deep_view(), key.deep_view()).contains(
                item.deep_view(),
            ),
    {
        let ghost before = *self;
        let ghost k = key.deep_view();
        let ghost x = item.deep_view();
        proof {
            before.map.lemma_places();
        }
        let found = self.map.keys.place(&key);
        if found.1 {
            let index: usize = found.0;
            proof {
                assert(before.map.slots().contains(before.map.slots()[index as int]));
                assert(before.deep_view().dom().contains(before.key_seq()[index as int]));
            }
            let added = self.map.values[index].insert(item);
            proof {
                self.map.lemma_places();
                assert(self.map.key_seq() == before.map.key_seq());
                let m = before.deep_view().insert(k, group_at(before.deep_view(), k).insert(x));
                before.map.keys.lemma_seq();
                assert forall|y: <K as DeepView>::V| #[trigger]
                    self.deep_view().dom().contains(y) implies self.deep_view()[y] == m[y] by {
                    assert(self.map.key_seq().contains(y));
                    let i = choose|i: int|
                        0 <= i < self.map.key_seq().len() && self.map.key_seq()[i] == y;
                    assert(self.map.deep_view().dom().contains(self.map.key_seq()[i]));
                    assert(before.map.deep_view().dom().contains(before.map.key_seq()[i]));
                    assert(self.map.value_seq()[i] == self.map.slots()[i].deep_view());
                    assert(before.map.value_seq()[i] == before.map.slots()[i].deep_view());
                }
                assert(self.deep_view() =~= m);
                assert forall|group: SortedSet<T>| #[trigger]
                    self.inner().slots().contains(group) implies group.wf() by {
                    let i = choose|i: int|
                        0 <= i < self.inner().slots().len() && self.inner().slots()[i] == group;
                    if i != index {
                        assert(before.inner().slots()[i] == group);
                        assert(before.inner().slots().contains(group));
                    }
                }
            }
            added
        } else {
            let mut group = SortedSet::new();
            group.insert(item);
            self.map.insert(key, group);
            true
        }
    }
}

/// A sequence without the elements that repeat the one before them.
pub open spec fn without_repeats<A>(s: Seq<A>) -> Seq<A>
    decreases s.len(),
{
    if s.len() == 0 {
        s
    } else {
        let head = without_repeats(s.drop_last());
        if head.len() > 0 && head.last() == s.last() {
            head
        } else {
            head.push(s.last())
        }
    }
}

/// Removes the items that repeat the one before them.
pub fn remove_repeats<T: Ordered>(items: Vec<T>) -> (kept: Vec<T>)
    ensures
        kept.deep_view() == without_repeats(items.deep_view()),
{
    let ghost all = items.deep_view();
    let mut kept: Vec<T> = no_items();
    proof {
        assert(all.take(0) =~= Seq::<<T as DeepView>::V>::empty());
    }
    for item in it: items
        invariant
            all.len() == it.seq().len(),
            forall|i: int| 0 <= i < all.len() ==> #[trigger] all[i] == it.seq()[i].deep_view(),
            kept.deep_view() == without_repeats(all.take(it.index() as int)),
    {
        proof {
            let count = it.index() as int;
            assert(all[count] == item.deep_view());
            assert(all.take(count + 1).drop_last() =~= all.take(count));
            assert(all.take(count + 1).last() == all[count]);
        }
        let repeats = if kept.len() == 0 {
            false
        } else {
            let last: usize = kept.len() - 1;
            proof {
                assert(kept.deep_view().last() == kept[last as int].deep_view());
                T::irreflexive(item.deep_view());
            }
            match kept[last].rank(&item) {
                Rank::Equal => true,
                _ => false,
            }
        };
        if !repeats {
            push_item(&mut kept, item);
        }
    }
    proof {
        assert(all.take(all.len() as int) =~= all);
    }
    kept
}

/// Inserts an entry behind all entries whose key does not follow its own.
pub open spec fn insert_stable<K: Ordered, T: DeepView>(
    s: Seq<(<K as DeepView>::V, <T as DeepView>::V)>,
    entry: (<K as DeepView>::V, <T as DeepView>::V),
) -> Seq<(<K as DeepView>::V, <T as DeepView>::V)>
    decreases s.len(),
{
    if s.len() == 0 {
        seq![entry]
    } else if K::precedes(entry.0, s.last().0) {
        insert_stable::<K, T>(s.drop_last(), entry).push(s.last())
    } else {
        s.push(entry)
    }
}

/// The entries in ascending order of their keys; entries of one key keep their order.
pub open spec fn stable_sorted<K: Ordered, T: DeepView>(
    s: Seq<(<K as DeepView>::V, <T as DeepView>::V)>,
) -> Seq<(<K as DeepView>::V, <T as DeepView>::V)>
    decreases s.len(),
{
    if s.len() == 0 {
        s
    } else {
        insert_stable::<K, T>(stable_sorted::<K, T>(s.drop_last()), s.last())
    }
}

/// No key precedes the key of an entry before its own.
pub open spec fn key_sorted<K: Ordered, T: DeepView>(
    s: Seq<(<K as DeepView>::V, <T as DeepView>::V)>,
) -> bool {
    forall|i: int, j: int|
        0 <= i < j < s.len() ==> !K::precedes((#[trigger] s[j]).0, (#[trigger] s[i]).0)
}

/// Inserting keeps the keys sorted and adds just the one entry.
proof fn lemma_insert_stable<K: Ordered, T: DeepView>(
    s: Seq<(<K as DeepView>::V, <T as DeepView>::V)>,
    entry: (<K as DeepView>::V, <T as DeepView>::V),
)
    requires
        key_sorted::<K, T>(s),
    ensures
        key_sorted::<K, T>(insert_stable::<K, T>(s, entry)),
        insert_stable::<K, T>(s, entry).to_multiset() == s.to_multiset().insert(entry),
        insert_stable::<K, T>(s, entry).len() == s.len() + 1,
    decreases s.len(),
{
    broadcast use vstd::seq_lib::group_to_multiset_ensures;

    let t = insert_stable::<K, T>(s, entry);
    if s.len() == 0 {
        assert(t =~= s.push(entry));
    } else if K::precedes(entry.0, s.last().0) {
        let head = s.drop_last();
        lemma_insert_stable::<K, T>(head, entry);
        let inner = insert_stable::<K, T>(head, entry);
        assert(s =~= head.push(s.last()));
        assert forall|i: int, j: int| 0 <= i < j < t.len() implies !K::precedes(
            (#[trigger] t[j]).0,
            (#[trigger] t[i]).0,
        ) by {
            if j == t.len() - 1 {
                assert(inner.contains(inner[i]));
                assert(inner.to_multiset().count(inner[i]) > 0);
                if inner[i] == entry {
                    if K::precedes(s.last().0, entry.0) {
                        K::transitive(s.last().0, entry.0, s.last().0);
                        K::irreflexive(s.last().0);
                    }
                } else {
                    assert(head.to_multiset().count(inner[i]) > 0);
                    assert(head.contains(inner[i]));
                    let k = choose|k: int| 0 <= k < head.len() && head[k] == inner[i];
                    assert(s[k] == inner[i]);
                }
            } else {
                assert(t[i] == inner[i]);
                assert(t[j] == inner[j]);
            }
        }
        assert(t.to_multiset() =~= s.to_multiset().insert(entry));
    } else {
        assert forall|i: int, j: int| 0 <= i < j < t.len() implies !K::precedes(
            (#[trigger] t[j]).0,
            (#[trigger] t[i]).0,
        ) by {
            if j == t.len() - 1 {
                let last = s.last();
                if K::precedes(entry.0, s[i].0) {
                    K::total(s[i].0, last.0);
                    if i < s.len() - 1 {
                        if K::precedes(s[i].0, last.0) {
                            K::transitive(entry.0, s[i].0, last.0);
                        }
                    }
                }
            }
        }
    }
}

/// Sorting by key yields the same entries, ascending by key.
pub proof fn lemma_stable_sorted<K: Ordered, T: DeepView>(
    s: Seq<(<K as DeepView>::V, <T as DeepView>::V)>,
)
    ensures
        key_sorted::<K, T>(stable_sorted::<K, T>(s)),
        stable_sorted::<K, T>(s).to_multiset() == s.to_multiset(),
        stable_sorted::<K, T>(s).len() == s.len(),
    decreases s.len(),
{
    broadcast use vstd::seq_lib::group_to_multiset_ensures;

    if s.len() > 0 {
        lemma_stable_sorted::<K, T>(s.drop_last());
        lemma_insert_stable::<K, T>(stable_sorted::<K, T>(s.drop_last()), s.last());
        assert(s =~= s.drop_last().push(s.last()));
        assert(stable_sorted::<K, T>(s).to_multiset() =~= s.to_multiset());
    }
}

/// What is sorted was there before.
pub proof fn lemma_stable_sorted_member<K: Ordered, T: DeepView>(
    s: Seq<(<K as DeepView>::V, <T as DeepView>::V)>,
    index: int,
)
    requires
        0 <= index < stable_sorted::<K, T>(s).len(),
    ensures
        s.contains(stable_sorted::<K, T>(s)[index]),
{
    broadcast use vstd::seq_lib::group_to_multiset_ensures;

    let sorted = stable_sorted::<K, T>(s);
    lemma_stable_sorted::<K, T>(s);
    assert(sorted.contains(sorted[index]));
    assert(sorted.to_multiset().count(sorted[index]) > 0);
}

/// What is collected was picked from an element.
pub proof fn lemma_collected_member<A, B>(s: Seq<A>, f: spec_fn(A) -> Option<B>, item: B) -> (at:
    int)
    requires
        collected(s, f).contains(item),
    ensures
        0 <= at < s.len(),
        f(s[at]) == Some(item),
    decreases s.len(),
{
    if f(s.last()) == Some(item) {
        s.len() - 1
    } else {
        let shorter = collected(s.drop_last(), f);
        let i = choose|i: int| 0 <= i < collected(s, f).len() && collected(s, f)[i] == item;
        assert(shorter[i] == item);
        assert(shorter.contains(item));
        lemma_collected_member(s.drop_last(), f, item)
    }
}

/// A set of places below a bound is finite.
pub proof fn lemma_bounded_finite(set: Set<usize>, bound: int)
    requires
        0 <= bound,
        forall|place: usize| #[trigger] set.contains(place) ==> place < bound,
    ensures
        set.finite(),
    decreases bound,
{
    if bound == 0 {
        assert(set =~= Set::<usize>::empty());
    } else if bound - 1 <= usize::MAX {
        let last = (bound - 1) as usize;
        let rest = set.remove(last);
        lemma_bounded_finite(rest, bound - 1);
        if set.contains(last) {
            assert(set =~= rest.insert(last));
        } else {
            assert(set =~= rest);
        }
    } else {
        lemma_bounded_finite(set, bound - 1);
    }
}

/// Sorting entries whose keys already ascend changes nothing.
pub proof fn lemma_stable_sorted_idempotent<K: Ordered, T: DeepView>(
    s: Seq<(<K as DeepView>::V, <T as DeepView>::V)>,
)
    requires
        key_sorted::<K, T>(s),
    ensures
        stable_sorted::<K, T>(s) == s,
    decreases s.len(),
{
    if s.len() > 0 {
        let head = s.drop_last();
        assert(key_sorted::<K, T>(head)) by {
            assert forall|i: int, j: int| 0 <= i < j < head.len() implies !K::precedes(
                (#[trigger] head[j]).0,
                (#[trigger] head[i]).0,
            ) by {
                assert(head[j] == s[j] && head[i] == s[i]);
            }
        }
        lemma_stable_sorted_idempotent::<K, T>(head);
        if head.len() > 0 {
            assert(head.last() == s[s.len() - 2]);
            assert(!K::precedes(s[s.len() - 1].0, s[s.len() - 2].0));
        }
        assert(s =~= head.push(s.last()));
    }
}

/// Where an entry goes in a sorted sequence, and what comes of putting it there.
proof fn lemma_insert_stable_at<K: Ordered, T: DeepView>(
    s: Seq<(<K as DeepView>::V, <T as DeepView>::V)>,
    entry: (<K as DeepView>::V, <T as DeepView>::V),
    cut: int,
)
    requires
        0 <= cut <= s.len(),
        forall|i: int| cut <= i < s.len() ==> K::precedes(entry.0, (#[trigger] s[i]).0),
        cut > 0 ==> !K::precedes(entry.0, s[cut - 1].0),
    ensures
        insert_stable::<K, T>(s, entry) == s.insert(cut, entry),
    decreases s.len(),
{
    if s.len() == 0 {
        assert(s.insert(cut, entry) =~= seq![entry]);
    } else if cut == s.len() {
        assert(s.insert(cut, entry) =~= s.push(entry));
    } else {
        assert(K::precedes(entry.0, s[s.len() - 1].0));
        let head = s.drop_last();
        assert forall|i: int| cut <= i < head.len() implies K::precedes(
            entry.0,
            (#[trigger] head[i]).0,
        ) by {
            assert(head[i] == s[i]);
        }
        lemma_insert_stable_at::<K, T>(head, entry, cut);
        assert(s.insert(cut, entry) =~= head.insert(cut, entry).push(s.last()));
    }
}

/// Sorts entries by their keys; entries with equal keys keep their order.
pub fn stable_sort<K: Ordered, T: DeepView>(entries: Vec<(K, T)>) -> (sorted: Vec<(K, T)>)
    ensures
        sorted.deep_view() == stable_sorted::<K, T>(entries.deep_view()),
{
    let ghost all = entries.deep_view();
    let mut sorted: Vec<(K, T)> = Vec::new();
    proof {
        assert(sorted.deep_view() =~= Seq::<(<K as DeepView>::V, <T as DeepView>::V)>::empty());
        assert(all.take(0) =~= Seq::<(<K as DeepView>::V, <T as DeepView>::V)>::empty());
    }
    for entry in it: entries
        invariant
            all.len() == it.seq().len(),
            forall|i: int| 0 <= i < all.len() ==> #[trigger] all[i] == it.seq()[i].deep_view(),
            sorted.deep_view() == stable_sorted::<K, T>(all.take(it.index() as int)),
    {
        let ghost done = it.index() as int;
        let ghost s = sorted.deep_view();
        let ghost e = entry.deep_view();
        proof {
            lemma_stable_sorted::<K, T>(all.take(done));
            assert(all[done] == e);
        }
        let mut low: usize = 0;
        let mut high: usize = sorted.len();
        while low < high
            invariant
                s == sorted.deep_view(),
                e == entry.deep_view(),
                key_sorted::<K, T>(s),
                low <= high <= s.len(),
                forall|i: int| high <= i < s.len() ==> K::precedes(e.0, (#[trigger] s[i]).0),
                forall|i: int| 0 <= i < low ==> !K::precedes(e.0, (#[trigger] s[i]).0),
            decreases high - low,
        {
            let middle: usize = low + (high - low) / 2;
            let ghost m = s[middle as int];
            proof {
                assert(m == sorted[middle as int].deep_view());
            }
            let follows = match entry.0.rank(&sorted[middle].0) {
                Rank::Less => true,
                _ => false,
            };
            if follows {
                proof {
                    assert forall|i: int| middle <= i < s.len() implies K::precedes(
                        e.0,
                        (#[trigger] s[i]).0,
                    ) by {
                        if i > middle {
                            K::total(m.0, s[i].0);
                            if K::precedes(m.0, s[i].0) {
                                K::transitive(e.0, m.0, s[i].0);
                            }
                        }
                    }
                }
                high = middle;
            } else {
                proof {
                    if K::precedes(e.0, m.0) {
                        if K::precedes(m.0, e.0) {
                            K::transitive(e.0, m.0, e.0);
                        }
                        K::irreflexive(e.0);
                    }
                    assert forall|i: int| 0 <= i < middle + 1 implies !K::precedes(
                        e.0,
                        (#[trigger] s[i]).0,
                    ) by {
                        if i < middle && K::precedes(e.0, s[i].0) {
                            K::total(s[i].0, m.0);
                            if K::precedes(s[i].0, m.0) {
                                K::transitive(e.0, s[i].0, m.0);
                            }
                        }
                    }
                }
                low = middle + 1;
            }
        }
        proof {
            lemma_insert_stable_at::<K, T>(s, e, low as int);
            assert(all.take(done + 1).drop_last() =~= all.take(done));
            assert(all.take(done + 1).last() == e);
        }
        sorted.insert(low, entry);
        proof {
            assert(sorted.deep_view() =~= s.insert(low as int, e));
        }
    }
    proof {
        assert(all.take(all.len() as int) =~= all);
    }
    sorted
}

/// The second parts of some pairs.
pub open spec fn second<A, B>(pairs: Seq<(A, B)>) -> Seq<B> {
    Seq::new(pairs.len(), |i: int| pairs[i].1)
}

/// Takes the second parts of some pairs.
pub fn take_second<K: DeepView, T: DeepView>(pairs: Vec<(K, T)>) -> (items: Vec<T>)
    ensures
        items.deep_view() == second(pairs.deep_view()),
{
    let ghost all = pairs.deep_view();
    let mut items: Vec<T> = no_items();
    for pair in it: pairs
        invariant
            all.len() == it.seq().len(),
            forall|i: int| 0 <= i < all.len() ==> #[trigger] all[i] == it.seq()[i].deep_view(),
            items.deep_view() =~= second(all).take(it.index() as int),
    {
        proof {
            assert(all[it.index() as int] == pair.deep_view());
        }
        push_item(&mut items, pair.1);
    }
    proof {
        assert(items.deep_view() =~= second(all));
    }
    items
}

/// The first complaint about the places of a sequence, from a place on.
pub open spec fn first_error(
    length: int,
    complaint: spec_fn(int) -> Option<Seq<char>>,
    from: int,
) -> Option<Seq<char>>
    decreases length - from,
{
    if from >= length {
        None
    } else {
        match complaint(from) {
            Some(message) => Some(message),
            None => first_error(length, complaint, from + 1),
        }
    }
}

/// Without a first complaint there is none at any place.
pub proof fn lemma_no_error(length: int, complaint: spec_fn(int) -> Option<Seq<char>>, from: int)
    ensures
        first_error(length, complaint, from) is None ==> forall|i: int|
            from <= i < length ==> #[trigger] complaint(i) is None,
        first_error(length, complaint, from) is Some ==> exists|i: int|
            from <= i < length && #[trigger] complaint(i) == first_error(length, complaint, from),
    decreases length - from,
{
    if from < length {
        lemma_no_error(length, complaint, from + 1);
        if complaint(from) is None {
            assert(first_error(length, complaint, from) == first_error(length, complaint, from + 1));
        }
    }
}

/// Whether an item has a property.
pub open spec fn any_where<A>(s: Seq<A>, property: spec_fn(A) -> bool) -> bool {
    exists|i: int| 0 <= i < s.len() && property(#[trigger] s[i])
}

/// Collects what a function picks from the items.
pub(crate) fn collect_items<A: DeepView, B: DeepView, F: Fn(&A) -> Option<B>>(
    items: &Vec<A>,
    pick: F,
    Ghost(f): Ghost<spec_fn(<A as DeepView>::V) -> Option<<B as DeepView>::V>>,
) -> (list: Vec<B>)
    requires
        forall|item: &A| call_requires(pick, (item,)),
        forall|item: &A, picked: Option<B>|
            call_ensures(pick, (item,), picked) ==> picked.deep_view() == f(item.deep_view()),
    ensures
        list.deep_view() == collected(items.deep_view(), f),
{
    let ghost all = items.deep_view();
    let mut list: Vec<B> = no_items();
    let mut index: usize = 0;
    proof {
        assert(all.take(0) =~= Seq::<<A as DeepView>::V>::empty());
    }
    while index < items.len()
        invariant
            all == items.deep_view(),
            forall|item: &A| call_requires(pick, (item,)),
            forall|item: &A, picked: Option<B>|
                call_ensures(pick, (item,), picked) ==> picked.deep_view() == f(item.deep_view()),
            index <= all.len(),
            list.deep_view() == collected(all.take(index as int), f),
        decreases all.len() - index,
    {
        proof {
            lemma_collected_step(all, f, index as int);
            assert(all[index as int] == items[index as int].deep_view());
        }
        if let Some(picked) = pick(&items[index]) {
            push_item(&mut list, picked);
        }
        index = index + 1;
    }
    proof {
        assert(all.take(all.len() as int) =~= all);
    }
    list
}

/// Collects what a function picks from the items, each once and in order.
pub(crate) fn collect_set<A: DeepView, B: Ordered, F: Fn(&A) -> Option<B>>(
    items: &Vec<A>,
    pick: F,
    Ghost(f): Ghost<spec_fn(<A as DeepView>::V) -> Option<<B as DeepView>::V>>,
) -> (set: SortedSet<B>)
    requires
        forall|item: &A| call_requires(pick, (item,)),
        forall|item: &A, picked: Option<B>|
            call_ensures(pick, (item,), picked) ==> picked.deep_view() == f(item.deep_view()),
    ensures
        set.wf(),
        set.deep_view() == image(items.deep_view(), f),
        set.seq() == ascending::<B>(image(items.deep_view(), f)),
{
    let ghost all = items.deep_view();
    let mut set: SortedSet<B> = SortedSet::new();
    let mut index: usize = 0;
    proof {
        lemma_image_ends(all, f);
    }
    while index < items.len()
        invariant
            all == items.deep_view(),
            forall|item: &A| call_requires(pick, (item,)),
            forall|item: &A, picked: Option<B>|
                call_ensures(pick, (item,), picked) ==> picked.deep_view() == f(item.deep_view()),
            index <= all.len(),
            set.wf(),
            set.deep_view() == image(all.take(index as int), f),
        decreases all.len() - index,
    {
        proof {
            lemma_image_step(all, f, index as int);
            assert(all[index as int] == items[index as int].deep_view());
        }
        if let Some(picked) = pick(&items[index]) {
            set.insert(picked);
        }
        index = index + 1;
    }
    proof {
        lemma_image_ends(all, f);
        set.lemma_seq();
    }
    set
}

/// Whether an item has a property.
pub(crate) fn any_item<A: DeepView, F: Fn(&A) -> bool>(
    items: &Vec<A>,
    test: F,
    Ghost(property): Ghost<spec_fn(<A as DeepView>::V) -> bool>,
) -> (found: bool)
    requires
        forall|item: &A| call_requires(test, (item,)),
        forall|item: &A, result: bool|
            call_ensures(test, (item,), result) ==> result == property(item.deep_view()),
    ensures
        found == any_where(items.deep_view(), property),
{
    let ghost all = items.deep_view();
    let mut index: usize = 0;
    while index < items.len()
        invariant
            all == items.deep_view(),
            forall|item: &A| call_requires(test, (item,)),
            forall|item: &A, result: bool|
                call_ensures(test, (item,), result) ==> result == property(item.deep_view()),
            index <= all.len(),
            forall|i: int| 0 <= i < index ==> !property(#[trigger] all[i]),
        decreases all.len() - index,
    {
        proof {
            assert(all[index as int] == items[index as int].deep_view());
        }
        if test(&items[index]) {
            return true;
        }
        index = index + 1;
    }
    false
}

/// How many items have a property.
pub(crate) fn count_items<A: DeepView, F: Fn(&A) -> bool>(
    items: &Vec<A>,
    test: F,
    Ghost(property): Ghost<spec_fn(<A as DeepView>::V) -> bool>,
) -> (count: usize)
    requires
        forall|item: &A| call_requires(test, (item,)),
        forall|item: &A, result: bool|
            call_ensures(test, (item,), result) ==> result == property(item.deep_view()),
    ensures
        count == count_where(items.deep_view(), property),
        count <= items.len(),
{
    let ghost all = items.deep_view();
    let mut count: usize = 0;
    let mut index: usize = 0;
    proof {
        assert(all.take(0) =~= Seq::<<A as DeepView>::V>::empty());
    }
    while index < items.len()
        invariant
            all == items.deep_view(),
            forall|item: &A| call_requires(test, (item,)),
            forall|item: &A, result: bool|
                call_ensures(test, (item,), result) ==> result == property(item.deep_view()),
            index <= all.len(),
            count <= index,
            count == count_where(all.take(index as int), property),
        decreases all.len() - index,
    {
        proof {
            lemma_count_step(all, property, index as int);
            assert(all[index as int] == items[index as int].deep_view());
        }
        if test(&items[index]) {
            count = count + 1;
        }
        index = index + 1;
    }
    proof {
        assert(all.take(all.len() as int) =~= all);
    }
    count
}

/// The sequences at the first places, one behind the other.
pub open spec fn flattened<B>(count: int, f: spec_fn(int) -> Seq<B>) -> Seq<B>
    decreases count,
{
    if count <= 0 {
        Seq::empty()
    } else {
        flattened(count - 1, f) + f(count - 1)
    }
}

/// What is in the lists put together is in one of them.
pub proof fn lemma_flattened_member<B>(count: int, f: spec_fn(int) -> Seq<B>, item: B) -> (at: int)
    requires
        flattened(count, f).contains(item),
    ensures
        0 <= at < count,
        f(at).contains(item),
    decreases count,
{
    let earlier = flattened(count - 1, f);
    let i = choose|i: int| 0 <= i < flattened(count, f).len() && flattened(count, f)[i] == item;
    if i < earlier.len() {
        assert(earlier[i] == item);
        assert(earlier.contains(item));
        lemma_flattened_member(count - 1, f, item)
    } else {
        assert(f(count - 1)[i - earlier.len()] == item);
        count - 1
    }
}

/// Adds items at the end of others.
pub fn append_items<T: DeepView>(items: &mut Vec<T>, more: Vec<T>)
    ensures
        final(items).deep_view() == old(items).deep_view() + more.deep_view(),
{
    let ghost before = items.deep_view();
    let ghost all = more.deep_view();
    proof {
        assert(before + all.take(0) =~= before);
    }
    for item in it: more
        invariant
            all.len() == it.seq().len(),
            forall|i: int| 0 <= i < all.len() ==> #[trigger] all[i] == it.seq()[i].deep_view(),
            items.deep_view() == before + all.take(it.index() as int),
    {
        proof {
            assert(all[it.index() as int] == item.deep_view());
            assert(before + all.take(it.index() as int + 1) =~= (before + all.take(
                it.index() as int,
            )).push(all[it.index() as int]));
        }
        push_item(items, item);
    }
    proof {
        assert(all.take(all.len() as int) =~= all);
    }
}

/// The last place at which an item has a property.
pub open spec fn last_place<A>(s: Seq<A>, property: spec_fn(A) -> bool) -> Option<int>
    decreases s.len(),
{
    if s.len() == 0 {
        None
    } else if property(s.last()) {
        Some(s.len() - 1)
    } else {
        last_place(s.drop_last(), property)
    }
}

/// Finds the last place at which an item has a property.
pub(crate) fn find_last<A: DeepView, F: Fn(&A) -> bool>(
    items: &Vec<A>,
    test: F,
    Ghost(property): Ghost<spec_fn(<A as DeepView>::V) -> bool>,
) -> (place: Option<usize>)
    requires
        forall|item: &A| call_requires(test, (item,)),
        forall|item: &A, result: bool|
            call_ensures(test, (item,), result) ==> result == property(item.deep_view()),
    ensures
        match place {
            Some(at) => at < items.len() && last_place(items.deep_view(), property) == Some(
                at as int,
            ) && property(items.deep_view()[at as int]),
            None => last_place(items.deep_view(), property) is None,
        },
{
    let ghost all = items.deep_view();
    let mut count: usize = items.len();
    proof {
        assert(all.take(all.len() as int) =~= all);
    }
    while count > 0
        invariant
            all == items.deep_view(),
            forall|item: &A| call_requires(test, (item,)),
            forall|item: &A, result: bool|
                call_ensures(test, (item,), result) ==> result == property(item.deep_view()),
            count <= all.len(),
            last_place(all, property) == last_place(all.take(count as int), property),
        decreases count,
    {
        proof {
            assert(all.take(count as int).drop_last() =~= all.take(count as int - 1));
            assert(all.take(count as int).last() == items[count as int - 1].deep_view());
        }
        if test(&items[count - 1]) {
            return Some(count - 1);
        }
        count = count - 1;
    }
    None
}

/// Whether an item is a value.
pub open spec fn equal_to<A>(value: A) -> spec_fn(A) -> bool {
    |item: A| item == value
}

/// How often a value occurs.
pub open spec fn occurrences<A>(s: Seq<A>, value: A) -> nat {
    count_where(s, equal_to(value))
}

/// How often each value occurs.
pub open spec fn tally<A>(s: Seq<A>) -> Map<A, usize> {
    Map::new(|value: A| s.contains(value), |value: A| occurrences(s, value) as usize)
}

/// Counts how often each value occurs.
pub fn counts<T: Ordered>(values: Vec<T>) -> (counted: SortedMap<T, usize>)
    ensures
        counted.wf(),
        counted.deep_view() == tally(values.deep_view()),
{
    let ghost all = values.deep_view();
    let mut counted: SortedMap<T, usize> = SortedMap::new();
    proof {
        assert(all.len() == values.len());
        assert(all.take(0) =~= Seq::<<T as DeepView>::V>::empty());
        assert(counted.deep_view() =~= tally(all.take(0)));
    }
    for value in it: values
        invariant
            all.len() == it.seq().len(),
            all.len() <= usize::MAX,
            forall|i: int| 0 <= i < all.len() ==> #[trigger] all[i] == it.seq()[i].deep_view(),
            counted.wf(),
            counted.deep_view() == tally(all.take(it.index() as int)),
    {
        let ghost index = it.index() as int;
        let ghost key = all[index];
        let ghost now = all.take(index);
        let ghost next = all.take(index + 1);
        proof {
            assert(key == value.deep_view());
            assert(next =~= now.push(key));
            assert(next.drop_last() =~= now);
            lemma_count_bound(now, equal_to(key));
            assert(now.contains(key) ==> occurrences(now, key) >= 1) by {
                if now.contains(key) {
                    lemma_occurrences(now, key);
                }
            }
            if !now.contains(key) {
                lemma_occurrences(now, key);
            }
        }
        let count: usize = match counted.get(&value) {
            Some(count) => *count,
            None => 0,
        };
        proof {
            assert(count == occurrences(now, key));
            assert(count <= index);
        }
        counted.insert(value, count + 1);
        proof {
            assert forall|other: <T as DeepView>::V| #[trigger]
                next.contains(other) == (now.contains(other) || other == key) by {
                if now.contains(other) {
                    let i = choose|i: int| 0 <= i < now.len() && now[i] == other;
                    assert(next[i] == other);
                }
                assert(next[index] == key);
                if next.contains(other) {
                    let i = choose|i: int| 0 <= i < next.len() && next[i] == other;
                    if i < index {
                        assert(now[i] == other);
                    }
                }
            }
            assert(counted.deep_view() =~= tally(next));
        }
    }
    proof {
        assert(all.take(all.len() as int) =~= all);
    }
    counted
}

/// A value occurs where it is contained.
pub proof fn lemma_occurrences<A>(s: Seq<A>, value: A)
    ensures
        s.contains(value) == (occurrences(s, value) >= 1),
    decreases s.len(),
{
    if s.len() > 0 {
        lemma_occurrences(s.drop_last(), value);
        let head = s.drop_last();
        if head.contains(value) {
            let i = choose|i: int| 0 <= i < head.len() && head[i] == value;
            assert(s[i] == value);
        }
        if s.contains(value) && s.last() != value {
            let i = choose|i: int| 0 <= i < s.len() && s[i] == value;
            assert(head[i] == value);
        }
        if s.last() == value {
            assert(s[s.len() - 1] == value);
        }
    }
}

/// Items by their keys; where several have one key, the last of them.
pub open spec fn indexed<A, K>(s: Seq<A>, key: spec_fn(A) -> K) -> Map<K, A>
    decreases s.len(),
{
    if s.len() == 0 {
        Map::empty()
    } else {
        indexed(s.drop_last(), key).insert(key(s.last()), s.last())
    }
}

/// Indexes items by their keys.
pub(crate) fn index_items<A: DeepView, K: Ordered, F: Fn(&A) -> (K, A)>(
    items: &Vec<A>,
    entry: F,
    Ghost(key): Ghost<spec_fn(<A as DeepView>::V) -> <K as DeepView>::V>,
) -> (map: SortedMap<K, A>)
    requires
        forall|item: &A| call_requires(entry, (item,)),
        forall|item: &A, made: (K, A)|
            call_ensures(entry, (item,), made) ==> made.0.deep_view() == key(item.deep_view())
                && made.1.deep_view() == item.deep_view(),
    ensures
        map.wf(),
        map.deep_view() == indexed(items.deep_view(), key),
{
    let ghost all = items.deep_view();
    let mut map: SortedMap<K, A> = SortedMap::new();
    let mut index: usize = 0;
    proof {
        assert(all.take(0) =~= Seq::<<A as DeepView>::V>::empty());
    }
    while index < items.len()
        invariant
            all == items.deep_view(),
            forall|item: &A| call_requires(entry, (item,)),
            forall|item: &A, made: (K, A)|
                call_ensures(entry, (item,), made) ==> made.0.deep_view() == key(item.deep_view())
                    && made.1.deep_view() == item.deep_view(),
            index <= all.len(),
            map.wf(),
            map.deep_view() == indexed(all.take(index as int), key),
        decreases all.len() - index,
    {
        proof {
            assert(all.take(index as int + 1).drop_last() =~= all.take(index as int));
            assert(all[index as int] == items[index as int].deep_view());
        }
        let made = entry(&items[index]);
        map.insert(made.0, made.1);
        index = index + 1;
    }
    proof {
        assert(all.take(all.len() as int) =~= all);
    }
    map
}

/// What a function picks from the entries of a map, in the order of the keys.
pub open spec fn picked_entries<K: Ordered, W, B>(
    map: Map<<K as DeepView>::V, W>,
    f: spec_fn(<K as DeepView>::V, W) -> Option<B>,
) -> Seq<B> {
    collected(ascending::<K>(map.dom()), |key: <K as DeepView>::V| f(key, map[key]))
}

/// Collects what a function picks from the entries of a map.
pub(crate) fn collect_entries<K: Ordered, W: DeepView, B: DeepView, F: Fn(&K, &W) -> Option<B>>(
    map: &SortedMap<K, W>,
    pick: F,
    Ghost(f): Ghost<
        spec_fn(<K as DeepView>::V, <W as DeepView>::V) -> Option<<B as DeepView>::V>,
    >,
) -> (list: Vec<B>)
    requires
        map.wf(),
        forall|key: &K, value: &W| call_requires(pick, (key, value)),
        forall|key: &K, value: &W, picked: Option<B>|
            call_ensures(pick, (key, value), picked) ==> picked.deep_view() == f(
                key.deep_view(),
                value.deep_view(),
            ),
    ensures
        list.deep_view() == picked_entries::<K, _, _>(map.deep_view(), f),
{
    let ghost view = map.deep_view();
    let ghost keys = map.key_seq();
    let ghost g = |key: <K as DeepView>::V| f(key, view[key]);
    let mut list: Vec<B> = no_items();
    let mut index: usize = 0;
    proof {
        map.lemma_places();
        assert(keys.take(0) =~= Seq::<<K as DeepView>::V>::empty());
    }
    while index < map.len()
        invariant
            map.wf(),
            view == map.deep_view(),
            keys == map.key_seq(),
            g == |key: <K as DeepView>::V| f(key, view[key]),
            forall|key: &K, value: &W| call_requires(pick, (key, value)),
            forall|key: &K, value: &W, picked: Option<B>|
                call_ensures(pick, (key, value), picked) ==> picked.deep_view() == f(
                    key.deep_view(),
                    value.deep_view(),
                ),
            index <= keys.len(),
            list.deep_view() == collected(keys.take(index as int), g),
        decreases keys.len() - index,
    {
        proof {
            map.lemma_places();
            lemma_collected_step(keys, g, index as int);
        }
        let key = map.key_at(index);
        let value = map.value_at(index);
        proof {
            assert(key.deep_view() == keys[index as int]);
            assert(view.dom().contains(keys[index as int]));
            assert(value.deep_view() == view[keys[index as int]]);
        }
        if let Some(picked) = pick(key, value) {
            push_item(&mut list, picked);
        }
        index = index + 1;
    }
    proof {
        assert(keys.take(keys.len() as int) =~= keys);
        map.lemma_places();
    }
    list
}

/// What is left of a state after some steps, or what the first step that failed said.
pub open spec fn folded<S, A>(
    start: S,
    items: Seq<A>,
    step: spec_fn(S, A) -> Result<S, Seq<char>>,
) -> Result<S, Seq<char>>
    decreases items.len(),
{
    if items.len() == 0 {
        Ok(start)
    } else {
        match folded(start, items.drop_last(), step) {
            Ok(state) => step(state, items.last()),
            Err(message) => Err(message),
        }
    }
}

/// One step more; and after a step that failed nothing changes.
pub proof fn lemma_folded_step<S, A>(
    start: S,
    items: Seq<A>,
    step: spec_fn(S, A) -> Result<S, Seq<char>>,
    count: int,
)
    requires
        0 <= count < items.len(),
    ensures
        folded(start, items.take(count + 1), step) == match folded(
            start,
            items.take(count),
            step,
        ) {
            Ok(state) => step(state, items[count]),
            Err(message) => Err(message),
        },
        folded(start, items.take(count + 1), step) matches Err(message) ==> folded(
            start,
            items,
            step,
        ) == Err::<S, Seq<char>>(message),
{
    assert(items.take(count + 1).drop_last() =~= items.take(count));
    lemma_folded_error(start, items, step, count + 1);
}

/// A failure stays the result.
proof fn lemma_folded_error<S, A>(
    start: S,
    items: Seq<A>,
    step: spec_fn(S, A) -> Result<S, Seq<char>>,
    count: int,
)
    requires
        0 <= count <= items.len(),
    ensures
        folded(start, items.take(count), step) matches Err(message) ==> folded(start, items, step)
            == Err::<S, Seq<char>>(message),
    decreases items.len() - count,
{
    if count < items.len() {
        assert(items.take(count + 1).drop_last() =~= items.take(count));
        lemma_folded_error(start, items, step, count + 1);
    } else {
        assert(items.take(count) =~= items);
    }
}

/// The values of a map, in the order of the keys.
pub open spec fn values_of<K: Ordered, W>(map: Map<<K as DeepView>::V, W>) -> Seq<W> {
    Seq::new(ascending::<K>(map.dom()).len(), |i: int| map[ascending::<K>(map.dom())[i]])
}

impl<K: Ordered, W: DeepView> SortedMap<K, W> {
    /// Takes the values, in the order of the keys.
    pub fn into_values(self) -> (values: Vec<W>)
        requires
            self.wf(),
        ensures
            values.deep_view() == values_of::<K, _>(self.deep_view()),
    {
        proof {
            self.lemma_places();
            assert forall|i: int| 0 <= i < self.key_seq().len() implies #[trigger] self.value_seq()[i]
                == self.deep_view()[self.key_seq()[i]] by {
                assert(self.deep_view().dom().contains(self.key_seq()[i]));
            }
            assert(self.value_seq() =~= values_of::<K, _>(self.deep_view()));
        }
        self.values
    }
}

/// Finds the first item with a property.
pub(crate) fn find_first<'a, A: DeepView, F: Fn(&A) -> bool>(
    items: &'a Vec<A>,
    test: F,
    Ghost(property): Ghost<spec_fn(<A as DeepView>::V) -> bool>,
) -> (found: Option<&'a A>)
    requires
        forall|item: &A| call_requires(test, (item,)),
        forall|item: &A, result: bool|
            call_ensures(test, (item,), result) ==> result == property(item.deep_view()),
    ensures
        found.deep_view() == first_where(items.deep_view(), property),
{
    let ghost all = items.deep_view();
    let mut index: usize = 0;
    proof {
        lemma_first_where(all, property);
    }
    while index < items.len()
        invariant
            all == items.deep_view(),
            forall|item: &A| call_requires(test, (item,)),
            forall|item: &A, result: bool|
                call_ensures(test, (item,), result) ==> result == property(item.deep_view()),
            index <= all.len(),
            first_where(all, property) == first_where(all.skip(index as int), property),
        decreases all.len() - index,
    {
        proof {
            lemma_first_where_step(all, property, index as int);
            assert(all[index as int] == items[index as int].deep_view());
        }
        if test(&items[index]) {
            return Some(&items[index]);
        }
        index = index + 1;
    }
    proof {
        assert(all.skip(all.len() as int) =~= Seq::<<A as DeepView>::V>::empty());
    }
    None
}

/// The entries but those whose key is that of the entry kept before.
pub open spec fn first_per_key<K, T>(s: Seq<(K, T)>) -> Seq<(K, T)>
    decreases s.len(),
{
    if s.len() == 0 {
        s
    } else {
        let kept = first_per_key(s.drop_last());
        if kept.len() > 0 && kept.last().0 == s.last().0 {
            kept
        } else {
            kept.push(s.last())
        }
    }
}

/// Drops the entries whose key is that of the entry kept before.
pub fn drop_repeated_keys<K: Ordered, T: DeepView>(entries: Vec<(K, T)>) -> (kept: Vec<(K, T)>)
    ensures
        kept.deep_view() == first_per_key(entries.deep_view()),
{
    let ghost all = entries.deep_view();
    let mut kept: Vec<(K, T)> = no_items();
    proof {
        assert(all.take(0) =~= Seq::<(<K as DeepView>::V, <T as DeepView>::V)>::empty());
        assert(kept.deep_view() =~= all.take(0));
    }
    for entry in it: entries
        invariant
            all.len() == it.seq().len(),
            forall|i: int| 0 <= i < all.len() ==> #[trigger] all[i] == it.seq()[i].deep_view(),
            kept.deep_view() == first_per_key(all.take(it.index() as int)),
    {
        let ghost at = it.index() as int;
        let ghost held = kept.deep_view();
        proof {
            assert(all[at] == entry.deep_view());
            assert(all.take(at + 1).drop_last() =~= all.take(at));
            assert(all.take(at + 1).last() == entry.deep_view());
            assert(held.len() == kept.len());
        }
        let repeated = if kept.len() == 0 {
            false
        } else {
            let last = kept.len() - 1;
            proof {
                assert(held.last() == kept[last as int].deep_view());
                K::irreflexive(entry.0.deep_view());
            }
            match kept[last].0.rank(&entry.0) {
                Rank::Equal => true,
                _ => false,
            }
        };
        if !repeated {
            push_item(&mut kept, entry);
        }
    }
    proof {
        assert(all.take(all.len() as int) =~= all);
    }
    kept
}

/// The last entry for each key.
pub open spec fn assembled<K, T>(entries: Seq<(K, T)>) -> Map<K, T>
    decreases entries.len(),
{
    if entries.len() == 0 {
        Map::empty()
    } else {
        assembled(entries.drop_last()).insert(entries.last().0, entries.last().1)
    }
}

/// Keeps the last entry for each key.
pub fn assemble<K: Ordered, T: DeepView>(entries: Vec<(K, T)>) -> (map: SortedMap<K, T>)
    ensures
        map.wf(),
        map.deep_view() == assembled(entries.deep_view()),
{
    let ghost all = entries.deep_view();
    let mut map: SortedMap<K, T> = SortedMap::new();
    proof {
        assert(all.take(0) =~= Seq::<(<K as DeepView>::V, <T as DeepView>::V)>::empty());
        assert(map.deep_view() =~= Map::empty());
    }
    for entry in it: entries
        invariant
            all.len() == it.seq().len(),
            forall|i: int| 0 <= i < all.len() ==> #[trigger] all[i] == it.seq()[i].deep_view(),
            map.wf(),
            map.deep_view() == assembled(all.take(it.index() as int)),
    {
        let ghost at = it.index() as int;
        proof {
            assert(all[at] == entry.deep_view());
            assert(all.take(at + 1).drop_last() =~= all.take(at));
        }
        map.insert(entry.0, entry.1);
    }
    proof {
        assert(all.take(all.len() as int) =~= all);
    }
    map
}

/// Adds the members of one set to another.
pub fn add_members<T: Ordered + Clone>(set: &mut SortedSet<T>, more: &SortedSet<T>)
    requires
        old(set).wf(),
        more.wf(),
        forall|item: &T, copy: T|
            call_ensures(T::clone, (item,), copy) ==> copy.deep_view() == item.deep_view(),
    ensures
        final(set).wf(),
        final(set).deep_view() == old(set).deep_view().union(more.deep_view()),
{
    let ghost before = set.deep_view();
    let ghost all = more.seq();
    let mut index: usize = 0;
    proof {
        assert(all.take(0).to_set() =~= Set::empty());
        assert(before.union(all.take(0).to_set()) =~= before);
    }
    while index < more.len()
        invariant
            more.wf(),
            all == more.seq(),
            set.wf(),
            forall|item: &T, copy: T|
                call_ensures(T::clone, (item,), copy) ==> copy.deep_view() == item.deep_view(),
            index <= all.len(),
            set.deep_view() == before.union(all.take(index as int).to_set()),
        decreases all.len() - index,
    {
        let item = more.get(index).clone();
        proof {
            lemma_prefix_set(all, index as int);
        }
        let ghost added = item.deep_view();
        set.insert(item);
        proof {
            assert(before.union(all.take(index as int).to_set()).insert(added) =~= before.union(
                all.take(index as int).to_set().insert(added),
            ));
        }
        index = index + 1;
    }
    proof {
        assert(all.take(all.len() as int) =~= all);
    }
}

/// What is picked from finitely many items is finite.
pub proof fn lemma_image_finite<A, B>(s: Seq<A>, f: spec_fn(A) -> Option<B>)
    ensures
        image(s, f).finite(),
    decreases s.len(),
{
    if s.len() == 0 {
        assert(image(s, f) =~= Set::empty());
    } else {
        lemma_image_finite(s.drop_last(), f);
        lemma_image_step(s, f, s.len() - 1);
        assert(s.take(s.len() - 1) =~= s.drop_last());
        assert(s.take(s.len() as int) =~= s);
    }
}

/// What a function picks at the first places.
pub open spec fn chosen<B>(count: int, f: spec_fn(int) -> Option<B>) -> Seq<B>
    decreases count,
{
    if count <= 0 {
        Seq::empty()
    } else {
        match f(count - 1) {
            Some(item) => chosen(count - 1, f).push(item),
            None => chosen(count - 1, f),
        }
    }
}

/// Collects what a function picks at the first places.
pub(crate) fn collect_places<B: DeepView, F: Fn(usize) -> Option<B>>(
    count: usize,
    pick: F,
    Ghost(f): Ghost<spec_fn(int) -> Option<<B as DeepView>::V>>,
) -> (list: Vec<B>)
    requires
        forall|place: usize| place < count ==> call_requires(pick, (place,)),
        forall|place: usize, picked: Option<B>|
            place < count && call_ensures(pick, (place,), picked) ==> picked.deep_view() == f(
                place as int,
            ),
    ensures
        list.deep_view() == chosen(count as int, f),
{
    let mut list: Vec<B> = no_items();
    let mut place: usize = 0;
    while place < count
        invariant
            forall|place: usize| place < count ==> call_requires(pick, (place,)),
            forall|place: usize, picked: Option<B>|
                place < count && call_ensures(pick, (place,), picked) ==> picked.deep_view() == f(
                    place as int,
                ),
            place <= count,
            list.deep_view() == chosen(place as int, f),
        decreases count - place,
    {
        if let Some(item) = pick(place) {
            push_item(&mut list, item);
        }
        place = place + 1;
    }
    list
}

/// Collects the sequences at the first places, one behind the other.
pub(crate) fn flatten_places<B: DeepView, F: Fn(usize) -> Vec<B>>(
    count: usize,
    pick: F,
    Ghost(f): Ghost<spec_fn(int) -> Seq<<B as DeepView>::V>>,
) -> (list: Vec<B>)
    requires
        forall|place: usize| place < count ==> call_requires(pick, (place,)),
        forall|place: usize, picked: Vec<B>|
            place < count && call_ensures(pick, (place,), picked) ==> picked.deep_view() == f(
                place as int,
            ),
    ensures
        list.deep_view() == flattened(count as int, f),
{
    let mut list: Vec<B> = no_items();
    let mut place: usize = 0;
    while place < count
        invariant
            forall|place: usize| place < count ==> call_requires(pick, (place,)),
            forall|place: usize, picked: Vec<B>|
                place < count && call_ensures(pick, (place,), picked) ==> picked.deep_view() == f(
                    place as int,
                ),
            place <= count,
            list.deep_view() == flattened(place as int, f),
        decreases count - place,
    {
        append_items(&mut list, pick(place));
        place = place + 1;
    }
    list
}

/// The first entry for each key.
pub open spec fn earliest<K, T>(entries: Seq<(K, T)>) -> Map<K, T>
    decreases entries.len(),
{
    if entries.len() == 0 {
        Map::empty()
    } else {
        let before = earliest(entries.drop_last());
        if before.contains_key(entries.last().0) {
            before
        } else {
            before.insert(entries.last().0, entries.last().1)
        }
    }
}

/// Keeps the first entry for each key.
pub fn keep_earliest<K: Ordered, T: DeepView>(entries: Vec<(K, T)>) -> (map: SortedMap<K, T>)
    ensures
        map.wf(),
        map.deep_view() == earliest(entries.deep_view()),
{
    let ghost all = entries.deep_view();
    let mut map: SortedMap<K, T> = SortedMap::new();
    proof {
        assert(all.take(0) =~= Seq::<(<K as DeepView>::V, <T as DeepView>::V)>::empty());
        assert(map.deep_view() =~= Map::empty());
    }
    for entry in it: entries
        invariant
            all.len() == it.seq().len(),
            forall|i: int| 0 <= i < all.len() ==> #[trigger] all[i] == it.seq()[i].deep_view(),
            map.wf(),
            map.deep_view() == earliest(all.take(it.index() as int)),
    {
        let ghost at = it.index() as int;
        proof {
            assert(all[at] == entry.deep_view());
            assert(all.take(at + 1).drop_last() =~= all.take(at));
        }
        if !map.contains_key(&entry.0) {
            map.insert(entry.0, entry.1);
        }
    }
    proof {
        assert(all.take(all.len() as int) =~= all);
    }
    map
}

/// A function that picks something from every item yields one thing for each.
pub proof fn lemma_collected_whole<A, B>(s: Seq<A>, f: spec_fn(A) -> Option<B>)
    requires
        forall|a: A| (#[trigger] f(a)) is Some,
    ensures
        collected(s, f).len() == s.len(),
        forall|i: int| 0 <= i < s.len() ==> f(s[i]) == Some(#[trigger] collected(s, f)[i]),
    decreases s.len(),
{
    if s.len() > 0 {
        lemma_collected_whole(s.drop_last(), f);
        assert(f(s.last()) is Some);
    }
}

/// Where keys ascend, those of the entries that are kept ascend strictly.
pub proof fn lemma_first_per_key<K: Ordered, T: DeepView>(
    s: Seq<(<K as DeepView>::V, <T as DeepView>::V)>,
)
    requires
        key_sorted::<K, T>(s),
    ensures
        forall|i: int, j: int|
            0 <= i < j < first_per_key(s).len() ==> K::precedes(
                (#[trigger] first_per_key(s)[i]).0,
                (#[trigger] first_per_key(s)[j]).0,
            ),
        s.len() > 0 ==> first_per_key(s).len() > 0 && first_per_key(s).last().0 == s.last().0,
    decreases s.len(),
{
    if s.len() > 0 {
        let head = s.drop_last();
        let held = first_per_key(head);
        assert(key_sorted::<K, T>(head)) by {
            assert forall|i: int, j: int| 0 <= i < j < head.len() implies !K::precedes(
                (#[trigger] head[j]).0,
                (#[trigger] head[i]).0,
            ) by {
                assert(head[j] == s[j] && head[i] == s[i]);
            }
        }
        lemma_first_per_key::<K, T>(head);
        let kept = first_per_key(s);
        if head.len() > 0 && held.last().0 != s.last().0 {
            assert(!K::precedes(s[s.len() - 1].0, s[s.len() - 2].0));
            K::total(held.last().0, s.last().0);
            assert forall|i: int, j: int| 0 <= i < j < kept.len() implies K::precedes(
                (#[trigger] kept[i]).0,
                (#[trigger] kept[j]).0,
            ) by {
                if j == held.len() && i < held.len() - 1 {
                    assert(K::precedes(held[i].0, held[held.len() - 1].0));
                    K::transitive(held[i].0, held.last().0, s.last().0);
                }
            }
        }
    }
}

/// What is kept is among the entries.
pub proof fn lemma_first_per_key_kept<K, T>(s: Seq<(K, T)>, index: int)
    requires
        0 <= index < first_per_key(s).len(),
    ensures
        exists|i: int| 0 <= i < s.len() && #[trigger] s[i] == first_per_key(s)[index],
    decreases s.len(),
{
    if s.len() > 0 {
        let held = first_per_key(s.drop_last());
        if index < held.len() {
            lemma_first_per_key_kept(s.drop_last(), index);
            let i = choose|i: int|
                0 <= i < s.drop_last().len() && #[trigger] s.drop_last()[i] == held[index];
            assert(s[i] == held[index]);
        } else {
            assert(s[s.len() - 1] == first_per_key(s)[index]);
        }
    }
}

/// Keys with their places.
pub open spec fn numbered<K>(keys: Seq<K>) -> Seq<(K, usize)> {
    Seq::new(keys.len(), |i: int| (keys[i], i as usize))
}

/// The places of keys; of a key that occurs twice, the last one.
pub open spec fn key_places<K>(keys: Seq<K>) -> Map<K, usize> {
    assembled(numbered(keys))
}

/// The place of a key, where it has one.
pub open spec fn key_place<K>(keys: Seq<K>, key: K) -> Option<usize> {
    if key_places(keys).contains_key(key) {
        Some(key_places(keys)[key])
    } else {
        None
    }
}

/// The place of a key holds that key.
pub proof fn lemma_key_place<K>(keys: Seq<K>, key: K)
    requires
        keys.len() <= usize::MAX,
    ensures
        key_place(keys, key) matches Some(place) ==> place < keys.len() && keys[place as int]
            == key,
{
    lemma_numbered(keys, numbered(keys), key);
}

proof fn lemma_numbered<K>(keys: Seq<K>, entries: Seq<(K, usize)>, key: K)
    requires
        entries.len() <= keys.len() <= usize::MAX,
        forall|i: int| 0 <= i < entries.len() ==> #[trigger] entries[i] == (keys[i], i as usize),
    ensures
        assembled(entries).contains_key(key) ==> assembled(entries)[key] < keys.len()
            && keys[assembled(entries)[key] as int] == key,
    decreases entries.len(),
{
    if entries.len() > 0 {
        lemma_numbered(keys, entries.drop_last(), key);
    }
}

/// Finds the places of keys.
pub fn index_keys<K: Ordered>(keys: Vec<K>) -> (places: SortedMap<K, usize>)
    ensures
        places.wf(),
        places.deep_view() == key_places(keys.deep_view()),
{
    let ghost all = keys.deep_view();
    let mut entries: Vec<(K, usize)> = no_items();
    let mut place: usize = 0;
    proof {
        assert(all.len() == keys.len());
    }
    for key in it: keys
        invariant
            all.len() == it.seq().len(),
            all.len() <= usize::MAX,
            forall|i: int| 0 <= i < all.len() ==> #[trigger] all[i] == it.seq()[i].deep_view(),
            place == it.index(),
            place <= all.len(),
            entries.deep_view() =~= numbered(all).take(place as int),
    {
        proof {
            assert(all[place as int] == key.deep_view());
        }
        push_item(&mut entries, (key, place));
        place = place + 1;
    }
    proof {
        assert(entries.deep_view() =~= numbered(all));
    }
    assemble(entries)
}

} // verus!
