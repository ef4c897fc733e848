//! A stable sort for lists whose order is given by a type.
use vstd::prelude::*;

verus! {

/// A total preorder on what values of `T` hold, and a way to test it.
pub trait Order<T: View> {
    /// `a` may stand before `b`.
    spec fn le(a: T::V, b: T::V) -> bool;

    /// Of two values one may stand before the other.
    proof fn total(a: T::V, b: T::V)
        ensures
            Self::le(a, b) || Self::le(b, a),
    ;

    /// What may stand before the middle may stand before what may stand behind it.
    proof fn transitive(a: T::V, b: T::V, c: T::V)
        requires
            Self::le(a, b),
            Self::le(b, c),
        ensures
            Self::le(a, c),
    ;

    /// Tells whether `a` may stand before `b`.
    fn is_le(a: &T, b: &T) -> (r: bool)
        ensures
            r == Self::le(a@, b@),
    ;
}

/// What the values of a list hold.
pub open spec fn views<T: View>(list: Seq<T>) -> Seq<T::V> {
    list.map_values(|t: T| t@)
}

/// Each value may stand before those behind it.
pub open spec fn is_sorted<V>(le: spec_fn(V, V) -> bool, s: Seq<V>) -> bool {
    forall|i: int, j: int| 0 <= i < j < s.len() ==> le(#[trigger] s[i], #[trigger] s[j])
}

/// The values of `s` that share their place in the order with `x`, in the order of `s`.
pub open spec fn peers<V>(le: spec_fn(V, V) -> bool, s: Seq<V>, x: V) -> Seq<V> {
    s.filter(|y: V| le(x, y) && le(y, x))
}

/// `output` is `input` in order, where values that share their place stay as they were.
pub open spec fn is_stable_sort<V>(
    le: spec_fn(V, V) -> bool,
    input: Seq<V>,
    output: Seq<V>,
) -> bool {
    &&& output.len() == input.len()
    &&& is_sorted(le, output)
    &&& forall|x: V| #[trigger] peers(le, output, x) == peers(le, input, x)
}

/// The order that `O` gives, as a function.
pub open spec fn order<T: View, O: Order<T>>() -> spec_fn(T::V, T::V) -> bool {
    |a: T::V, b: T::V| O::le(a, b)
}

/// A value put into a sorted list behind all that may stand before it is the last of
/// its peers.
proof fn insertion_keeps_peers<T: View, O: Order<T>>(s: Seq<T::V>, at: int, v: T::V, x: T::V)
    requires
        0 <= at <= s.len(),
        forall|i: int| 0 <= i < at ==> O::le(#[trigger] s[i], v),
        forall|i: int| at <= i < s.len() ==> !O::le(#[trigger] s[i], v),
    ensures
        peers(order::<T, O>(), s.insert(at, v), x) == peers(order::<T, O>(), s.push(v), x),
{
    let le = order::<T, O>();
    let p = |y: T::V| le(x, y) && le(y, x);
    let front = s.take(at);
    let back = s.skip(at);
    assert(s.insert(at, v) =~= front + seq![v] + back);
    assert(s.push(v) =~= front + back + seq![v]);
    Seq::filter_distributes_over_add(front + seq![v], back, p);
    Seq::filter_distributes_over_add(front, seq![v], p);
    Seq::filter_distributes_over_add(front + back, seq![v], p);
    Seq::filter_distributes_over_add(front, back, p);
    if p(v) {
        assert forall|i: int| 0 <= i < back.len() implies !p(#[trigger] back[i]) by {
            if p(back[i]) {
                O::transitive(back[i], x, v);
                assert(s[at + i] == back[i]);
            }
        }
        none_pass(back, p);
        assert(back.filter(p) =~= Seq::empty());
    } else {
        none_pass(seq![v], p);
    }
    assert(s.insert(at, v).filter(p) =~= s.push(v).filter(p));
}

/// A list none of whose values passes a test is empty once filtered by it.
proof fn none_pass<V>(s: Seq<V>, p: spec_fn(V) -> bool)
    requires
        forall|i: int| 0 <= i < s.len() ==> !p(#[trigger] s[i]),
    ensures
        s.filter(p) == Seq::<V>::empty(),
    decreases s.len(),
{
    reveal(Seq::filter);
    if s.len() > 0 {
        none_pass(s.drop_last(), p);
        assert(!p(s[s.len() - 1]));
    }
}

/// Where `v` goes in a sorted list: behind all that may stand before it.
fn place<T: View, O: Order<T>>(list: &Vec<T>, v: &T) -> (r: usize)
    requires
        is_sorted(order::<T, O>(), views(list@)),
    ensures
        r <= list@.len(),
        forall|i: int| 0 <= i < r ==> O::le(#[trigger] views(list@)[i], v@),
        forall|i: int| r <= i < list@.len() ==> !O::le(#[trigger] views(list@)[i], v@),
{
    let ghost s = views(list@);
    let mut low: usize = 0;
    let mut high: usize = list.len();
    while low < high
        invariant
            low <= high <= list@.len(),
            s == views(list@),
            is_sorted(order::<T, O>(), s),
            forall|i: int| 0 <= i < low ==> O::le(#[trigger] s[i], v@),
            forall|i: int| high <= i < s.len() ==> !O::le(#[trigger] s[i], v@),
        decreases high - low,
    {
        let middle: usize = low + (high - low) / 2;
        assert(s[middle as int] == list@[middle as int]@);
        if O::is_le(&list[middle], v) {
            assert forall|i: int| 0 <= i < middle + 1 implies O::le(#[trigger] s[i], v@) by {
                if i < middle {
                    assert(order::<T, O>()(s[i], s[middle as int]));
                    O::transitive(s[i], s[middle as int], v@);
                }
            }
            low = middle + 1;
        } else {
            assert forall|i: int| middle <= i < s.len() implies !O::le(#[trigger] s[i], v@) by {
                if i > middle && O::le(s[i], v@) {
                    assert(order::<T, O>()(s[middle as int], s[i]));
                    O::transitive(s[middle as int], s[i], v@);
                }
            }
            high = middle;
        }
    }
    low
}

/// Sorts a list; values that share their place in the order stay as they were.
pub fn stable_sort<T: View, O: Order<T>>(list: Vec<T>) -> (r: Vec<T>)
    ensures
        is_stable_sort(order::<T, O>(), views(list@), views(r@)),
{
    let mut r: Vec<T> = Vec::new();
    let ghost le = order::<T, O>();
    let ghost input = views(list@);
    assert(views(r@) =~= input.take(0));
    for v in it: list
        invariant
            it.seq() == list@,
            input == views(list@),
            le == order::<T, O>(),
            r@.len() == it.index(),
            is_stable_sort(le, input.take(it.index()), views(r@)),
    {
        let at = place::<T, O>(&r, &v);
        let ghost s = views(r@);
        r.insert(at, v);
        proof {
            let before = input.take(it.index());
            let after = input.take(it.index() + 1);
            assert(after =~= before.push(v@));
            assert(views(r@) =~= s.insert(at as int, v@));
            assert forall|x: T::V| #[trigger] peers(le, views(r@), x) == peers(le, after, x) by {
                insertion_keeps_peers::<T, O>(s, at as int, v@, x);
                let p = |y: T::V| le(x, y) && le(y, x);
                assert(s.push(v@) =~= s + seq![v@]);
                assert(before.push(v@) =~= before + seq![v@]);
                Seq::filter_distributes_over_add(s, seq![v@], p);
                Seq::filter_distributes_over_add(before, seq![v@], p);
                assert(peers(le, s, x) == peers(le, before, x));
            }
            assert forall|i: int, j: int| 0 <= i < j < views(r@).len() implies le(
                #[trigger] views(r@)[i],
                #[trigger] views(r@)[j],
            ) by {
                let t = views(r@);
                let k = if i < at { i } else { i - 1 };
                let l = if j < at { j } else { j - 1 };
                if i != at && j != at {
                    assert(t[i] == s[k] && t[j] == s[l]);
                    assert(le(s[k], s[l]));
                } else if i == at {
                    assert(t[j] == s[l]);
                    O::total(s[l], v@);
                }
            }
        }
    }
    assert(input.take(list@.len() as int) =~= input);
    r
}

/// A stable sort holds what its input holds.
pub proof fn stable_sort_keeps_values<T: View, O: Order<T>>(
    input: Seq<T::V>,
    output: Seq<T::V>,
    v: T::V,
)
    requires
        is_stable_sort(order::<T, O>(), input, output),
    ensures
        input.contains(v) == output.contains(v),
{
    broadcast use Seq::lemma_filter_contains;

    let le = order::<T, O>();
    let p = |y: T::V| le(v, y) && le(y, v);
    O::total(v, v);
    assert(peers(le, output, v) == peers(le, input, v));
    if input.contains(v) {
        let i = input.index_of(v);
        assert(input.filter(p).contains(input[i]));
        filter_is_contained(output, p, v);
    }
    if output.contains(v) {
        let i = output.index_of(v);
        assert(output.filter(p).contains(output[i]));
        filter_is_contained(input, p, v);
    }
}

/// What passes a filter occurs as often as before.
proof fn filter_keeps_count<V>(s: Seq<V>, p: spec_fn(V) -> bool, v: V)
    requires
        p(v),
    ensures
        s.filter(p).to_multiset().count(v) == s.to_multiset().count(v),
    decreases s.len(),
{
    broadcast use vstd::seq_lib::group_to_multiset_ensures;

    reveal(Seq::filter);
    if s.len() > 0 {
        let rest = s.drop_last();
        filter_keeps_count(rest, p, v);
        assert(s =~= rest.push(s.last()));
    } else {
        assert(s.filter(p) =~= s);
    }
}

/// A stable sort holds each value as often as its input does.
pub proof fn stable_sort_keeps_counts<T: View, O: Order<T>>(input: Seq<T::V>, output: Seq<T::V>)
    requires
        is_stable_sort(order::<T, O>(), input, output),
    ensures
        output.to_multiset() == input.to_multiset(),
{
    let le = order::<T, O>();
    assert forall|v: T::V| #[trigger]
        output.to_multiset().count(v) == input.to_multiset().count(v) by {
        let p = |y: T::V| le(v, y) && le(y, v);
        O::total(v, v);
        assert(peers(le, output, v) == peers(le, input, v));
        filter_keeps_count(input, p, v);
        filter_keeps_count(output, p, v);
    }
    assert(output.to_multiset() =~= input.to_multiset());
}

/// Where no value occurs twice, none does after a stable sort.
pub proof fn stable_sort_keeps_distinct<T: View, O: Order<T>>(input: Seq<T::V>, output: Seq<T::V>)
    requires
        is_stable_sort(order::<T, O>(), input, output),
        input.no_duplicates(),
    ensures
        output.no_duplicates(),
{
    input.unique_seq_to_set();
    assert forall|v: T::V| #[trigger] output.to_set().contains(v) == input.to_set().contains(v) by {
        stable_sort_keeps_values::<T, O>(input, output, v);
    }
    assert(output.to_set() =~= input.to_set());
    output.lemma_no_dup_set_cardinality();
}

/// What passes a filter was there before.
pub proof fn filter_is_contained<V>(s: Seq<V>, p: spec_fn(V) -> bool, v: V)
    requires
        s.filter(p).contains(v),
    ensures
        s.contains(v),
        p(v),
    decreases s.len(),
{
    reveal(Seq::filter);
    if s.len() > 0 {
        let rest = s.drop_last().filter(p);
        if rest.contains(v) {
            filter_is_contained(s.drop_last(), p, v);
            let i = s.drop_last().index_of(v);
            assert(s[i] == v);
        } else {
            let i = s.filter(p).index_of(v);
            assert(s.filter(p)[i] == v);
            if p(s.last()) && i == rest.len() {
                assert(s[s.len() - 1] == v);
            } else {
                assert(rest[i] == v);
            }
        }
    }
}

/// A filtered list starts with its first value, where that passes.
proof fn filter_of_first<V>(s: Seq<V>, p: spec_fn(V) -> bool)
    requires
        s.len() > 0,
    ensures
        s.filter(p) == (if p(s[0]) {
            seq![s[0]]
        } else {
            Seq::empty()
        }) + s.drop_first().filter(p),
{
    assert(s =~= seq![s[0]] + s.drop_first());
    Seq::filter_distributes_over_add(seq![s[0]], s.drop_first(), p);
    reveal(Seq::filter);
    assert(seq![s[0]].drop_last() =~= Seq::empty());
    assert(seq![s[0]].filter(p) =~= (if p(s[0]) {
        seq![s[0]]
    } else {
        Seq::empty()
    })) by {
        assert(seq![s[0]].drop_last().filter(p) =~= Seq::empty());
    }
}

/// A list has one stable sort only.
pub proof fn stable_sort_is_unique<T: View, O: Order<T>>(
    input: Seq<T::V>,
    a: Seq<T::V>,
    b: Seq<T::V>,
)
    requires
        is_stable_sort(order::<T, O>(), input, a),
        is_stable_sort(order::<T, O>(), input, b),
    ensures
        a == b,
{
    let le = order::<T, O>();
    assert forall|x: T::V| #[trigger] peers(le, a, x) == peers(le, b, x) by {
        assert(peers(le, a, x) == peers(le, input, x));
    }
    sorted_by_peers::<T, O>(a, b);
}

proof fn sorted_by_peers<T: View, O: Order<T>>(a: Seq<T::V>, b: Seq<T::V>)
    requires
        is_sorted(order::<T, O>(), a),
        is_sorted(order::<T, O>(), b),
        forall|x: T::V| #[trigger]
            peers(order::<T, O>(), a, x) == peers(order::<T, O>(), b, x),
    ensures
        a == b,
    decreases a.len(),
{
    let le = order::<T, O>();
    if a.len() == 0 && b.len() == 0 {
        assert(a =~= b);
    } else if a.len() == 0 {
        O::total(b[0], b[0]);
        filter_of_first(b, |y: T::V| le(b[0], y) && le(y, b[0]));
        assert(peers(le, b, b[0]).len() > 0);
        assert(peers(le, a, b[0]) == peers(le, b, b[0]));
        a.lemma_filter_len(|y: T::V| le(b[0], y) && le(y, b[0]));
    } else {
        let x = a[0];
        let p = |y: T::V| le(x, y) && le(y, x);
        O::total(x, x);
        filter_of_first(a, p);
        assert(peers(le, a, x) == peers(le, b, x));
        assert(b.filter(p)[0] == x);
        assert(b.filter(p).contains(x));
        filter_is_contained(b, p, x);
        let i = b.index_of(x);
        let z = b[0];
        let q = |y: T::V| le(z, y) && le(y, z);
        O::total(z, z);
        filter_of_first(b, q);
        assert(peers(le, a, z) == peers(le, b, z));
        assert(a.filter(q)[0] == z);
        assert(a.filter(q).contains(z));
        filter_is_contained(a, q, z);
        let j = a.index_of(z);
        assert(le(x, z)) by {
            if j > 0 {
                assert(le(a[0], a[j]));
            }
        }
        assert(le(z, x)) by {
            if i > 0 {
                assert(le(b[0], b[i]));
            }
        }
        filter_of_first(b, p);
        assert(x == z);
        assert forall|w: T::V| #[trigger]
            peers(le, a.drop_first(), w) == peers(le, b.drop_first(), w) by {
            let f = |y: T::V| le(w, y) && le(y, w);
            filter_of_first(a, f);
            filter_of_first(b, f);
            assert(peers(le, a, w) == peers(le, b, w));
            let head = if f(x) {
                seq![x]
            } else {
                Seq::empty()
            };
            assert(a.drop_first().filter(f) =~= a.filter(f).skip(head.len() as int));
            assert(b.drop_first().filter(f) =~= b.filter(f).skip(head.len() as int));
        }
        assert forall|k: int, l: int| 0 <= k < l < a.drop_first().len() implies le(
            #[trigger] a.drop_first()[k],
            #[trigger] a.drop_first()[l],
        ) by {
            assert(le(a[k + 1], a[l + 1]));
        }
        assert forall|k: int, l: int| 0 <= k < l < b.drop_first().len() implies le(
            #[trigger] b.drop_first()[k],
            #[trigger] b.drop_first()[l],
        ) by {
            assert(le(b[k + 1], b[l + 1]));
        }
        sorted_by_peers::<T, O>(a.drop_first(), b.drop_first());
        assert(a =~= seq![x] + a.drop_first());
        assert(b =~= seq![x] + b.drop_first());
    }
}

/// A stable sort puts no value before one that must stand before it, holds what its
/// input holds, and keeps the order of values that share their place.
pub proof fn stable_sort_is_in_order<V>(
    le: spec_fn(V, V) -> bool,
    input: Seq<V>,
    output: Seq<V>,
    x: V,
)
    requires
        is_stable_sort(le, input, output),
    ensures
        output.len() == input.len(),
        forall|i: int, j: int|
            0 <= i < j < output.len() ==> le(#[trigger] output[i], #[trigger] output[j]),
        output.filter(|y: V| le(x, y) && le(y, x)) == input.filter(|y: V| le(x, y) && le(y, x)),
{
    assert(peers(le, output, x) == peers(le, input, x));
}

/// Two values of a filtered list stood in that order before.
proof fn filter_came_in_order<V>(s: Seq<V>, p: spec_fn(V) -> bool, a: int, b: int) -> (r: (
    int,
    int,
))
    requires
        0 <= a < b < s.filter(p).len(),
    ensures
        0 <= r.0 < r.1 < s.len(),
        s[r.0] == s.filter(p)[a],
        s[r.1] == s.filter(p)[b],
    decreases s.len(),
{
    reveal(Seq::filter);
    let rest = s.drop_last();
    if b < rest.filter(p).len() {
        filter_came_in_order(rest, p, a, b)
    } else {
        let v = rest.filter(p)[a];
        assert(rest.filter(p).contains(v));
        filter_is_contained(rest, p, v);
        (rest.index_of(v), s.len() - 1)
    }
}

/// Two values that pass a filter stand in that order afterwards.
proof fn filter_goes_in_order<V>(s: Seq<V>, p: spec_fn(V) -> bool, i: int, j: int) -> (r: (
    int,
    int,
))
    requires
        0 <= i < j < s.len(),
        p(s[i]),
        p(s[j]),
    ensures
        0 <= r.0 < r.1 < s.filter(p).len(),
        s.filter(p)[r.0] == s[i],
        s.filter(p)[r.1] == s[j],
    decreases s.len(),
{
    reveal(Seq::filter);
    let rest = s.drop_last();
    if j < s.len() - 1 {
        filter_goes_in_order(rest, p, i, j)
    } else {
        rest.lemma_filter_contains(p, i);
        let a = rest.filter(p).index_of(rest[i]);
        (a, s.filter(p).len() - 1)
    }
}

/// Of two values that share their place, the one that stands first stood first before.
pub proof fn stable_sort_keeps_order<T: View, O: Order<T>>(
    input: Seq<T::V>,
    output: Seq<T::V>,
    i: int,
    j: int,
) -> (r: (int, int))
    requires
        is_stable_sort(order::<T, O>(), input, output),
        0 <= i < j < output.len(),
        O::le(output[j], output[i]),
    ensures
        0 <= r.0 < r.1 < input.len(),
        input[r.0] == output[i],
        input[r.1] == output[j],
{
    let le = order::<T, O>();
    let x = output[i];
    let p = |y: T::V| le(x, y) && le(y, x);
    O::total(x, x);
    assert(le(output[i], output[j]));
    assert(peers(le, output, x) == peers(le, input, x));
    let (a, b) = filter_goes_in_order(output, p, i, j);
    filter_came_in_order(input, p, a, b)
}

/// Each value of a list is seen, in the order of the list.
pub proof fn lists_are_seen_whole<T: View>(list: Seq<T>)
    ensures
        views(list).len() == list.len(),
        forall|i: int| 0 <= i < list.len() ==> #[trigger] views(list)[i] == list[i]@,
{
}

} // verus!
