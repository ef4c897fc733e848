//! Sorted lists of names in which no name occurs twice.
use crate::sort::{stable_sort, Order};
use crate::text::{is_listed, is_text_le, texts};
use vstd::prelude::*;

verus! {

/// The order of texts.
pub struct ByText;

impl Order<String> for ByText {
    open spec fn le(a: Seq<char>, b: Seq<char>) -> bool {
        crate::text::text_le(a, b)
    }

    proof fn total(a: Seq<char>, b: Seq<char>) {
        crate::text::text_le_total(a, b);
    }

    proof fn transitive(a: Seq<char>, b: Seq<char>, c: Seq<char>) {
        crate::text::text_le_transitive(a, b, c);
    }

    fn is_le(a: &String, b: &String) -> (r: bool) {
        is_text_le(a.as_str(), b.as_str())
    }
}

/// Each name comes before those behind it, and none occurs twice.
pub open spec fn increasing(s: Seq<Seq<char>>) -> bool {
    forall|i: int, j: int|
        0 <= i < j < s.len() ==> crate::text::text_le(#[trigger] s[i], #[trigger] s[j]) && s[i]
            != s[j]
}

/// `output` lists the names of `input`, each once, in order.
pub open spec fn is_sorted_set(input: Seq<Seq<char>>, output: Seq<Seq<char>>) -> bool {
    &&& increasing(output)
    &&& forall|x: Seq<char>| #[trigger] output.contains(x) == input.contains(x)
}

/// A collection of names can be listed in order in one way only.
pub proof fn sorted_set_is_unique(a: Seq<Seq<char>>, b: Seq<Seq<char>>)
    requires
        increasing(a),
        increasing(b),
        forall|x: Seq<char>| #[trigger] a.contains(x) == b.contains(x),
    ensures
        a == b,
    decreases a.len(),
{
    if a.len() == 0 && b.len() == 0 {
        assert(a =~= b);
    } else if a.len() == 0 {
        assert(b.contains(b[0]));
        assert(a.contains(b[0]));
    } else if b.len() == 0 {
        assert(a.contains(a[0]));
        assert(b.contains(a[0]));
    } else {
        let x = a.last();
        let z = b.last();
        assert(a.contains(x));
        assert(b.contains(x));
        assert(b.contains(z));
        assert(a.contains(z));
        let i = b.index_of(x);
        let j = a.index_of(z);
        if i < b.len() - 1 && j < a.len() - 1 {
            assert(crate::text::text_le(b[i], b[b.len() - 1]));
            assert(crate::text::text_le(a[j], a[a.len() - 1]));
            crate::text::text_le_antisymmetric(x, z);
        }
        assert(x == z);
        let c = a.drop_last();
        let d = b.drop_last();
        assert forall|w: Seq<char>| #[trigger] c.contains(w) == d.contains(w) by {
            if c.contains(w) {
                let k = c.index_of(w);
                assert(a[k] == w);
                assert(a.contains(w) && w != x);
                assert(b.contains(w));
                let l = b.index_of(w);
                assert(d[l] == w);
            }
            if d.contains(w) {
                let k = d.index_of(w);
                assert(b[k] == w);
                assert(b.contains(w) && w != z);
                assert(a.contains(w));
                let l = a.index_of(w);
                assert(c[l] == w);
            }
        }
        sorted_set_is_unique(c, d);
        assert(a =~= c.push(x));
        assert(b =~= d.push(z));
    }
}

/// Lists the names of `list`, each once, in order.
pub fn sort_and_dedup(list: Vec<String>) -> (r: Vec<String>)
    ensures
        is_sorted_set(texts(list@), texts(r@)),
{
    let ghost input = texts(list@);
    let sorted = stable_sort::<String, ByText>(list);
    let ghost all = texts(sorted@);
    proof {
        assert(all =~= crate::sort::views(sorted@));
        assert(input =~= crate::sort::views(list@));
        assert forall|x: Seq<char>| #[trigger] all.contains(x) == input.contains(x) by {
            crate::sort::stable_sort_keeps_values::<String, ByText>(input, all, x);
        }
        assert forall|i: int, j: int| 0 <= i < j < all.len() implies crate::text::text_le(
            #[trigger] all[i],
            #[trigger] all[j],
        ) by {
            assert(crate::sort::order::<String, ByText>()(all[i], all[j]));
        }
    }
    let mut r: Vec<String> = Vec::new();
    assert(texts(r@) =~= Seq::empty());
    for name in it: sorted
        invariant
            it.seq() == sorted@,
            all == texts(sorted@),
            forall|i: int, j: int|
                0 <= i < j < all.len() ==> crate::text::text_le(
                    #[trigger] all[i],
                    #[trigger] all[j],
                ),
            increasing(texts(r@)),
            forall|x: Seq<char>| #[trigger]
                texts(r@).contains(x) == all.take(it.index()).contains(x),
            r@.len() > 0 ==> it.index() > 0 && texts(r@).last() == all[it.index() - 1],
            r@.len() == 0 ==> it.index() == 0,
    {
        let ghost before = texts(r@);
        let ghost seen = all.take(it.index());
        let ghost index = it.index();
        assert(all.take(index + 1) =~= seen.push(name@));
        let repeated = r.len() > 0 && r[r.len() - 1] == name;
        if repeated {
            proof {
                assert(before[before.len() - 1] == name@);
                assert forall|x: Seq<char>| #[trigger]
                    before.contains(x) == seen.push(name@).contains(x) by {
                    pushed_contains(seen, name@, x);
                    if x == name@ {
                        assert(before.contains(x));
                    }
                }
            }
        } else {
            r.push(name);
            proof {
                let after = texts(r@);
                assert(after =~= before.push(name@));
                assert forall|x: Seq<char>| #[trigger]
                    after.contains(x) == seen.push(name@).contains(x) by {
                    pushed_contains(seen, name@, x);
                    pushed_contains(before, name@, x);
                    assert(before.contains(x) == seen.contains(x));
                }
                assert forall|i: int, j: int| 0 <= i < j < after.len() implies
                    crate::text::text_le(#[trigger] after[i], #[trigger] after[j]) && after[i]
                    != after[j] by {
                    if j == before.len() {
                        let last = before.len() - 1;
                        assert(before[last] == all[index - 1]);
                        assert(crate::text::text_le(all[index - 1], all[index]));
                        if i < last {
                            assert(crate::text::text_le(before[i], before[last]));
                            crate::text::text_le_transitive(before[i], before[last], name@);
                            if before[i] == name@ {
                                crate::text::text_le_antisymmetric(before[i], before[last]);
                            }
                        }
                    } else {
                        assert(crate::text::text_le(before[i], before[j]));
                    }
                }
            }
        }
    }
    assert(all.take(sorted@.len() as int) =~= all);
    r
}

/// What a list holds once a value has been put at its end.
pub proof fn pushed_contains<V>(s: Seq<V>, v: V, x: V)
    ensures
        s.push(v).contains(x) == (s.contains(x) || x == v),
{
    if s.contains(x) {
        let i = s.index_of(x);
        assert(s.push(v)[i] == x);
    }
    assert(s.push(v)[s.len() as int] == v);
    if s.push(v).contains(x) && x != v {
        let i = s.push(v).index_of(x);
        assert(s[i] == x);
    }
}

/// `output` lists what `from` names and `without` does not, each name once, in order.
pub open spec fn is_difference(
    from: Seq<Seq<char>>,
    without: Seq<Seq<char>>,
    output: Seq<Seq<char>>,
) -> bool {
    &&& increasing(output)
    &&& forall|x: Seq<char>| #[trigger]
        output.contains(x) == (from.contains(x) && !without.contains(x))
}

/// Lists what `from` names and `without` does not, each name once, in order.
pub fn difference(from: &Vec<String>, without: &Vec<String>) -> (r: Vec<String>)
    ensures
        is_difference(texts(from@), texts(without@), texts(r@)),
{
    let mut kept: Vec<String> = Vec::new();
    assert(texts(kept@) =~= Seq::empty());
    for i in 0..from.len()
        invariant
            forall|x: Seq<char>| #[trigger]
                texts(kept@).contains(x) == (texts(from@).take(i as int).contains(x) && !texts(
                    without@,
                ).contains(x)),
    {
        let ghost before = texts(kept@);
        let ghost seen = texts(from@).take(i as int);
        let ghost name = from@[i as int]@;
        assert(texts(from@).take(i + 1) =~= seen.push(name));
        if !is_listed(without, &from[i]) {
            kept.push(from[i].clone());
            assert(texts(kept@) =~= before.push(name));
        }
        proof {
            assert forall|x: Seq<char>| #[trigger]
                texts(kept@).contains(x) == (seen.push(name).contains(x) && !texts(
                    without@,
                ).contains(x)) by {
                pushed_contains(seen, name, x);
                pushed_contains(before, name, x);
                assert(before.contains(x) == (seen.contains(x) && !texts(without@).contains(x)));
            }
        }
    }
    assert(texts(from@).take(from@.len() as int) =~= texts(from@));
    sort_and_dedup(kept)
}

/// A sorted set names what its input names and nothing else, each name after those that
/// come before it in the order of texts, and none twice.
pub proof fn sorted_set_lists_each_once(input: Seq<Seq<char>>, output: Seq<Seq<char>>, x: Seq<char>)
    requires
        is_sorted_set(input, output),
    ensures
        output.contains(x) <==> input.contains(x),
        forall|i: int, j: int|
            0 <= i < j < output.len() ==> crate::text::text_le(
                #[trigger] output[i],
                #[trigger] output[j],
            ) && output[i] != output[j],
{
}

/// A difference names what the one list names and the other does not, and nothing else,
/// in the order of texts, and no name twice.
pub proof fn difference_lists_what_the_other_lacks(
    from: Seq<Seq<char>>,
    without: Seq<Seq<char>>,
    output: Seq<Seq<char>>,
    x: Seq<char>,
)
    requires
        is_difference(from, without, output),
    ensures
        output.contains(x) <==> from.contains(x) && !without.contains(x),
        forall|i: int, j: int|
            0 <= i < j < output.len() ==> crate::text::text_le(
                #[trigger] output[i],
                #[trigger] output[j],
            ) && output[i] != output[j],
{
}

} // verus!
