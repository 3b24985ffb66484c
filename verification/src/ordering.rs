//! Ordering of filename lists by numeric key.
//!
//! The intended result of sorting is pinned down by a spec-level stable
//! insertion sort, `sort_by_key`: each element is inserted into the sorted
//! remainder just before the first element whose key is at least as large,
//! so elements with equal keys keep their original relative order.

use vstd::prelude::*;
use vstd::multiset::Multiset;
use crate::numeric_key::numeric_key;

verus! {

/// The views of a sequence of strings, element by element.
pub open spec fn views(s: Seq<String>) -> Seq<Seq<char>> {
    s.map_values(|x: String| x@)
}

/// `x` inserted into `s` just before the first element whose numeric key
/// is at least `numeric_key(x)`.
pub open spec fn insert_by_key(x: Seq<char>, s: Seq<Seq<char>>) -> Seq<Seq<char>>
    decreases s.len(),
{
    if s.len() == 0 {
        seq![x]
    } else if numeric_key(x) <= numeric_key(s[0]) {
        seq![x] + s
    } else {
        seq![s[0]] + insert_by_key(x, s.drop_first())
    }
}

/// Stable insertion sort of `s` by numeric key.
pub open spec fn sort_by_key(s: Seq<Seq<char>>) -> Seq<Seq<char>>
    decreases s.len(),
{
    if s.len() == 0 {
        Seq::<Seq<char>>::empty()
    } else {
        insert_by_key(s[0], sort_by_key(s.drop_first()))
    }
}

/// Numeric keys are non-decreasing along `s`.
pub open spec fn sorted_by_key(s: Seq<Seq<char>>) -> bool {
    forall|i: int, j: int| 0 <= i <= j < s.len() ==> numeric_key(s[i]) <= numeric_key(s[j])
}

/// The index at which `insert_by_key` places `x` in `s`: the number of
/// leading elements of `s` whose key is strictly below `numeric_key(x)`.
pub open spec fn insertion_point(x: Seq<char>, s: Seq<Seq<char>>) -> int
    decreases s.len(),
{
    if s.len() == 0 {
        0
    } else if numeric_key(x) <= numeric_key(s[0]) {
        0
    } else {
        1 + insertion_point(x, s.drop_first())
    }
}

/// `insert_by_key` splits `s` at `insertion_point`: everything before the
/// point keeps its place and has key strictly below `numeric_key(x)`, and
/// the element at the point (if any) has key at least `numeric_key(x)`.
pub proof fn lemma_insert_by_key_shape(x: Seq<char>, s: Seq<Seq<char>>)
    ensures
        0 <= insertion_point(x, s) <= s.len(),
        insert_by_key(x, s) == s.take(insertion_point(x, s)) + seq![x] + s.skip(
            insertion_point(x, s),
        ),
        forall|k: int|
            0 <= k < insertion_point(x, s) ==> numeric_key(s[k]) < numeric_key(x),
        insertion_point(x, s) < s.len() ==> numeric_key(x) <= numeric_key(
            s[insertion_point(x, s)],
        ),
    decreases s.len(),
{
    let j = insertion_point(x, s);
    if s.len() == 0 {
        assert(insert_by_key(x, s) =~= s.take(0) + seq![x] + s.skip(0));
    } else if numeric_key(x) <= numeric_key(s[0]) {
        assert(insert_by_key(x, s) =~= s.take(0) + seq![x] + s.skip(0));
    } else {
        let rest = s.drop_first();
        lemma_insert_by_key_shape(x, rest);
        assert(insert_by_key(x, s) =~= s.take(j) + seq![x] + s.skip(j)) by {
            assert(rest.take(j - 1) =~= s.take(j).drop_first());
            assert(rest.skip(j - 1) =~= s.skip(j));
            assert(seq![s[0]] + (rest.take(j - 1) + seq![x] + rest.skip(j - 1)) =~= s.take(j)
                + seq![x] + s.skip(j));
        }
        assert forall|k: int| 0 <= k < j implies numeric_key(s[k]) < numeric_key(x) by {
            if k > 0 {
                assert(s[k] == rest[k - 1]);
            }
        }
    }
}

/// Inserting grows the length by one.
pub proof fn lemma_insert_by_key_len(x: Seq<char>, s: Seq<Seq<char>>)
    ensures
        insert_by_key(x, s).len() == s.len() + 1,
{
    lemma_insert_by_key_shape(x, s);
}

/// Sorting keeps the length.
pub proof fn lemma_sort_by_key_len(s: Seq<Seq<char>>)
    ensures
        sort_by_key(s).len() == s.len(),
    decreases s.len(),
{
    if s.len() > 0 {
        lemma_sort_by_key_len(s.drop_first());
        lemma_insert_by_key_len(s[0], sort_by_key(s.drop_first()));
    }
}

/// Inserting keeps sortedness.
pub proof fn lemma_insert_by_key_sorted(x: Seq<char>, s: Seq<Seq<char>>)
    requires
        sorted_by_key(s),
    ensures
        sorted_by_key(insert_by_key(x, s)),
{
    lemma_insert_by_key_shape(x, s);
    let j = insertion_point(x, s);
    let r = insert_by_key(x, s);
    assert forall|a: int, b: int| 0 <= a <= b < r.len() implies numeric_key(r[a]) <= numeric_key(
        r[b],
    ) by {
        if a < j {
            assert(r[a] == s[a]);
        } else if a == j {
            assert(r[a] == x);
        } else {
            assert(r[a] == s[a - 1]);
        }
        if b < j {
            assert(r[b] == s[b]);
        } else if b == j {
            assert(r[b] == x);
        } else {
            assert(r[b] == s[b - 1]);
        }
        if a < j && b == j {
            assert(numeric_key(s[a]) < numeric_key(x));
        }
        if a == j && b > j {
            assert(numeric_key(x) <= numeric_key(s[j]));
            assert(numeric_key(s[j]) <= numeric_key(s[b - 1]));
        }
    }
}

/// Sorting yields a sequence whose numeric keys are non-decreasing; in
/// particular every adjacent pair is in key order.
pub proof fn lemma_sort_by_key_sorted(s: Seq<Seq<char>>)
    ensures
        sorted_by_key(sort_by_key(s)),
    decreases s.len(),
{
    if s.len() > 0 {
        lemma_sort_by_key_sorted(s.drop_first());
        lemma_insert_by_key_sorted(s[0], sort_by_key(s.drop_first()));
    }
}

/// Inserting adds exactly the new element to the sequence's contents.
pub proof fn lemma_insert_by_key_multiset(x: Seq<char>, s: Seq<Seq<char>>)
    ensures
        insert_by_key(x, s).to_multiset() == s.to_multiset().insert(x),
{
    broadcast use vstd::multiset::group_multiset_axioms;
    broadcast use vstd::seq_lib::group_to_multiset_ensures;

    lemma_insert_by_key_shape(x, s);
    let j = insertion_point(x, s);
    let pre = s.take(j);
    let post = s.skip(j);
    vstd::seq_lib::lemma_multiset_commutative(pre + seq![x], post);
    vstd::seq_lib::lemma_multiset_commutative(pre, seq![x]);
    vstd::seq_lib::lemma_multiset_commutative(pre, post);
    assert(pre + post =~= s);
    assert(seq![x] =~= Seq::<Seq<char>>::empty().push(x));
    assert(seq![x].to_multiset() =~= Multiset::<Seq<char>>::empty().insert(x));
    assert(insert_by_key(x, s).to_multiset() =~= s.to_multiset().insert(x));
}

/// Sorting permutes the sequence: same elements, same multiplicities.
pub proof fn lemma_sort_by_key_multiset(s: Seq<Seq<char>>)
    ensures
        sort_by_key(s).to_multiset() == s.to_multiset(),
    decreases s.len(),
{
    broadcast use vstd::multiset::group_multiset_axioms;
    broadcast use vstd::seq_lib::group_to_multiset_ensures;

    if s.len() > 0 {
        let rest = s.drop_first();
        lemma_sort_by_key_multiset(rest);
        lemma_insert_by_key_multiset(s[0], sort_by_key(rest));
        vstd::seq_lib::lemma_multiset_commutative(seq![s[0]], rest);
        assert(seq![s[0]] + rest =~= s);
        assert(seq![s[0]] =~= Seq::<Seq<char>>::empty().push(s[0]));
        assert(seq![s[0]].to_multiset() =~= Multiset::<Seq<char>>::empty().insert(s[0]));
        assert(sort_by_key(s).to_multiset() =~= s.to_multiset());
    }
}

/// The elements of `s` whose numeric key is `k`, in their order in `s`.
pub open spec fn with_key(s: Seq<Seq<char>>, k: nat) -> Seq<Seq<char>> {
    s.filter(|x: Seq<char>| numeric_key(x) == k)
}

/// Filtering a one-element sequence keeps or drops its element.
proof fn lemma_filter_singleton(x: Seq<char>, pred: spec_fn(Seq<char>) -> bool)
    ensures
        seq![x].filter(pred) == if pred(x) {
            seq![x]
        } else {
            Seq::<Seq<char>>::empty()
        },
{
    reveal(Seq::filter);
    let e = Seq::<Seq<char>>::empty();
    assert(seq![x].drop_last() =~= e);
    assert(e.filter(pred) == e);
    assert(seq![x].last() == x);
    if pred(x) {
        assert(seq![x].filter(pred) == e.filter(pred).push(x));
        assert(e.push(x) =~= seq![x]);
    } else {
        assert(seq![x].filter(pred) == e.filter(pred));
    }
}

/// Inserting puts the new element in front of the later elements of its
/// key class and leaves every key class otherwise unchanged.
pub proof fn lemma_insert_by_key_with_key(x: Seq<char>, s: Seq<Seq<char>>, k: nat)
    ensures
        with_key(insert_by_key(x, s), k) == if numeric_key(x) == k {
            seq![x] + with_key(s, k)
        } else {
            with_key(s, k)
        },
{
    broadcast use Seq::filter_distributes_over_add;

    let pred = |y: Seq<char>| numeric_key(y) == k;
    lemma_insert_by_key_shape(x, s);
    let j = insertion_point(x, s);
    let pre = s.take(j);
    let post = s.skip(j);
    lemma_filter_singleton(x, pred);
    assert(pre + post =~= s);
    assert(s.filter(pred) == pre.filter(pred) + post.filter(pred));
    assert(insert_by_key(x, s).filter(pred) == pre.filter(pred) + seq![x].filter(pred)
        + post.filter(pred));
    if numeric_key(x) == k {
        assert(pre.filter(pred) =~= Seq::<Seq<char>>::empty()) by {
            assert forall|i: int| 0 <= i < pre.len() implies !pred(pre[i]) by {
                assert(pre[i] == s[i]);
                assert(numeric_key(s[i]) < numeric_key(x));
            }
            pre.lemma_all_neg_filter_empty(pred);
        }
        assert(with_key(insert_by_key(x, s), k) =~= seq![x] + with_key(s, k));
    } else {
        assert(with_key(insert_by_key(x, s), k) =~= with_key(s, k));
    }
}

/// Stability: sorting keeps the elements of each key class in their
/// original relative order.
pub proof fn lemma_sort_by_key_stable(s: Seq<Seq<char>>, k: nat)
    ensures
        with_key(sort_by_key(s), k) == with_key(s, k),
    decreases s.len(),
{
    broadcast use Seq::filter_distributes_over_add;

    let pred = |y: Seq<char>| numeric_key(y) == k;
    if s.len() > 0 {
        let rest = s.drop_first();
        lemma_sort_by_key_stable(rest, k);
        lemma_insert_by_key_with_key(s[0], sort_by_key(rest), k);
        lemma_filter_singleton(s[0], pred);
        assert(seq![s[0]] + rest =~= s);
        assert(with_key(s, k) == seq![s[0]].filter(pred) + rest.filter(pred));
        if numeric_key(s[0]) == k {
            assert(with_key(sort_by_key(s), k) == seq![s[0]] + with_key(rest, k));
            assert(seq![s[0]] + with_key(rest, k) =~= with_key(s, k));
        } else {
            assert(Seq::<Seq<char>>::empty() + with_key(rest, k) =~= with_key(rest, k));
        }
    }
}

/// A sequence already in key order is unchanged by sorting.
pub proof fn lemma_sort_by_key_of_sorted(s: Seq<Seq<char>>)
    requires
        sorted_by_key(s),
    ensures
        sort_by_key(s) == s,
    decreases s.len(),
{
    if s.len() > 0 {
        let rest = s.drop_first();
        assert(sorted_by_key(rest)) by {
            assert forall|i: int, j: int| 0 <= i <= j < rest.len() implies numeric_key(rest[i])
                <= numeric_key(rest[j]) by {
                assert(rest[i] == s[i + 1]);
                assert(rest[j] == s[j + 1]);
            }
        }
        lemma_sort_by_key_of_sorted(rest);
        if rest.len() == 0 {
            assert(seq![s[0]] =~= s);
        } else {
            assert(numeric_key(s[0]) <= numeric_key(rest[0])) by {
                assert(rest[0] == s[1]);
            }
            assert(insert_by_key(s[0], rest) == seq![s[0]] + rest);
            assert(seq![s[0]] + rest =~= s);
        }
    }
}

/// Idempotence: sorting a second time changes nothing.
pub proof fn lemma_sort_by_key_idempotent(s: Seq<Seq<char>>)
    ensures
        sort_by_key(sort_by_key(s)) == sort_by_key(s),
{
    lemma_sort_by_key_sorted(s);
    lemma_sort_by_key_of_sorted(sort_by_key(s));
}

/// Inserts `x` into the vector just before the first element whose numeric
/// key is at least the key of `x`.
pub fn insert_sorted(v: &mut Vec<String>, x: String)
    ensures
        views(final(v)@) == insert_by_key(x@, views(old(v)@)),
{
    let key_x = get_number_from_string_of(&x);
    let mut j: usize = 0;
    while j < v.len() && get_number_from_string_of(&v[j]) < key_x
        invariant
            key_x as nat == numeric_key(x@),
            0 <= j <= v@.len(),
            v@ == old(v)@,
            forall|k: int| 0 <= k < j ==> numeric_key(v@[k]@) < numeric_key(x@),
        decreases v@.len() - j,
    {
        j = j + 1;
    }
    proof {
        let vs = views(v@);
        lemma_insert_by_key_shape(x@, vs);
        assert(insertion_point(x@, vs) == j) by {
            let ip = insertion_point(x@, vs);
            assert(forall|k: int| 0 <= k < vs.len() ==> vs[k] == v@[k]@);
            if ip < j {
                assert(numeric_key(vs[ip]) < numeric_key(x@));
            }
            if j < ip {
                assert(numeric_key(vs[j as int]) < numeric_key(x@));
            }
        }
    }
    let ghost pre = v@;
    v.insert(j, x);
    proof {
        assert(views(v@) =~= views(pre).take(j as int) + seq![x@] + views(pre).skip(j as int));
    }
}

/// The numeric key of a string, as `get_number_from_string` computes it.
fn get_number_from_string_of(s: &String) -> (r: usize)
    ensures
        r as nat == numeric_key(s@),
{
    crate::numeric_key::get_number_from_string(s.as_str())
}

} // verus!
