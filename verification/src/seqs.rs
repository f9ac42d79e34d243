//! Facts about sequences and the multisets of their elements.

use vstd::multiset::Multiset;
use vstd::prelude::*;
use vstd::seq_lib::{
    lemma_flatten_concat, lemma_multiset_commutative, to_multiset_build, to_multiset_contains,
    to_multiset_len, to_multiset_remove,
};

verus! {

/// `filter_map` of a concatenation is the concatenation of the two results.
pub proof fn lemma_filter_map_concat<A, B>(a: Seq<A>, b: Seq<A>, f: spec_fn(A) -> Option<B>)
    ensures
        (a + b).filter_map(f) == a.filter_map(f) + b.filter_map(f),
    decreases b.len(),
{
    if b.len() == 0 {
        assert(a + b =~= a);
        assert(a.filter_map(f) + b.filter_map(f) =~= a.filter_map(f));
    } else {
        assert((a + b).drop_last() =~= a + b.drop_last());
        assert((a + b).last() == b.last());
        lemma_filter_map_concat(a, b.drop_last(), f);
        match f(b.last()) {
            Some(x) => {
                assert((a + b).filter_map(f) =~= a.filter_map(f) + b.filter_map(f));
            },
            None => {},
        }
    }
}

/// `filter_map` after removing the element at `k`.
pub proof fn lemma_filter_map_remove<A, B>(s: Seq<A>, k: int, f: spec_fn(A) -> Option<B>)
    requires
        0 <= k < s.len(),
    ensures
        s.filter_map(f).to_multiset() == s.remove(k).filter_map(f).to_multiset().add(
            seq![s[k]].filter_map(f).to_multiset(),
        ),
{
    let front = s.take(k);
    let back = s.skip(k + 1);
    let mid = seq![s[k]];
    assert(s =~= front + mid + back);
    assert(s.remove(k) =~= front + back);
    lemma_filter_map_concat(front + mid, back, f);
    lemma_filter_map_concat(front, mid, f);
    lemma_filter_map_concat(front, back, f);
    lemma_multiset_commutative(front.filter_map(f) + mid.filter_map(f), back.filter_map(f));
    lemma_multiset_commutative(front.filter_map(f), mid.filter_map(f));
    lemma_multiset_commutative(front.filter_map(f), back.filter_map(f));
    assert(s.filter_map(f).to_multiset() =~= s.remove(k).filter_map(f).to_multiset().add(
        mid.filter_map(f).to_multiset(),
    ));
}

/// Two sequences with the same elements, each as often in one as in the
/// other, have the same elements after `filter_map`.
pub proof fn lemma_filter_map_multiset<A, B>(a: Seq<A>, b: Seq<A>, f: spec_fn(A) -> Option<B>)
    requires
        a.to_multiset() == b.to_multiset(),
    ensures
        a.filter_map(f).to_multiset() == b.filter_map(f).to_multiset(),
    decreases a.len(),
{
    to_multiset_len(a);
    to_multiset_len(b);
    if a.len() == 0 {
        assert(b =~= Seq::<A>::empty());
        assert(a =~= Seq::<A>::empty());
    } else {
        let x = a.last();
        let rest = a.drop_last();
        assert(a =~= rest.push(x));
        to_multiset_build(rest, x);
        to_multiset_contains(b, x);
        assert(a.to_multiset().count(x) > 0);
        let k = choose|k: int| 0 <= k < b.len() && b[k] == x;
        to_multiset_remove(b, k);
        assert(rest.to_multiset() =~= b.remove(k).to_multiset());
        lemma_filter_map_multiset(rest, b.remove(k), f);
        lemma_filter_map_remove(b, k, f);
        assert(a.remove(a.len() - 1) =~= rest);
        lemma_filter_map_remove(a, a.len() - 1, f);
    }
}

/// What replacing one part of a sequence of sequences does to the elements
/// of the whole.
pub proof fn lemma_flatten_update<A>(parts: Seq<Seq<A>>, i: int, part: Seq<A>)
    requires
        0 <= i < parts.len(),
    ensures
        parts.update(i, part).flatten().to_multiset().add(parts[i].to_multiset())
            == parts.flatten().to_multiset().add(part.to_multiset()),
{
    let front = parts.take(i);
    let back = parts.skip(i + 1);
    assert(parts =~= front + seq![parts[i]] + back);
    assert(parts.update(i, part) =~= front + seq![part] + back);
    lemma_flatten_concat(front + seq![parts[i]], back);
    lemma_flatten_concat(front, seq![parts[i]]);
    lemma_flatten_concat(front + seq![part], back);
    lemma_flatten_concat(front, seq![part]);
    seq![parts[i]].lemma_flatten_singleton();
    seq![part].lemma_flatten_singleton();
    lemma_multiset_commutative(front.flatten() + parts[i], back.flatten());
    lemma_multiset_commutative(front.flatten(), parts[i]);
    lemma_multiset_commutative(front.flatten() + part, back.flatten());
    lemma_multiset_commutative(front.flatten(), part);
    assert(parts.update(i, part).flatten().to_multiset().add(parts[i].to_multiset())
        =~= parts.flatten().to_multiset().add(part.to_multiset()));
}

/// A sequence of empty sequences flattens to the empty sequence.
pub proof fn lemma_flatten_empty_parts<A>(parts: Seq<Seq<A>>)
    requires
        forall|i: int| 0 <= i < parts.len() ==> (#[trigger] parts[i]).len() == 0,
    ensures
        parts.flatten() == Seq::<A>::empty(),
    decreases parts.len(),
{
    if parts.len() > 0 {
        assert(parts.first().len() == 0);
        assert forall|i: int| 0 <= i < parts.drop_first().len() implies (
        #[trigger] parts.drop_first()[i]).len() == 0 by {
            assert(parts.drop_first()[i] == parts[i + 1]);
        }
        lemma_flatten_empty_parts(parts.drop_first());
        assert(parts.flatten() =~= Seq::<A>::empty());
    }
}

/// Every element of a flattened sequence lies in one of the parts.
pub proof fn lemma_flatten_contains<A>(parts: Seq<Seq<A>>, x: A)
    requires
        parts.flatten().contains(x),
    ensures
        exists|i: int| 0 <= i < parts.len() && (#[trigger] parts[i]).contains(x),
    decreases parts.len(),
{
    if parts.len() > 0 {
        let whole = parts.flatten();
        let k = choose|k: int| 0 <= k < whole.len() && whole[k] == x;
        if k < parts.first().len() {
            assert(parts[0][k] == x);
            assert(parts[0].contains(x));
        } else {
            let rest = parts.drop_first();
            assert(rest.flatten()[k - parts.first().len()] == x);
            assert(rest.flatten().contains(x));
            lemma_flatten_contains(rest, x);
            let i = choose|i: int| 0 <= i < rest.len() && (#[trigger] rest[i]).contains(x);
            assert(parts[i + 1] == rest[i]);
        }
    }
}

/// The empty multiset is the multiset of the empty sequence only.
pub proof fn lemma_empty_multiset<A>(s: Seq<A>)
    ensures
        s.len() == 0 <==> s.to_multiset() == Multiset::<A>::empty(),
{
    to_multiset_len(s);
    if s.len() == 0 {
        assert(s.to_multiset() =~= Multiset::<A>::empty());
    }
}

/// What `filter_map` keeps of the element at `k` is in its result.
pub proof fn lemma_filter_map_has<A, B>(s: Seq<A>, f: spec_fn(A) -> Option<B>, k: int)
    requires
        0 <= k < s.len(),
        f(s[k]) is Some,
    ensures
        s.filter_map(f).contains(f(s[k])->0),
    decreases s.len(),
{
    let kept = f(s[k])->0;
    if k == s.len() - 1 {
        let all = s.filter_map(f);
        assert(all[all.len() - 1] == kept);
    } else {
        lemma_filter_map_has(s.drop_last(), f, k);
        let rest = s.drop_last().filter_map(f);
        let j = choose|j: int| 0 <= j < rest.len() && rest[j] == kept;
        assert(s.filter_map(f)[j] == kept);
    }
}

/// Mapping the parts and flattening is flattening and mapping.
pub proof fn lemma_flatten_map<A, B>(parts: Seq<Seq<A>>, f: spec_fn(A) -> B)
    ensures
        parts.map_values(|part: Seq<A>| part.map_values(f)).flatten() == parts.flatten().map_values(
            f,
        ),
    decreases parts.len(),
{
    let mapped = parts.map_values(|part: Seq<A>| part.map_values(f));
    if parts.len() == 0 {
        assert(mapped.flatten() =~= parts.flatten().map_values(f));
    } else {
        lemma_flatten_map(parts.drop_first(), f);
        assert(mapped.drop_first() =~= parts.drop_first().map_values(
            |part: Seq<A>| part.map_values(f),
        ));
        assert(mapped.first() == parts.first().map_values(f));
        assert(mapped.flatten() =~= parts.flatten().map_values(f));
    }
}

/// An element that stands at two places of a sequence is in its multiset
/// twice at least.
pub proof fn lemma_twice<A>(s: Seq<A>, i: int, j: int)
    requires
        0 <= i < j < s.len(),
        s[i] == s[j],
    ensures
        s.to_multiset().count(s[i]) >= 2,
{
    broadcast use vstd::multiset::group_multiset_axioms;

    to_multiset_remove(s, j);
    assert(s.remove(j)[i] == s[i]);
    assert(s.remove(j).contains(s[i]));
    to_multiset_contains(s.remove(j), s[i]);
}

/// The multiset of a sequence of one element holds that element once.
pub proof fn lemma_single_multiset<A>(x: A)
    ensures
        seq![x].to_multiset() == Multiset::<A>::empty().insert(x),
{
    assert(seq![x] =~= Seq::<A>::empty().push(x));
    to_multiset_build(Seq::<A>::empty(), x);
    lemma_empty_multiset(Seq::<A>::empty());
}

} // verus!
