//! Facts about finite sequences: the first element with a property, and totals.

use vstd::prelude::*;

verus! {

/// Whether `i` is the place of the first element of `s` that has the property.
pub open spec fn is_first<A>(s: Seq<A>, p: spec_fn(A) -> bool, i: int) -> bool {
    &&& 0 <= i < s.len()
    &&& p(s[i])
    &&& forall|j: int| 0 <= j < i ==> !p(#[trigger] s[j])
}

/// The place of the first element of `s` that has the property, if any has it.
pub open spec fn first_where<A>(s: Seq<A>, p: spec_fn(A) -> bool) -> Option<int> {
    if exists|i: int| is_first(s, p, i) {
        Some(choose|i: int| is_first(s, p, i))
    } else {
        None
    }
}

/// There is only one first place.
pub proof fn lemma_first_where_is<A>(s: Seq<A>, p: spec_fn(A) -> bool, i: int)
    requires
        is_first(s, p, i),
    ensures
        first_where(s, p) == Some(i),
{
    let k = choose|k: int| is_first(s, p, k);
    assert(is_first(s, p, k));
    if k < i {
        assert(!p(s[k]));
    }
    if i < k {
        assert(!p(s[i]));
    }
}

proof fn lemma_some_first<A>(s: Seq<A>, p: spec_fn(A) -> bool, i: int)
    requires
        0 <= i < s.len(),
        p(s[i]),
    ensures
        exists|k: int| is_first(s, p, k),
    decreases i,
{
    if forall|j: int| 0 <= j < i ==> !p(#[trigger] s[j]) {
        assert(is_first(s, p, i));
    } else {
        let j = choose|j: int| 0 <= j < i && p(#[trigger] s[j]);
        lemma_some_first(s, p, j);
    }
}

/// What [`first_where`] says of the sequence.
pub proof fn lemma_first_where<A>(s: Seq<A>, p: spec_fn(A) -> bool)
    ensures
        match first_where(s, p) {
            Some(i) => is_first(s, p, i),
            None => forall|j: int| 0 <= j < s.len() ==> !p(#[trigger] s[j]),
        },
{
    if first_where(s, p) is None {
        assert forall|j: int| 0 <= j < s.len() implies !p(#[trigger] s[j]) by {
            if p(s[j]) {
                lemma_some_first(s, p, j);
            }
        }
    }
}

/// Nothing is found where no element has the property.
pub proof fn lemma_first_where_none<A>(s: Seq<A>, p: spec_fn(A) -> bool)
    requires
        forall|j: int| 0 <= j < s.len() ==> !p(#[trigger] s[j]),
    ensures
        first_where(s, p) is None,
{
    lemma_first_where(s, p);
}

/// How many elements of `s` have the property.
pub open spec fn count_where<A>(s: Seq<A>, p: spec_fn(A) -> bool) -> nat {
    s.filter(p).len()
}

/// One more element counts if it has the property. No more elements have it than
/// there are.
pub proof fn lemma_count_step<A>(s: Seq<A>, p: spec_fn(A) -> bool, i: int)
    requires
        0 <= i < s.len(),
    ensures
        count_where(s.take(i + 1), p) == count_where(s.take(i), p) + if p(s[i]) {
            1nat
        } else {
            0nat
        },
        count_where(s.take(i), p) <= i,
{
    assert(s.take(i + 1) =~= s.take(i).push(s[i]));
    s.take(i).lemma_filter_push(s[i], p);
    s.take(i).lemma_filter_len(p);
}

/// The total of a measure over a sequence.
pub open spec fn total<A>(s: Seq<A>, f: spec_fn(A) -> nat) -> nat
    decreases s.len(),
{
    if s.len() == 0 {
        0
    } else {
        total(s.drop_last(), f) + f(s.last())
    }
}

/// One more element adds its measure.
pub proof fn lemma_total_push<A>(s: Seq<A>, a: A, f: spec_fn(A) -> nat)
    ensures
        total(s.push(a), f) == total(s, f) + f(a),
{
    assert(s.push(a).drop_last() =~= s);
}

/// The total of a longer prefix.
pub proof fn lemma_total_step<A>(s: Seq<A>, f: spec_fn(A) -> nat, i: int)
    requires
        0 <= i < s.len(),
    ensures
        total(s.take(i + 1), f) == total(s.take(i), f) + f(s[i]),
        total(s.take(i + 1), f) <= total(s, f),
{
    assert(s.take(i + 1) =~= s.take(i).push(s[i]));
    lemma_total_push(s.take(i), s[i], f);
    lemma_total_add(s.take(i + 1), s.skip(i + 1), f);
    assert(s.take(i + 1) + s.skip(i + 1) =~= s);
}

/// The total of two sequences put together.
pub proof fn lemma_total_add<A>(s: Seq<A>, t: Seq<A>, f: spec_fn(A) -> nat)
    ensures
        total(s + t, f) == total(s, f) + total(t, f),
    decreases t.len(),
{
    if t.len() == 0 {
        assert(s + t =~= s);
    } else {
        assert((s + t).drop_last() =~= s + t.drop_last());
        lemma_total_add(s, t.drop_last(), f);
    }
}

/// Taking an element out takes its measure away.
pub proof fn lemma_total_remove<A>(s: Seq<A>, i: int, f: spec_fn(A) -> nat)
    requires
        0 <= i < s.len(),
    ensures
        total(s.remove(i), f) + f(s[i]) == total(s, f),
{
    let before = s.subrange(0, i);
    let after = s.subrange(i + 1, s.len() as int);
    lemma_total_add(before, after, f);
    lemma_total_push(before, s[i], f);
    lemma_total_add(before.push(s[i]), after, f);
    assert(before.push(s[i]) + after =~= s);
}

/// Replacing an element replaces its measure.
pub proof fn lemma_total_update<A>(s: Seq<A>, i: int, a: A, f: spec_fn(A) -> nat)
    requires
        0 <= i < s.len(),
    ensures
        total(s.update(i, a), f) + f(s[i]) == total(s, f) + f(a),
{
    lemma_total_remove(s, i, f);
    lemma_total_remove(s.update(i, a), i, f);
    assert(s.update(i, a).remove(i) =~= s.remove(i));
}

/// One element is at most the whole.
pub proof fn lemma_total_bounds_element<A>(s: Seq<A>, i: int, f: spec_fn(A) -> nat)
    requires
        0 <= i < s.len(),
    ensures
        f(s[i]) <= total(s, f),
{
    lemma_total_remove(s, i, f);
}

} // verus!
