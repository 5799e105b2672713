//! Spec-level helpers over sequences: the first position meeting a predicate,
//! and the matching elements taken newest first.
use vstd::prelude::*;

verus! {

/// `i` is the first position of `s` whose element meets `p`.
pub open spec fn is_first<A>(s: Seq<A>, p: spec_fn(A) -> bool, i: int) -> bool {
    &&& 0 <= i < s.len()
    &&& p(s[i])
    &&& forall|j: int| 0 <= j < i ==> !p(#[trigger] s[j])
}

/// The first position of `s` whose element meets `p`, if any.
pub open spec fn first_where<A>(s: Seq<A>, p: spec_fn(A) -> bool) -> Option<int> {
    if exists|i: int| is_first(s, p, i) {
        Some(choose|i: int| is_first(s, p, i))
    } else {
        None
    }
}

/// Some element of `s` meets `p`.
pub open spec fn any<A>(s: Seq<A>, p: spec_fn(A) -> bool) -> bool {
    exists|i: int| 0 <= i < s.len() && p(#[trigger] s[i])
}

pub proof fn lemma_first_where_is<A>(s: Seq<A>, p: spec_fn(A) -> bool, i: int)
    requires
        is_first(s, p, i),
    ensures
        first_where(s, p) == Some(i),
{
    let c = choose|c: int| is_first(s, p, c);
    assert(is_first(s, p, c));
    if c < i {
        assert(!p(s[c]));
    } else if c > i {
        assert(!p(s[i]));
    }
}

pub proof fn lemma_first_where_none<A>(s: Seq<A>, p: spec_fn(A) -> bool)
    requires
        forall|j: int| 0 <= j < s.len() ==> !p(#[trigger] s[j]),
    ensures
        first_where(s, p) is None,
        !any(s, p),
{
    if exists|i: int| is_first(s, p, i) {
        let c = choose|c: int| is_first(s, p, c);
        assert(p(s[c]));
    }
}

/// Some element meets `p` exactly when there is a first one.
pub proof fn lemma_first_where_some<A>(s: Seq<A>, p: spec_fn(A) -> bool)
    ensures
        first_where(s, p) is Some <==> any(s, p),
        first_where(s, p) matches Some(i) ==> is_first(s, p, i),
    decreases s.len(),
{
    if any(s, p) {
        let k = choose|k: int| 0 <= k < s.len() && p(#[trigger] s[k]);
        let t = s.subrange(0, k);
        if any(t, p) {
            lemma_first_where_some(t, p);
            let i = first_where(t, p)->0;
            assert(is_first(t, p, i));
            assert forall|j: int| 0 <= j < i implies !p(#[trigger] s[j]) by {
                assert(t[j] == s[j]);
            }
            assert(t[i] == s[i]);
            lemma_first_where_is(s, p, i);
        } else {
            assert forall|j: int| 0 <= j < k implies !p(#[trigger] s[j]) by {
                assert(t[j] == s[j]);
            }
            lemma_first_where_is(s, p, k);
        }
    } else {
        lemma_first_where_none(s, p);
    }
}

/// The elements of `s` that meet `p`, the last one of `s` first.
pub open spec fn newest_first<A>(s: Seq<A>, p: spec_fn(A) -> bool) -> Seq<A>
    decreases s.len(),
{
    if s.len() == 0 {
        Seq::empty()
    } else {
        let rest = newest_first(s.subrange(1, s.len() as int), p);
        if p(s[0]) {
            rest.push(s[0])
        } else {
            rest
        }
    }
}

/// The elements of `s` that meet `p`, in the order of `s`.
pub open spec fn oldest_first<A>(s: Seq<A>, p: spec_fn(A) -> bool) -> Seq<A>
    decreases s.len(),
{
    if s.len() == 0 {
        Seq::empty()
    } else {
        let rest = oldest_first(s.drop_last(), p);
        if p(s.last()) {
            rest.push(s.last())
        } else {
            rest
        }
    }
}

/// Appending an element puts it, if it matches, at the front of the newest-first selection.
pub proof fn lemma_newest_first_push<A>(s: Seq<A>, x: A, p: spec_fn(A) -> bool)
    ensures
        newest_first(s.push(x), p) == (if p(x) { seq![x] } else { Seq::empty() }) + newest_first(s, p),
    decreases s.len(),
{
    let sx = s.push(x);
    if s.len() == 0 {
        let e = sx.subrange(1, sx.len() as int);
        assert(e =~= Seq::<A>::empty());
        assert(newest_first(e, p) =~= Seq::<A>::empty());
        assert(sx[0] == x);
        if p(x) {
            assert(newest_first(sx, p) == newest_first(e, p).push(x));
            assert(newest_first(sx, p) =~= seq![x]);
        } else {
            assert(newest_first(sx, p) == newest_first(e, p));
        }
        assert(newest_first(s, p) =~= Seq::<A>::empty());
        assert((if p(x) { seq![x] } else { Seq::<A>::empty() }) + Seq::<A>::empty() =~= (if p(x) { seq![x] } else { Seq::<A>::empty() }));
    } else {
        let tail = s.subrange(1, s.len() as int);
        assert(sx.subrange(1, sx.len() as int) =~= tail.push(x));
        assert(sx[0] == s[0]);
        lemma_newest_first_push(tail, x, p);
        let head: Seq<A> = if p(x) { seq![x] } else { Seq::empty() };
        if p(s[0]) {
            assert(newest_first(sx, p) =~= head + newest_first(tail, p).push(s[0]));
        } else {
            assert(newest_first(sx, p) =~= head + newest_first(tail, p));
        }
    }
}

/// Every element of the newest-first selection is a matching element of `s`
/// at some position, and their positions in `s` decrease along the selection.
pub proof fn lemma_newest_first_positions<A>(s: Seq<A>, p: spec_fn(A) -> bool)
    ensures
        exists|pos: Seq<int>|
            #![trigger pos.len()]
            pos.len() == newest_first(s, p).len() && (forall|k: int|
                0 <= k < pos.len() ==> 0 <= #[trigger] pos[k] < s.len() && s[pos[k]] == newest_first(s, p)[k])
                && (forall|a: int, b: int| 0 <= a < b < pos.len() ==> #[trigger] pos[a] > #[trigger] pos[b]),
    decreases s.len(),
{
    if s.len() == 0 {
        let pos = Seq::<int>::empty();
        assert(pos.len() == newest_first(s, p).len());
    } else {
        let tail = s.subrange(1, s.len() as int);
        lemma_newest_first_positions(tail, p);
        let tp = choose|pos: Seq<int>|
            #![trigger pos.len()]
            pos.len() == newest_first(tail, p).len() && (forall|k: int|
                0 <= k < pos.len() ==> 0 <= #[trigger] pos[k] < tail.len() && tail[pos[k]] == newest_first(tail, p)[k])
                && (forall|a: int, b: int| 0 <= a < b < pos.len() ==> #[trigger] pos[a] > #[trigger] pos[b]);
        let shifted = tp.map_values(|x: int| x + 1);
        let nt = newest_first(tail, p);
        assert forall|k: int| 0 <= k < shifted.len() implies 0 <= #[trigger] shifted[k] < s.len()
            && s[shifted[k]] == nt[k] by {
            assert(tail[tp[k]] == s[tp[k] + 1]);
        }
        if p(s[0]) {
            let pos = shifted.push(0);
            assert(newest_first(s, p) == nt.push(s[0]));
            assert forall|k: int| 0 <= k < pos.len() implies 0 <= #[trigger] pos[k] < s.len()
                && s[pos[k]] == newest_first(s, p)[k] by {
                if k < shifted.len() {
                    assert(pos[k] == shifted[k]);
                }
            }
            assert forall|a: int, b: int| 0 <= a < b < pos.len() implies #[trigger] pos[a] > #[trigger] pos[b] by {
                if b < shifted.len() {
                    assert(tp[a] > tp[b]);
                }
            }
            assert(pos.len() == newest_first(s, p).len());
        } else {
            assert(newest_first(s, p) == nt);
            assert forall|a: int, b: int| 0 <= a < b < shifted.len() implies #[trigger] shifted[a] > #[trigger] shifted[b] by {
                assert(tp[a] > tp[b]);
            }
            assert(shifted.len() == newest_first(s, p).len());
        }
    }
}

/// How many elements of `s` meet `p`.
pub open spec fn count_where<A>(s: Seq<A>, p: spec_fn(A) -> bool) -> nat
    decreases s.len(),
{
    if s.len() == 0 {
        0
    } else {
        count_where(s.drop_last(), p) + if p(s.last()) { 1nat } else { 0nat }
    }
}

/// Some element matches exactly when the count is positive.
pub proof fn lemma_count_positive<A>(s: Seq<A>, p: spec_fn(A) -> bool)
    ensures
        count_where(s, p) > 0 <==> any(s, p),
    decreases s.len(),
{
    if s.len() > 0 {
        let d = s.drop_last();
        lemma_count_positive(d, p);
        if any(d, p) {
            let k = choose|k: int| 0 <= k < d.len() && p(#[trigger] d[k]);
            assert(s[k] == d[k]);
        }
        if any(s, p) && !p(s.last()) {
            let k = choose|k: int| 0 <= k < s.len() && p(#[trigger] s[k]);
            assert(k < d.len());
            assert(d[k] == s[k]);
        }
    }
}

/// Replacing a matching element by one that does not match lowers the count by one.
pub proof fn lemma_count_update<A>(s: Seq<A>, p: spec_fn(A) -> bool, i: int, x: A)
    requires
        0 <= i < s.len(),
        p(s[i]),
        !p(x),
    ensures
        count_where(s.update(i, x), p) + 1 == count_where(s, p),
    decreases s.len(),
{
    let u = s.update(i, x);
    if i == s.len() - 1 {
        assert(u.drop_last() =~= s.drop_last());
    } else {
        assert(u.drop_last() =~= s.drop_last().update(i, x));
        lemma_count_update(s.drop_last(), p, i, x);
    }
}

} // verus!
