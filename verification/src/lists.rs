//! Sequences in contracts: filtering, joining, searching.

use vstd::prelude::*;

verus! {

/// The values that `f` gives for the elements of `s`, in order, without the `None`s.
pub open spec fn filter_map<A, B>(s: Seq<A>, f: spec_fn(A) -> Option<B>) -> Seq<B>
    decreases s.len(),
{
    if s.len() == 0 {
        Seq::empty()
    } else {
        let rest = filter_map(s.drop_last(), f);
        match f(s.last()) {
            Some(b) => rest.push(b),
            None => rest,
        }
    }
}

/// One more element.
pub proof fn lemma_filter_map_step<A, B>(s: Seq<A>, f: spec_fn(A) -> Option<B>, i: int)
    requires
        0 <= i < s.len(),
    ensures
        filter_map(s.take(i + 1), f) == (match f(s[i]) {
            Some(b) => filter_map(s.take(i), f).push(b),
            None => filter_map(s.take(i), f),
        }),
{
    assert(s.take(i + 1).drop_last() =~= s.take(i));
    assert(s.take(i + 1).last() == s[i]);
}

/// The parts with `sep` between each two.
pub open spec fn join(parts: Seq<Seq<char>>, sep: Seq<char>) -> Seq<char>
    decreases parts.len(),
{
    if parts.len() == 0 {
        Seq::empty()
    } else if parts.len() == 1 {
        parts[0]
    } else {
        join(parts.drop_last(), sep) + sep + parts.last()
    }
}

/// Every value that `filter_map` gives is what `f` gives for an element.
pub proof fn lemma_filter_map_source<A, B>(s: Seq<A>, f: spec_fn(A) -> Option<B>)
    ensures
        filter_map(s, f).len() <= s.len(),
        forall|i: int|
            0 <= i < filter_map(s, f).len() ==> exists|j: int|
                0 <= j < s.len() && f(#[trigger] s[j]) == Some(#[trigger] filter_map(s, f)[i]),
    decreases s.len(),
{
    if s.len() > 0 {
        let t = s.drop_last();
        lemma_filter_map_source(t, f);
        let out = filter_map(s, f);
        assert forall|i: int| 0 <= i < out.len() implies exists|j: int|
            0 <= j < s.len() && f(#[trigger] s[j]) == Some(#[trigger] out[i]) by {
            if i < filter_map(t, f).len() {
                let j = choose|j: int| 0 <= j < t.len() && f(t[j]) == Some(filter_map(t, f)[i]);
                assert(s[j] == t[j]);
            } else {
                assert(s[s.len() - 1] == s.last());
            }
        }
    }
}

/// What `f` gives for any element is among the values.
pub proof fn lemma_filter_map_contains<A, B>(s: Seq<A>, f: spec_fn(A) -> Option<B>, j: int)
    requires
        0 <= j < s.len(),
        f(s[j]) is Some,
    ensures
        filter_map(s, f).contains(f(s[j])->0),
    decreases s.len(),
{
    let t = s.drop_last();
    let out = filter_map(s, f);
    if j == s.len() - 1 {
        assert(out.last() == f(s[j])->0);
    } else {
        assert(t[j] == s[j]);
        lemma_filter_map_contains(t, f, j);
        let i = choose|i: int| 0 <= i < filter_map(t, f).len() && filter_map(t, f)[i] == f(s[j])->0;
        assert(out[i] == f(s[j])->0);
    }
}

/// Two values that `filter_map` gives come of two elements, in their order.
pub proof fn lemma_filter_map_two<A, B>(
    s: Seq<A>,
    f: spec_fn(A) -> Option<B>,
    i: int,
    j: int,
) -> (r: (int, int))
    requires
        0 <= i < j < filter_map(s, f).len(),
    ensures
        0 <= r.0 < r.1 < s.len(),
        f(s[r.0]) == Some(filter_map(s, f)[i]),
        f(s[r.1]) == Some(filter_map(s, f)[j]),
    decreases s.len(),
{
    let t = s.drop_last();
    let rest = filter_map(t, f);
    if j < rest.len() {
        lemma_filter_map_two(t, f, i, j)
    } else {
        lemma_filter_map_source(t, f);
        let a = choose|a: int| 0 <= a < t.len() && f(#[trigger] t[a]) == Some(rest[i]);
        assert(s[a] == t[a]);
        (a, s.len() - 1)
    }
}

/// What an element in front adds.
pub proof fn lemma_filter_map_front<A, B>(a: A, s: Seq<A>, f: spec_fn(A) -> Option<B>)
    ensures
        filter_map(seq![a] + s, f) == (match f(a) {
            Some(b) => seq![b] + filter_map(s, f),
            None => filter_map(s, f),
        }),
    decreases s.len(),
{
    let all = seq![a] + s;
    if s.len() > 0 {
        lemma_filter_map_front(a, s.drop_last(), f);
        assert(all.drop_last() =~= seq![a] + s.drop_last());
        assert(all.last() == s.last());
    } else {
        assert(all.drop_last() =~= Seq::empty());
        assert(all.last() == a);
        assert(filter_map(all.drop_last(), f) == Seq::<B>::empty());
    }
    assert(filter_map(all, f) =~= (match f(a) {
        Some(b) => seq![b] + filter_map(s, f),
        None => filter_map(s, f),
    }));
}

/// `t` occurs in `s`.
pub open spec fn mentions(s: Seq<char>, t: Seq<char>) -> bool {
    exists|k: int|
        0 <= k && k + t.len() <= s.len() && #[trigger] s.subrange(k, k + t.len() as int) == t
}

/// `t` stands in `s` at `k`.
pub proof fn lemma_mentions_at(s: Seq<char>, t: Seq<char>, k: int)
    requires
        0 <= k,
        k + t.len() <= s.len(),
        s.subrange(k, k + t.len() as int) == t,
    ensures
        mentions(s, t),
{
}

/// What occurs in one of two texts occurs in their concatenation.
pub proof fn lemma_mentions_add(a: Seq<char>, b: Seq<char>, t: Seq<char>)
    requires
        mentions(a, t) || mentions(b, t),
    ensures
        mentions(a + b, t),
{
    let n = t.len() as int;
    if mentions(a, t) {
        let k = choose|k: int| 0 <= k && k + n <= a.len() && #[trigger] a.subrange(k, k + n) == t;
        assert((a + b).subrange(k, k + n) =~= a.subrange(k, k + n));
    } else {
        let k = choose|k: int| 0 <= k && k + n <= b.len() && #[trigger] b.subrange(k, k + n) == t;
        assert((a + b).subrange(a.len() + k, a.len() + k + n) =~= b.subrange(k, k + n));
    }
}

} // verus!
