//! How lists that are made element by element grow by one.

use vstd::prelude::*;

verus! {

/// The last of the first `n` elements comes last in what the elements spread out to.
pub proof fn lemma_flat_map_last<A, B>(s: Seq<A>, f: spec_fn(A) -> Seq<B>, n: nat)
    requires
        0 < n <= s.len(),
    ensures
        s.take(n as int).flat_map(f) == s.take(n - 1).flat_map(f) + f(s[n - 1]),
{
    let parts = s.take(n as int).map_values(f);
    let before = s.take(n - 1).map_values(f);
    assert(parts.drop_last() =~= before);
    parts.lemma_flatten_and_flatten_alt_are_equivalent();
    before.lemma_flatten_and_flatten_alt_are_equivalent();
}

/// What an element spreads out to stands whole in what all of them do; where it begins.
pub proof fn lemma_flat_map_holds<A, B>(s: Seq<A>, f: spec_fn(A) -> Seq<B>, i: int) -> (at: int)
    requires
        0 <= i < s.len(),
    ensures
        0 <= at,
        at + f(s[i]).len() <= s.flat_map(f).len(),
        s.flat_map(f).subrange(at, at + f(s[i]).len()) == f(s[i]),
    decreases s.len(),
{
    let n = s.len();
    let whole = s.flat_map(f);
    assert(s.take(n as int) =~= s);
    lemma_flat_map_last(s, f, n);
    let front = s.take(n - 1);
    if i < n - 1 {
        let at = lemma_flat_map_holds(front, f, i);
        assert(front[i] == s[i]);
        assert(whole.subrange(at, at + f(s[i]).len()) =~= front.flat_map(f).subrange(
            at,
            at + f(s[i]).len(),
        ));
        at
    } else {
        let at = front.flat_map(f).len() as int;
        assert(whole.subrange(at, at + f(s[i]).len()) =~= f(s[i]));
        at
    }
}

/// The last of the first `n` elements comes last among what is kept of them, where it is kept.
pub proof fn lemma_filter_map_last<A, B>(s: Seq<A>, f: spec_fn(A) -> Option<B>, n: nat)
    requires
        0 < n <= s.len(),
    ensures
        s.take(n as int).filter_map(f) == match f(s[n - 1]) {
            Some(x) => s.take(n - 1).filter_map(f).push(x),
            None => s.take(n - 1).filter_map(f),
        },
{
    assert(s.take(n as int).drop_last() =~= s.take(n - 1));
    assert(s.take(n as int).last() == s[n - 1]);
    if let Some(x) = f(s[n - 1]) {
        assert(s.take(n - 1).filter_map(f) + seq![x] =~= s.take(n - 1).filter_map(f).push(x));
    }
}

/// The last of the first `n` elements comes last among those that are kept, where it is kept.
pub proof fn lemma_filter_last<A>(s: Seq<A>, f: spec_fn(A) -> bool, n: nat)
    requires
        0 < n <= s.len(),
    ensures
        s.take(n as int).filter(f) == if f(s[n - 1]) {
            s.take(n - 1).filter(f).push(s[n - 1])
        } else {
            s.take(n - 1).filter(f)
        },
{
    reveal(Seq::filter);
    assert(s.take(n as int).drop_last() =~= s.take(n - 1));
    assert(s.take(n as int).last() == s[n - 1]);
}

/// The last of `n` parts comes last in the whole.
pub proof fn lemma_parts_last<A>(f: spec_fn(int) -> Seq<A>, n: nat)
    requires
        n > 0,
    ensures
        Seq::new(n, f).flatten() == Seq::new((n - 1) as nat, f).flatten() + f(n - 1),
{
    let parts = Seq::new(n, f);
    let before = Seq::new((n - 1) as nat, f);
    assert(parts.drop_last() =~= before);
    parts.lemma_flatten_and_flatten_alt_are_equivalent();
    before.lemma_flatten_and_flatten_alt_are_equivalent();
}

} // verus!
