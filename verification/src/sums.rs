//! Sums of a quantity over the entries of a sequence.

use vstd::prelude::*;

verus! {

/// The sum of `f` over the entries of `s`.
pub open spec fn sum_by<T>(s: Seq<T>, f: spec_fn(T) -> nat) -> nat
    decreases s.len(),
{
    if s.len() == 0 {
        0
    } else {
        sum_by(s.drop_last(), f) + f(s.last())
    }
}

/// Appending an entry adds its share.
pub proof fn lemma_sum_push<T>(s: Seq<T>, v: T, f: spec_fn(T) -> nat)
    ensures
        sum_by(s.push(v), f) == sum_by(s, f) + f(v),
{
    assert(s.push(v).drop_last() =~= s);
}

/// Replacing an entry swaps its share for the new one.
pub proof fn lemma_sum_update<T>(s: Seq<T>, i: int, v: T, f: spec_fn(T) -> nat)
    requires
        0 <= i < s.len(),
    ensures
        sum_by(s.update(i, v), f) + f(s[i]) == sum_by(s, f) + f(v),
    decreases s.len(),
{
    let t = s.update(i, v);
    if i == s.len() - 1 {
        assert(t.drop_last() =~= s.drop_last());
    } else {
        lemma_sum_update(s.drop_last(), i, v, f);
        assert(t.drop_last() =~= s.drop_last().update(i, v));
    }
}

/// No share is more than the sum.
pub proof fn lemma_sum_bounds_share<T>(s: Seq<T>, i: int, f: spec_fn(T) -> nat)
    requires
        0 <= i < s.len(),
    ensures
        f(s[i]) <= sum_by(s, f),
    decreases s.len(),
{
    if i < s.len() - 1 {
        lemma_sum_bounds_share(s.drop_last(), i, f);
    }
}

/// A quantity that is nowhere greater has no greater sum.
pub proof fn lemma_sum_le<T>(s: Seq<T>, f: spec_fn(T) -> nat, g: spec_fn(T) -> nat)
    requires
        forall|i: int| 0 <= i < s.len() ==> f(#[trigger] s[i]) <= g(s[i]),
    ensures
        sum_by(s, f) <= sum_by(s, g),
    decreases s.len(),
{
    if s.len() > 0 {
        let r = s.drop_last();
        assert forall|i: int| 0 <= i < r.len() implies f(#[trigger] r[i]) <= g(r[i]) by {
            assert(r[i] == s[i]);
        }
        lemma_sum_le(r, f, g);
    }
}

/// Where `h` is `f` plus `c` times `g` on every entry, so are the sums.
pub proof fn lemma_sum_linear<T>(
    s: Seq<T>,
    f: spec_fn(T) -> nat,
    g: spec_fn(T) -> nat,
    h: spec_fn(T) -> nat,
    c: nat,
)
    requires
        forall|i: int| 0 <= i < s.len() ==> h(#[trigger] s[i]) == f(s[i]) + c * g(s[i]),
    ensures
        sum_by(s, h) == sum_by(s, f) + c * sum_by(s, g),
    decreases s.len(),
{
    if s.len() > 0 {
        let r = s.drop_last();
        assert forall|i: int| 0 <= i < r.len() implies h(#[trigger] r[i]) == f(r[i]) + c * g(
            r[i],
        ) by {
            assert(r[i] == s[i]);
        }
        lemma_sum_linear(r, f, g, h, c);
        let a = sum_by(r, g);
        let b = g(s.last());
        assert(s.last() == s[s.len() - 1]);
        assert(h(s.last()) == f(s.last()) + c * b);
        assert(c * (a + b) == c * a + c * b) by (nonlinear_arith);
    } else {
        assert(c * 0 == 0) by (nonlinear_arith);
    }
}

} // verus!
