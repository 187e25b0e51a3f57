//! Why saturation ends: over finitely many symbols a relation without
//! repeated tuples has a bounded length.

use vstd::prelude::*;
use vstd::set_lib::{set_int_range, lemma_int_range, lemma_len_subset};
use crate::fact::{PRED_COUNT, Pred};
use crate::store::{StoreView, tuple_ok};

verus! {

/// `n` to the power `k`.
pub open spec fn power(n: int, k: nat) -> int
    decreases k,
{
    if k == 0 {
        1
    } else {
        n * power(n, (k - 1) as nat)
    }
}

/// The number that a tuple spells in base `n`, lowest digit first.
pub open spec fn code(t: Seq<usize>, n: int) -> int
    decreases t.len(),
{
    if t.len() == 0 {
        0
    } else {
        t[0] + n * code(t.drop_first(), n)
    }
}

/// The most tuples that the relation of a predicate can hold over `n` symbols.
pub open spec fn capacity(n: int, p: int) -> int {
    power(n, Pred::spec_from_index(p).spec_arity() as nat)
}

/// A tuple over `n` symbols spells a number below `n` to the power of its
/// length.
pub proof fn lemma_code_bound(t: Seq<usize>, n: int)
    requires
        forall|k: int| 0 <= k < t.len() ==> #[trigger] t[k] < n,
    ensures
        0 <= code(t, n) < power(n, t.len()),
    decreases t.len(),
{
    if t.len() > 0 {
        let rest = t.drop_first();
        assert forall|k: int| 0 <= k < rest.len() implies #[trigger] rest[k] < n by {
            assert(rest[k] == t[k + 1]);
        }
        lemma_code_bound(rest, n);
        let c = code(rest, n);
        let m = power(n, rest.len());
        let t0 = t[0] as int;
        assert(0 <= t0 + n * c < n * m) by (nonlinear_arith)
            requires
                0 <= t0 < n,
                0 <= c < m,
        ;
    }
}

/// Tuples of the same length over `n` symbols that spell the same number are
/// the same tuple.
pub proof fn lemma_code_injective(t: Seq<usize>, u: Seq<usize>, n: int)
    requires
        t.len() == u.len(),
        forall|k: int| 0 <= k < t.len() ==> #[trigger] t[k] < n,
        forall|k: int| 0 <= k < u.len() ==> #[trigger] u[k] < n,
        code(t, n) == code(u, n),
    ensures
        t == u,
    decreases t.len(),
{
    if t.len() > 0 {
        let rt = t.drop_first();
        let ru = u.drop_first();
        assert forall|k: int| 0 <= k < rt.len() implies #[trigger] rt[k] < n by {
            assert(rt[k] == t[k + 1]);
        }
        assert forall|k: int| 0 <= k < ru.len() implies #[trigger] ru[k] < n by {
            assert(ru[k] == u[k + 1]);
        }
        let ct = code(rt, n);
        let cu = code(ru, n);
        let t0 = t[0] as int;
        let u0 = u[0] as int;
        assert(t0 == u0 && ct == cu) by (nonlinear_arith)
            requires
                0 <= t0 < n,
                0 <= u0 < n,
                t0 + n * ct == u0 + n * cu,
        ;
        lemma_code_injective(rt, ru, n);
        assert(t =~= seq![t[0]] + rt);
        assert(u =~= seq![u[0]] + ru);
    } else {
        assert(t =~= u);
    }
}

/// Distinct numbers from zero up to `m` are at most `m` many.
pub proof fn lemma_distinct_bounded(s: Seq<int>, m: int)
    requires
        s.no_duplicates(),
        forall|i: int| 0 <= i < s.len() ==> 0 <= #[trigger] s[i] < m,
        0 <= m,
    ensures
        s.len() <= m,
{
    s.unique_seq_to_set();
    lemma_int_range(0, m);
    assert(s.to_set().subset_of(set_int_range(0, m))) by {
        assert forall|x: int| s.to_set().contains(x) implies set_int_range(0, m).contains(x) by {
            assert(s.contains(x));
            let i = choose|i: int| 0 <= i < s.len() && s[i] == x;
            assert(0 <= s[i] < m);
        }
    }
    lemma_len_subset(s.to_set(), set_int_range(0, m));
}

/// A power of a number that is not negative is not negative.
pub proof fn lemma_power_nonnegative(n: int, k: nat)
    requires
        0 <= n,
    ensures
        0 <= power(n, k),
    decreases k,
{
    if k > 0 {
        lemma_power_nonnegative(n, (k - 1) as nat);
        let m = power(n, (k - 1) as nat);
        assert(0 <= n * m) by (nonlinear_arith)
            requires
                0 <= n,
                0 <= m,
        ;
    }
}

/// No relation of a well-formed store is longer than its capacity.
pub proof fn lemma_relation_bounded(sv: StoreView, n: int, p: int)
    requires
        sv.wf(n),
        0 <= n,
        0 <= p < PRED_COUNT,
    ensures
        sv.tuples[p].len() <= capacity(n, p),
{
    let rel = sv.tuples[p];
    let a = Pred::spec_from_index(p).spec_arity() as nat;
    let codes = Seq::new(rel.len(), |i: int| code(rel[i], n));
    lemma_power_nonnegative(n, a);
    assert forall|i: int| 0 <= i < codes.len() implies 0 <= #[trigger] codes[i] < capacity(n, p) by {
        assert(tuple_ok(p, sv.tuples[p][i], n));
        lemma_code_bound(rel[i], n);
    }
    assert forall|i: int, j: int| 0 <= i < codes.len() && 0 <= j < codes.len() && i != j implies codes[i]
        != codes[j] by {
        assert(tuple_ok(p, sv.tuples[p][i], n));
        assert(tuple_ok(p, sv.tuples[p][j], n));
        if codes[i] == codes[j] {
            lemma_code_injective(rel[i], rel[j], n);
            if i < j {
                assert(sv.tuples[p][i] != sv.tuples[p][j]);
            } else {
                assert(sv.tuples[p][j] != sv.tuples[p][i]);
            }
        }
    }
    lemma_distinct_bounded(codes, capacity(n, p));
}

} // verus!
