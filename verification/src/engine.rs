//! The evaluator: it seeds a store, fires the rules round after round and
//! stops when a round changes nothing.

use vstd::prelude::*;
use crate::capacity::{capacity, lemma_relation_bounded};
use crate::context::{Context, Ground, ground_set, grounds_ok};
use crate::fact::{FactView, PRED_COUNT};
use crate::join::round;
use crate::rule::{Binding, axiom_derivation, closure, provenance_of};
use crate::saturation::{
    applies_upto, bounds_ok, covered, fired, lemma_recorded_extended, lemma_saturated_store,
    lemma_seeded_extended, premise_upto, recorded, seeded, sound,
};
use crate::seeding::{seed_axioms, seed_trivial};
use crate::store::Store;

verus! {

/// Bounds before the first place of each relation.
fn no_bounds() -> (lo: Vec<usize>)
    ensures
        lo@.len() == PRED_COUNT,
        forall|p: int| 0 <= p < PRED_COUNT ==> #[trigger] lo@[p] == 0,
{
    let mut lo: Vec<usize> = Vec::new();
    let mut p: usize = 0;
    while p < PRED_COUNT
        invariant
            p <= PRED_COUNT,
            lo@.len() == p,
            forall|q: int| 0 <= q < p ==> #[trigger] lo@[q] == 0,
        decreases PRED_COUNT - p,
    {
        lo.push(0);
        p += 1;
    }
    lo
}

/// The length of each relation.
fn lengths(store: &Store) -> (lens: Vec<usize>)
    requires
        store.wf(),
    ensures
        lens@.len() == PRED_COUNT,
        forall|p: int| 0 <= p < PRED_COUNT ==> #[trigger] lens@[p] == store@.tuples[p].len(),
{
    let mut lens: Vec<usize> = Vec::new();
    let mut p: usize = 0;
    while p < PRED_COUNT
        invariant
            store.wf(),
            p <= PRED_COUNT,
            lens@.len() == p,
            forall|q: int| 0 <= q < p ==> #[trigger] lens@[q] == store@.tuples[q].len(),
        decreases PRED_COUNT - p,
    {
        lens.push(store.len(p));
        p += 1;
    }
    lens
}

/// How many more tuples the relation of a predicate can take beyond a bound.
pub open spec fn slack(n: int, bound: Seq<usize>, p: int) -> int {
    capacity(n, p) - bound[p]
}

/// Saturates the axioms under the rules: puts the axioms and the trivial
/// statements into a store, and then fires the rules, round after round, each
/// round on the tuples that the round before it brought, until a round adds
/// no tuple and no derivation.
///
/// The store that comes back holds exactly the closure of the axioms, and
/// beside each fact every justification that it has over the closure. The
/// rounds come to an end because the relations over finitely many symbols
/// cannot grow for ever.
pub fn saturate(ctx: &Context, axioms: &Vec<Ground>) -> (store: Store)
    requires
        ctx.wf(),
        grounds_ok(axioms@, ctx.names.len() as int),
    ensures
        store.wf(),
        store.symbols == ctx.names.len(),
        store@.facts(ctx.names_view()) == closure(
            ctx.rules_view(),
            ctx.pts(),
            ground_set(axioms@, ctx.names_view()),
        ),
        forall|p: int, i: int|
            0 <= p < PRED_COUNT && 0 <= i < store@.tuples[p].len() ==> #[trigger] store@.provs[p][i]
                == provenance_of(
                ctx.rules_view(),
                ctx.pts(),
                ground_set(axioms@, ctx.names_view()),
                store@.fact_at(p, i, ctx.names_view()),
            ),
{
    let ghost names = ctx.names_view();
    let ghost pts = ctx.pts();
    let ghost rules = ctx.rules_view();
    let ghost given = ground_set(axioms@, names);
    let ghost n = ctx.names.len() as int;
    let mut store = Store::new(ctx.names.len());
    seed_axioms(&mut store, ctx, axioms);
    let ghost sv1 = store@;
    seed_trivial(&mut store, ctx, Ghost(given));
    proof {
        assert forall|f: FactView| #[trigger] given.contains(f) implies recorded(
            store@,
            names,
            f,
            axiom_derivation(),
        ) by {
            lemma_recorded_extended(sv1, store@, names, f, axiom_derivation());
        }
    }
    let mut lo = no_bounds();
    proof {
        assert forall|i: int, b: Binding|
            0 <= i < rules.len() && #[trigger] applies_upto(
                rules[i],
                b,
                pts,
                store@,
                names,
                lo@,
            ) implies fired(rules[i], b, store@, names) by {
            assert(rules[i].wf());
            assert(premise_upto(rules[i], b, store@, names, lo@, 0));
        }
    }
    let mut changed = true;
    while changed
        invariant
            ctx.wf(),
            names == ctx.names_view(),
            pts == ctx.pts(),
            rules == ctx.rules_view(),
            given == ground_set(axioms@, names),
            n == ctx.names.len(),
            store.wf(),
            store.symbols == ctx.names.len(),
            bounds_ok(lo@, store@),
            !changed ==> forall|p: int| 0 <= p < PRED_COUNT ==> #[trigger] lo@[p] == store@.tuples[p].len(),
            sound(rules, pts, given, store@, names),
            seeded(pts, given, store@, names),
            covered(rules, pts, store@, names, lo@),
        decreases
            slack(n, lo@, 0),
            slack(n, lo@, 1),
            slack(n, lo@, 2),
            slack(n, lo@, 3),
            slack(n, lo@, 4),
            slack(n, lo@, 5),
            slack(n, lo@, 6),
            slack(n, lo@, 7),
            slack(n, lo@, 8),
            slack(n, lo@, 9),
            slack(n, lo@, 10),
            slack(n, lo@, 11),
            slack(n, lo@, 12),
            (if changed { 1int } else { 0int }),
    {
        let ghost sv = store@;
        let hi = lengths(&store);
        proof {
            assert forall|p: int| 0 <= p < PRED_COUNT implies #[trigger] hi@[p] <= capacity(n, p) by {
                lemma_relation_bounded(sv, n, p);
            }
        }
        changed = round(&mut store, ctx, &lo, &hi, Ghost(given));
        proof {
            lemma_seeded_extended(pts, given, sv, store@, names);
        }
        lo = hi;
    }
    proof {
        lemma_saturated_store(rules, pts, given, store@, names, lo@);
    }
    store
}

} // verus!
