//! The facts that stand in the store before any rule fires: the axioms and
//! the trivial statements.

use vstd::prelude::*;
use crate::context::{Context, Ground, ground_set, grounds_ok};
use crate::fact::{FactView, Pred};
use crate::provenance::Derivation;
use crate::rule::{axiom_derivation, lemma_closure_saturated, trivial_derivation, trivial_fact};
use crate::saturation::{
    Names, lemma_extended_refl, lemma_extended_trans, lemma_insert, lemma_insert_sound,
    lemma_points_map, lemma_recorded_extended, recorded, sound, tuple_fact,
};
use crate::store::{Store, StoreView, tuple_ok};

verus! {

/// A copy of a tuple.
fn copy_tuple(t: &Vec<usize>) -> (c: Vec<usize>)
    ensures
        c@ == t@,
{
    let mut c: Vec<usize> = Vec::new();
    let n = t.len();
    let mut k: usize = 0;
    while k < n
        invariant
            n == t.len(),
            k <= n,
            c@.len() == k,
            forall|m: int| 0 <= m < k ==> c@[m] == t@[m],
        decreases n - k,
    {
        c.push(t[k]);
        k += 1;
    }
    assert(c@ =~= t@);
    c
}

/// Records the axioms, each with the derivation of an axiom.
pub(crate) fn seed_axioms(store: &mut Store, ctx: &Context, axioms: &Vec<Ground>)
    requires
        ctx.wf(),
        old(store).wf(),
        old(store).symbols == ctx.names.len(),
        grounds_ok(axioms@, ctx.names.len() as int),
        sound(
            ctx.rules_view(),
            ctx.pts(),
            ground_set(axioms@, ctx.names_view()),
            old(store)@,
            ctx.names_view(),
        ),
    ensures
        final(store).wf(),
        final(store).symbols == ctx.names.len(),
        old(store)@.extended_by(final(store)@),
        sound(
            ctx.rules_view(),
            ctx.pts(),
            ground_set(axioms@, ctx.names_view()),
            final(store)@,
            ctx.names_view(),
        ),
        forall|f: FactView| #[trigger]
            ground_set(axioms@, ctx.names_view()).contains(f) ==> recorded(
                final(store)@,
                ctx.names_view(),
                f,
                axiom_derivation(),
            ),
{
    let ghost names = ctx.names_view();
    let ghost pts = ctx.pts();
    let ghost rules = ctx.rules_view();
    let ghost given = ground_set(axioms@, names);
    let ghost n = ctx.names.len() as int;
    let ghost sv0 = store@;
    proof {
        lemma_extended_refl(sv0);
    }
    let na = axioms.len();
    let mut k: usize = 0;
    while k < na
        invariant
            ctx.wf(),
            names == ctx.names_view(),
            pts == ctx.pts(),
            rules == ctx.rules_view(),
            given == ground_set(axioms@, names),
            n == ctx.names.len(),
            grounds_ok(axioms@, n),
            na == axioms.len(),
            k <= na,
            store.wf(),
            store.symbols == ctx.names.len(),
            sv0.extended_by(store@),
            sound(rules, pts, given, store@, names),
            forall|m: int|
                0 <= m < k ==> recorded(store@, names, (#[trigger] axioms@[m]).fact(names), axiom_derivation()),
        decreases na - k,
    {
        let g = &axioms[k];
        let p = g.pred.index();
        let t = copy_tuple(&g.args);
        let d = Derivation::of_axiom();
        let ghost sv1 = store@;
        proof {
            let f = g.fact(names);
            assert(tuple_ok(p as int, t@, n));
            assert(given.contains(f));
            lemma_closure_saturated(rules, pts, given);
            lemma_insert(sv1, n, p as int, t@, d@, names);
            lemma_insert_sound(rules, pts, given, sv1, names, n, p as int, t@, d@);
            let sv2 = sv1.insert(p as int, t@, d@);
            lemma_extended_trans(sv0, sv1, sv2);
            assert forall|m: int| 0 <= m < k implies recorded(
                sv2,
                names,
                (#[trigger] axioms@[m]).fact(names),
                axiom_derivation(),
            ) by {
                lemma_recorded_extended(sv1, sv2, names, axioms@[m].fact(names), axiom_derivation());
            }
        }
        store.insert(p, t, d);
        k += 1;
    }
    proof {
        assert forall|f: FactView| #[trigger] given.contains(f) implies recorded(
            store@,
            names,
            f,
            axiom_derivation(),
        ) by {
            let m = choose|m: int| 0 <= m < axioms@.len() && (#[trigger] axioms@[m]).fact(names) == f;
            assert(recorded(store@, names, axioms@[m].fact(names), axiom_derivation()));
        }
    }
}

/// The trivial statements about the pair of symbols `a`, `b`.
pub open spec fn pair_fact(p: Pred, a: int, b: int, names: Names) -> FactView {
    FactView { pred: p, args: seq![names[a], names[b], names[a], names[b]] }
}

/// The trivial statement about the triple of symbols `a`, `b`, `c`.
pub open spec fn triple_fact(a: int, b: int, c: int, names: Names) -> FactView {
    FactView {
        pred: Pred::Eqangle,
        args: seq![names[a], names[b], names[c], names[a], names[b], names[c]],
    }
}

/// The trivial statements about the pair are recorded.
pub open spec fn pair_seeded(sv: StoreView, names: Names, a: int, b: int) -> bool {
    &&& recorded(sv, names, pair_fact(Pred::Cong, a, b, names), trivial_derivation())
    &&& recorded(sv, names, pair_fact(Pred::Para, a, b, names), trivial_derivation())
}

/// The trivial statement about the triple is recorded.
pub open spec fn triple_seeded(sv: StoreView, names: Names, a: int, b: int, c: int) -> bool {
    recorded(sv, names, triple_fact(a, b, c, names), trivial_derivation())
}

/// The pairs of distinct points before `(a, b)` have their statements.
pub open spec fn pairs_before(sv: StoreView, names: Names, np: int, a: int, b: int) -> bool {
    forall|x: int, y: int|
        0 <= x < np && 0 <= y < np && x != y && (x < a || (x == a && y < b)) ==> #[trigger] pair_seeded(
            sv,
            names,
            x,
            y,
        )
}

/// The triples of distinct points before `(a, b, c)` have their statement.
pub open spec fn triples_before(sv: StoreView, names: Names, np: int, a: int, b: int, c: int) -> bool {
    forall|x: int, y: int, z: int|
        0 <= x < np && 0 <= y < np && 0 <= z < np && x != y && x != z && y != z && (x < a || (x == a
            && y < b) || (x == a && y == b && z < c)) ==> #[trigger] triple_seeded(sv, names, x, y, z)
}

proof fn lemma_before_extended(
    sv1: StoreView,
    sv2: StoreView,
    names: Names,
    np: int,
    a: int,
    b: int,
    c: int,
)
    requires
        sv1.extended_by(sv2),
    ensures
        pairs_before(sv1, names, np, a, b) ==> pairs_before(sv2, names, np, a, b),
        triples_before(sv1, names, np, a, b, c) ==> triples_before(sv2, names, np, a, b, c),
        forall|x: int, y: int| pair_seeded(sv1, names, x, y) ==> pair_seeded(sv2, names, x, y),
{
    assert forall|x: int, y: int| pair_seeded(sv1, names, x, y) implies pair_seeded(
        sv2,
        names,
        x,
        y,
    ) by {
        lemma_recorded_extended(sv1, sv2, names, pair_fact(Pred::Cong, x, y, names), trivial_derivation());
        lemma_recorded_extended(sv1, sv2, names, pair_fact(Pred::Para, x, y, names), trivial_derivation());
    }
    if triples_before(sv1, names, np, a, b, c) {
        assert forall|x: int, y: int, z: int|
            0 <= x < np && 0 <= y < np && 0 <= z < np && x != y && x != z && y != z && (x < a || (x
                == a && y < b) || (x == a && y == b && z < c)) implies #[trigger] triple_seeded(
            sv2,
            names,
            x,
            y,
            z,
        ) by {
            assert(triple_seeded(sv1, names, x, y, z));
            lemma_recorded_extended(sv1, sv2, names, triple_fact(x, y, z, names), trivial_derivation());
        }
    }
}

/// Records one trivial statement.
fn seed_one(
    store: &mut Store,
    ctx: &Context,
    pred: Pred,
    t: Vec<usize>,
    Ghost(axioms): Ghost<Set<FactView>>,
)
    requires
        ctx.wf(),
        old(store).wf(),
        old(store).symbols == ctx.names.len(),
        tuple_ok(pred.spec_index() as int, t@, ctx.names.len() as int),
        trivial_fact(ctx.pts(), tuple_fact(pred.spec_index() as int, t@, ctx.names_view())),
        sound(ctx.rules_view(), ctx.pts(), axioms, old(store)@, ctx.names_view()),
    ensures
        final(store).wf(),
        final(store).symbols == ctx.names.len(),
        old(store)@.extended_by(final(store)@),
        sound(ctx.rules_view(), ctx.pts(), axioms, final(store)@, ctx.names_view()),
        recorded(
            final(store)@,
            ctx.names_view(),
            tuple_fact(pred.spec_index() as int, t@, ctx.names_view()),
            trivial_derivation(),
        ),
{
    let ghost names = ctx.names_view();
    let ghost n = ctx.names.len() as int;
    let p = pred.index();
    let d = Derivation::new("rfl", Vec::new());
    proof {
        assert(d@.parents =~= Set::<Seq<char>>::empty());
        assert(d@ == trivial_derivation());
        lemma_closure_saturated(ctx.rules_view(), ctx.pts(), axioms);
        lemma_insert(store@, n, p as int, t@, d@, names);
        lemma_insert_sound(ctx.rules_view(), ctx.pts(), axioms, store@, names, n, p as int, t@, d@);
    }
    store.insert(p, t, d);
}

/// Records the trivial statements: for any two distinct points that the
/// segment between them is congruent and parallel to itself, for any three
/// that the angle they form is equal to itself.
pub(crate) fn seed_trivial(store: &mut Store, ctx: &Context, Ghost(axioms): Ghost<Set<FactView>>)
    requires
        ctx.wf(),
        old(store).wf(),
        old(store).symbols == ctx.names.len(),
        sound(ctx.rules_view(), ctx.pts(), axioms, old(store)@, ctx.names_view()),
    ensures
        final(store).wf(),
        final(store).symbols == ctx.names.len(),
        old(store)@.extended_by(final(store)@),
        sound(ctx.rules_view(), ctx.pts(), axioms, final(store)@, ctx.names_view()),
        forall|f: FactView| #[trigger]
            trivial_fact(ctx.pts(), f) ==> recorded(
                final(store)@,
                ctx.names_view(),
                f,
                trivial_derivation(),
            ),
{
    let ghost names = ctx.names_view();
    let ghost pts = ctx.pts();
    let ghost rules = ctx.rules_view();
    let ghost sv0 = store@;
    let np = ctx.coords.len();
    proof {
        lemma_extended_refl(sv0);
    }
    let mut a: usize = 0;
    while a < np
        invariant
            ctx.wf(),
            names == ctx.names_view(),
            pts == ctx.pts(),
            rules == ctx.rules_view(),
            np == ctx.coords.len(),
            a <= np,
            store.wf(),
            store.symbols == ctx.names.len(),
            sv0.extended_by(store@),
            sound(rules, pts, axioms, store@, names),
            pairs_before(store@, names, np as int, a as int, 0),
            triples_before(store@, names, np as int, a as int, 0, 0),
        decreases np - a,
    {
        let mut b: usize = 0;
        while b < np
            invariant
                ctx.wf(),
                names == ctx.names_view(),
                pts == ctx.pts(),
                rules == ctx.rules_view(),
                np == ctx.coords.len(),
                a < np,
                b <= np,
                store.wf(),
                store.symbols == ctx.names.len(),
                sv0.extended_by(store@),
                sound(rules, pts, axioms, store@, names),
                pairs_before(store@, names, np as int, a as int, b as int),
                triples_before(store@, names, np as int, a as int, b as int, 0),
            decreases np - b,
        {
            if a != b {
                let ghost sv1 = store@;
                proof {
                    lemma_points_map(names, ctx.coords@, a as int);
                    lemma_points_map(names, ctx.coords@, b as int);
                    let t = seq![a, b, a, b];
                    assert(tuple_fact(Pred::Cong.spec_index() as int, t, names).args
                        =~= pair_fact(Pred::Cong, a as int, b as int, names).args);
                    assert(tuple_fact(Pred::Para.spec_index() as int, t, names).args
                        =~= pair_fact(Pred::Para, a as int, b as int, names).args);
                }
                seed_one(store, ctx, Pred::Cong, vec![a, b, a, b], Ghost(axioms));
                let ghost sv2 = store@;
                seed_one(store, ctx, Pred::Para, vec![a, b, a, b], Ghost(axioms));
                proof {
                    let sv3 = store@;
                    lemma_extended_trans(sv1, sv2, sv3);
                    lemma_extended_trans(sv0, sv1, sv3);
                    lemma_recorded_extended(
                        sv2,
                        sv3,
                        names,
                        pair_fact(Pred::Cong, a as int, b as int, names),
                        trivial_derivation(),
                    );
                    assert(pair_seeded(sv3, names, a as int, b as int));
                    lemma_before_extended(sv1, sv3, names, np as int, a as int, b as int, 0);
                }
                let mut c: usize = 0;
                while c < np
                    invariant
                        ctx.wf(),
                        names == ctx.names_view(),
                        pts == ctx.pts(),
                        rules == ctx.rules_view(),
                        np == ctx.coords.len(),
                        a < np,
                        b < np,
                        a != b,
                        c <= np,
                        store.wf(),
                        store.symbols == ctx.names.len(),
                        sv0.extended_by(store@),
                        sound(rules, pts, axioms, store@, names),
                        pairs_before(store@, names, np as int, a as int, b as int),
                        pair_seeded(store@, names, a as int, b as int),
                        triples_before(store@, names, np as int, a as int, b as int, c as int),
                    decreases np - c,
                {
                    if c != a && c != b {
                        let ghost sv4 = store@;
                        proof {
                            lemma_points_map(names, ctx.coords@, a as int);
                            lemma_points_map(names, ctx.coords@, b as int);
                            lemma_points_map(names, ctx.coords@, c as int);
                            let t = seq![a, b, c, a, b, c];
                            assert(tuple_fact(Pred::Eqangle.spec_index() as int, t, names).args
                                =~= triple_fact(a as int, b as int, c as int, names).args);
                        }
                        seed_one(store, ctx, Pred::Eqangle, vec![a, b, c, a, b, c], Ghost(axioms));
                        proof {
                            let sv5 = store@;
                            lemma_extended_trans(sv0, sv4, sv5);
                            lemma_before_extended(
                                sv4,
                                sv5,
                                names,
                                np as int,
                                a as int,
                                b as int,
                                c as int,
                            );
                            assert(triple_seeded(sv5, names, a as int, b as int, c as int));
                        }
                    }
                    c += 1;
                }
            }
            b += 1;
        }
        a += 1;
    }
    proof {
        let sv = store@;
        assert forall|f: FactView| #[trigger] trivial_fact(pts, f) implies recorded(
            sv,
            names,
            f,
            trivial_derivation(),
        ) by {
            let x = choose|i: int|
                0 <= i < ctx.coords@.len() && i < names.len() && #[trigger] names[i] == f.args[0];
            let y = choose|i: int|
                0 <= i < ctx.coords@.len() && i < names.len() && #[trigger] names[i] == f.args[1];
            if f.pred == Pred::Eqangle {
                let z = choose|i: int|
                    0 <= i < ctx.coords@.len() && i < names.len() && #[trigger] names[i] == f.args[2];
                assert(triple_seeded(sv, names, x, y, z));
                assert(f.args =~= triple_fact(x, y, z, names).args);
            } else {
                assert(pair_seeded(sv, names, x, y));
                assert(f.args =~= pair_fact(f.pred, x, y, names).args);
            }
        }
    }
}

} // verus!
