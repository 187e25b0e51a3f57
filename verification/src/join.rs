//! Matching the premises of a rule against the store, and one round of all
//! rules.

use vstd::prelude::*;
use crate::context::Context;
use crate::fact::{FactView, PRED_COUNT};
use crate::firing::{chosen_ok, chosen_tuple, emit, level_matches, matches_chosen};
use crate::rule::{Binding, Rule, RuleView, atom_ok, instantiate, occurs_at};
use crate::saturation::{
    Names, applies_in, bounds_ok, covered, fired, lemma_change_accumulates, lemma_extended_refl,
    lemma_extended_trans, lemma_fired_extended, lemma_pass_done_extended, lemma_round_covers,
    level_from, level_to, names_distinct, pass_done, premise_in_level, sound, tuple_fact,
};
use crate::store::{Column, Store, StoreView, tuple_fits, tuple_ok};

verus! {

/// Two places of the body hold the same variable, but the tuples chosen for
/// them hold different symbols there: no binding matches the chosen tuples.
proof fn lemma_mismatch(
    r: RuleView,
    sv: StoreView,
    names: Names,
    chosen: Seq<usize>,
    j1: int,
    q1: int,
    j2: int,
    q2: int,
)
    requires
        r.wf(),
        sv.wf(names.len() as int),
        names_distinct(names),
        chosen_ok(r, sv, chosen),
        0 <= j1 < chosen.len(),
        0 <= j2 < chosen.len(),
        0 <= q1 < r.body[j1].vars.len(),
        0 <= q2 < r.body[j2].vars.len(),
        r.body[j1].vars[q1] == r.body[j2].vars[q2],
        chosen_tuple(r, sv, chosen, j1)[q1] != chosen_tuple(r, sv, chosen, j2)[q2],
    ensures
        forall|bd: Binding| !#[trigger] matches_chosen(r, bd, sv, names, chosen),
{
    assert forall|bd: Binding| !#[trigger] matches_chosen(r, bd, sv, names, chosen) by {
        if matches_chosen(r, bd, sv, names, chosen) {
            let v = r.body[j1].vars[q1] as int;
            let pa = r.body[j1].pred.spec_index() as int;
            let pb = r.body[j2].pred.spec_index() as int;
            let t1 = chosen_tuple(r, sv, chosen, j1);
            let t2 = chosen_tuple(r, sv, chosen, j2);
            assert(atom_ok(r.body[j1], r.nvars()));
            assert(atom_ok(r.body[j2], r.nvars()));
            assert(chosen[j1] < sv.tuples[pa].len());
            assert(chosen[j2] < sv.tuples[pb].len());
            assert(tuple_ok(pa, sv.tuples[pa][chosen[j1] as int], names.len() as int));
            assert(tuple_ok(pb, sv.tuples[pb][chosen[j2] as int], names.len() as int));
            assert(level_matches(r, bd, sv, names, chosen, j1));
            assert(level_matches(r, bd, sv, names, chosen, j2));
            assert(instantiate(r.body[j1], bd).args[q1] == bd[v]);
            assert(instantiate(r.body[j2], bd).args[q2] == bd[v]);
            assert(tuple_fact(pa, t1, names).args[q1] == names[t1[q1] as int]);
            assert(tuple_fact(pb, t2, names).args[q2] == names[t2[q2] as int]);
            assert(t1[q1] < names.len());
            assert(t2[q2] < names.len());
            assert(false);
        }
    }
}

/// What the tuples chosen so far ask of the tuple for the next premise: a
/// column whose variable is bound by an earlier premise must hold the symbol
/// bound there, and one whose variable is bound by another column of the same
/// premise must agree with that column.
pub open spec fn is_pattern_for(r: RuleView, sv: StoreView, chosen: Seq<usize>, pattern: Seq<Column>) -> bool {
    &&& pattern.len() == r.body[chosen.len() as int].vars.len()
    &&& forall|q: int|
        0 <= q < pattern.len() ==> #[trigger] pattern[q] == column_for(
            r,
            sv,
            chosen,
            q,
        )
}

/// What the tuples chosen so far ask of column `q` of the next tuple.
pub open spec fn column_for(r: RuleView, sv: StoreView, chosen: Seq<usize>, q: int) -> Column {
    let o = r.origin[r.body[chosen.len() as int].vars[q] as int];
    if o.0 < chosen.len() {
        Column::Is(chosen_tuple(r, sv, chosen, o.0 as int)[o.1 as int])
    } else if o.0 == chosen.len() && o.1 != q {
        Column::Same(o.1)
    } else {
        Column::Any
    }
}

/// The pattern that the next premise must match.
fn pattern_for(store: &Store, rule: &Rule, chosen: &Vec<usize>) -> (pattern: Vec<Column>)
    requires
        store.wf(),
        rule@.wf(),
        chosen_ok(rule@, store@, chosen@),
        chosen.len() < rule.body.len(),
    ensures
        is_pattern_for(rule@, store@, chosen@, pattern@),
{
    let ghost r = rule@;
    let depth = chosen.len();
    let a = &rule.body[depth];
    assert(a@ == r.body[depth as int]);
    assert(atom_ok(r.body[depth as int], r.nvars()));
    let n = a.vars.len();
    let mut pattern: Vec<Column> = Vec::new();
    let mut q: usize = 0;
    while q < n
        invariant
            store.wf(),
            r == rule@,
            r.wf(),
            chosen_ok(r, store@, chosen@),
            depth == chosen.len(),
            depth < rule.body.len(),
            a == &rule.body[depth as int],
            a@ == r.body[depth as int],
            atom_ok(r.body[depth as int], r.nvars()),
            n == a.vars.len(),
            q <= n,
            pattern@.len() == q,
            forall|k: int| 0 <= k < q ==> #[trigger] pattern@[k] == column_for(r, store@, chosen@, k),
        decreases n - q,
    {
        let v = a.vars[q];
        assert(v == r.body[depth as int].vars[q as int]);
        assert(v < r.nvars());
        let o = rule.origin[v];
        assert(occurs_at(r.body, v as int, r.origin[v as int]));
        if o.0 < depth {
            let a2 = &rule.body[o.0];
            assert(a2@ == r.body[o.0 as int]);
            assert(atom_ok(r.body[o.0 as int], r.nvars()));
            let pb = a2.pred.index();
            assert(chosen@[o.0 as int] < store@.tuples[pb as int].len());
            let t2 = &store.rels[pb][chosen[o.0]];
            assert(tuple_ok(
                pb as int,
                store@.tuples[pb as int][chosen@[o.0 as int] as int],
                store.symbols as int,
            ));
            assert(t2@ == chosen_tuple(r, store@, chosen@, o.0 as int));
            pattern.push(Column::Is(t2[o.1]));
        } else if o.0 == depth && o.1 != q {
            pattern.push(Column::Same(o.1));
        } else {
            pattern.push(Column::Any);
        }
        q += 1;
    }
    pattern
}

/// A tuple that does not fit the pattern cannot stand for the next premise
/// beside the tuples chosen so far.
proof fn lemma_pattern_prunes(
    r: RuleView,
    sv: StoreView,
    names: Names,
    chosen: Seq<usize>,
    pattern: Seq<Column>,
    i: usize,
)
    requires
        r.wf(),
        sv.wf(names.len() as int),
        names_distinct(names),
        chosen_ok(r, sv, chosen),
        chosen.len() < r.body.len(),
        i < sv.tuples[r.body[chosen.len() as int].pred.spec_index() as int].len(),
        is_pattern_for(r, sv, chosen, pattern),
        !tuple_fits(sv.tuples[r.body[chosen.len() as int].pred.spec_index() as int][i as int], pattern),
    ensures
        forall|bd: Binding| !#[trigger] matches_chosen(r, bd, sv, names, chosen.push(i)),
{
    let depth = chosen.len() as int;
    let next = chosen.push(i);
    let a = r.body[depth];
    let p = a.pred.spec_index() as int;
    let t = sv.tuples[p][i as int];
    assert(atom_ok(a, r.nvars()));
    assert(tuple_ok(p, sv.tuples[p][i as int], names.len() as int));
    assert(chosen_ok(r, sv, next));
    assert(t == chosen_tuple(r, sv, next, depth));
    let q = choose|q: int|
        0 <= q < pattern.len() && q < t.len() && !(match #[trigger] pattern[q] {
            Column::Any => true,
            Column::Is(v) => t[q] == v,
            Column::Same(k) => k < t.len() && t[q] == t[k as int],
        });
    assert(pattern[q] == column_for(r, sv, chosen, q));
    let v = a.vars[q] as int;
    assert(a.vars[q] < r.nvars());
    let o = r.origin[v];
    assert(occurs_at(r.body, v, o));
    if o.0 < depth {
        assert(atom_ok(r.body[o.0 as int], r.nvars()));
        assert(chosen_tuple(r, sv, chosen, o.0 as int) == chosen_tuple(r, sv, next, o.0 as int));
        lemma_mismatch(r, sv, names, next, depth, q, o.0 as int, o.1 as int);
    } else {
        lemma_mismatch(r, sv, names, next, depth, q, depth, o.1 as int);
    }
}

/// Premise `depth` under the binding is the tuple at one of the first `h`
/// hits.
pub open spec fn hit_before(
    r: RuleView,
    bd: Binding,
    sv: StoreView,
    names: Names,
    depth: int,
    hits: Seq<usize>,
    h: int,
) -> bool {
    exists|k: int|
        0 <= k < h && k < hits.len() && #[trigger] sv.fact_at(
            r.body[depth].pred.spec_index() as int,
            hits[k] as int,
            names,
        ) == instantiate(r.body[depth], bd)
}

/// Matches the premises that have no tuple yet, one after the other, against
/// the places where pass `d` looks for them, and records the conclusions of
/// every firing that it finds. Tells whether the store changed.
fn join(
    store: &mut Store,
    ctx: &Context,
    ri: usize,
    d: usize,
    lo: &Vec<usize>,
    hi: &Vec<usize>,
    chosen: &mut Vec<usize>,
    Ghost(snap): Ghost<StoreView>,
    Ghost(axioms): Ghost<Set<FactView>>,
) -> (changed: bool)
    requires
        ctx.wf(),
        ri < ctx.rules.len(),
        d < ctx.rules[ri as int].body.len(),
        old(store).wf(),
        old(store).symbols == ctx.names.len(),
        snap.wf(ctx.names.len() as int),
        snap.extended_by(old(store)@),
        bounds_ok(lo@, snap),
        bounds_ok(hi@, snap),
        forall|p: int| 0 <= p < PRED_COUNT ==> #[trigger] lo@[p] <= hi@[p],
        chosen_ok(ctx.rules[ri as int]@, snap, old(chosen)@),
        sound(ctx.rules_view(), ctx.pts(), axioms, old(store)@, ctx.names_view()),
    ensures
        final(store).wf(),
        final(store).symbols == ctx.names.len(),
        old(store)@.extended_by(final(store)@),
        changed == (final(store)@ != old(store)@),
        sound(ctx.rules_view(), ctx.pts(), axioms, final(store)@, ctx.names_view()),
        final(chosen)@ == old(chosen)@,
        forall|bd: Binding| #[trigger]
            matches_chosen(ctx.rules[ri as int]@, bd, snap, ctx.names_view(), old(chosen)@)
                && applies_in(
                ctx.rules[ri as int]@,
                bd,
                ctx.pts(),
                snap,
                ctx.names_view(),
                d as int,
                lo@,
                hi@,
            ) ==> fired(ctx.rules[ri as int]@, bd, final(store)@, ctx.names_view()),
    decreases ctx.rules[ri as int].body.len() - old(chosen).len(),
{
    let rule = &ctx.rules[ri];
    let ghost r = rule@;
    let ghost names = ctx.names_view();
    let ghost pts = ctx.pts();
    let ghost rules = ctx.rules_view();
    let ghost n = ctx.names.len() as int;
    let ghost sv0 = store@;
    let ghost before = chosen@;
    let depth = chosen.len();
    proof {
        lemma_extended_refl(sv0);
    }
    if depth == rule.body.len() {
        return emit(store, ctx, ri, chosen, Ghost(snap), Ghost(axioms));
    }
    let a = &rule.body[depth];
    assert(a@ == r.body[depth as int]);
    let p = a.pred.index();
    let from = if depth == d {
        lo[p]
    } else {
        0
    };
    let to = if depth < d {
        lo[p]
    } else {
        hi[p]
    };
    assert(from == level_from(d as int, depth as int, lo@, p as int));
    assert(to == level_to(d as int, depth as int, lo@, hi@, p as int));
    assert(lo@[p as int] <= hi@[p as int]);
    proof {
        assert(snap.tuples[p as int].len() <= sv0.tuples[p as int].len());
        assert forall|j: int| 0 <= j < before.len() implies #[trigger] before[j]
            < sv0.tuples[r.body[j].pred.spec_index() as int].len() by {
            assert(atom_ok(r.body[j], r.nvars()));
            assert(snap.tuples[r.body[j].pred.spec_index() as int].len()
                <= sv0.tuples[r.body[j].pred.spec_index() as int].len());
        }
    }
    let pattern = pattern_for(store, rule, chosen);
    let hits = store.scan(p, &pattern, from, to);
    proof {
        // The pattern and the hits are the same over the snapshot.
        assert forall|q: int| 0 <= q < pattern@.len() implies #[trigger] pattern@[q] == column_for(
            r,
            snap,
            before,
            q,
        ) by {
            assert(pattern@[q] == column_for(r, sv0, before, q));
            assert(atom_ok(r.body[depth as int], r.nvars()));
            let v = r.body[depth as int].vars[q] as int;
            assert(r.body[depth as int].vars[q] < r.nvars());
            let o = r.origin[v];
            assert(occurs_at(r.body, v, o));
            if o.0 < depth {
                let pj = r.body[o.0 as int].pred.spec_index() as int;
                assert(atom_ok(r.body[o.0 as int], r.nvars()));
                assert(before[o.0 as int] < snap.tuples[pj].len());
                assert(sv0.tuples[pj][before[o.0 as int] as int] == snap.tuples[pj][before[o.0 as int] as int]);
            }
        }
        assert(is_pattern_for(r, snap, before, pattern@));
    }
    let nh = hits.len();
    let mut changed = false;
    let mut h: usize = 0;
    while h < nh
        invariant
            ctx.wf(),
            ri < ctx.rules.len(),
            d < ctx.rules[ri as int].body.len(),
            rule == &ctx.rules[ri as int],
            r == rule@,
            names == ctx.names_view(),
            pts == ctx.pts(),
            rules == ctx.rules_view(),
            n == ctx.names.len(),
            store.wf(),
            store.symbols == ctx.names.len(),
            snap.wf(n),
            sv0.wf(n),
            snap.extended_by(store@),
            sv0.extended_by(store@),
            changed == (store@ != sv0),
            bounds_ok(lo@, snap),
            bounds_ok(hi@, snap),
            forall|q: int| 0 <= q < PRED_COUNT ==> #[trigger] lo@[q] <= hi@[q],
            chosen@ == before,
            before == old(chosen)@,
            chosen_ok(r, snap, before),
            depth == before.len(),
            depth < rule.body.len(),
            p == r.body[depth as int].pred.spec_index(),
            p < PRED_COUNT,
            to <= snap.tuples[p as int].len(),
            nh == hits@.len(),
            h <= nh,
            forall|k: int| 0 <= k < hits@.len() ==> from <= #[trigger] hits@[k] < to,
            sound(rules, pts, axioms, store@, names),
            forall|bd: Binding| #[trigger]
                matches_chosen(r, bd, snap, names, before) && applies_in(
                    r,
                    bd,
                    pts,
                    snap,
                    names,
                    d as int,
                    lo@,
                    hi@,
                ) && hit_before(r, bd, snap, names, depth as int, hits@, h as int) ==> fired(
                    r,
                    bd,
                    store@,
                    names,
                ),
        decreases nh - h,
    {
        let ghost sv1 = store@;
        let i = hits[h];
        let ghost next = before.push(i);
        proof {
            assert(chosen_ok(r, snap, next));
        }
        chosen.push(i);
        let grew = join(store, ctx, ri, d, lo, hi, chosen, Ghost(snap), Ghost(axioms));
        chosen.pop();
        assert(chosen@ =~= before);
        changed = changed || grew;
        proof {
            let sv2 = store@;
            lemma_extended_trans(snap, sv1, sv2);
            lemma_extended_trans(sv0, sv1, sv2);
            lemma_change_accumulates(sv0, sv1, sv2, n);
            assert forall|bd: Binding| #[trigger]
                matches_chosen(r, bd, snap, names, before) && applies_in(
                    r,
                    bd,
                    pts,
                    snap,
                    names,
                    d as int,
                    lo@,
                    hi@,
                ) && hit_before(r, bd, snap, names, depth as int, hits@, h + 1) implies fired(
                r,
                bd,
                sv2,
                names,
            ) by {
                if hit_before(r, bd, snap, names, depth as int, hits@, h as int) {
                    lemma_fired_extended(r, bd, sv1, sv2, names);
                } else {
                    let k = choose|k: int|
                        0 <= k < h + 1 && k < hits@.len() && #[trigger] snap.fact_at(
                            p as int,
                            hits@[k] as int,
                            names,
                        ) == instantiate(r.body[depth as int], bd);
                    assert(k == h);
                    assert forall|j: int| 0 <= j < next.len() implies #[trigger] level_matches(
                        r,
                        bd,
                        snap,
                        names,
                        next,
                        j,
                    ) by {
                        if j < before.len() {
                            assert(level_matches(r, bd, snap, names, before, j));
                        }
                    }
                    assert(matches_chosen(r, bd, snap, names, next));
                }
            }
        }
        h += 1;
    }
    proof {
        assert forall|bd: Binding| #[trigger]
            matches_chosen(r, bd, snap, names, before) && applies_in(
                r,
                bd,
                pts,
                snap,
                names,
                d as int,
                lo@,
                hi@,
            ) implies fired(r, bd, store@, names) by {
            let f = instantiate(r.body[depth as int], bd);
            assert(premise_in_level(r, bd, snap, names, d as int, lo@, hi@, depth as int));
            let w = choose|w: int|
                from <= w < to && 0 <= w < snap.tuples[f.pred.spec_index() as int].len()
                    && #[trigger] snap.fact_at(f.pred.spec_index() as int, w, names) == f;
            let next = before.push(w as usize);
            if !tuple_fits(snap.tuples[p as int][w], pattern@) {
                lemma_pattern_prunes(r, snap, names, before, pattern@, w as usize);
                assert forall|j: int| 0 <= j < next.len() implies #[trigger] level_matches(
                    r,
                    bd,
                    snap,
                    names,
                    next,
                    j,
                ) by {
                    if j < before.len() {
                        assert(level_matches(r, bd, snap, names, before, j));
                    }
                }
                assert(matches_chosen(r, bd, snap, names, next));
                assert(false);
            }
            assert(sv0.tuples[p as int][w] == snap.tuples[p as int][w]);
            assert(hits@.contains(w as usize));
            let k = choose|k: int| 0 <= k < hits@.len() && hits@[k] == w as usize;
            assert(snap.fact_at(p as int, hits@[k] as int, names) == f);
            assert(hit_before(r, bd, snap, names, depth as int, hits@, nh as int));
        }
    }
    changed
}

/// Runs every pass of every rule once: for each premise of each rule, the
/// firings in which that premise is matched by a new tuple, the premises
/// before it by old tuples, and those after it by any.
pub(crate) fn round(
    store: &mut Store,
    ctx: &Context,
    lo: &Vec<usize>,
    hi: &Vec<usize>,
    Ghost(axioms): Ghost<Set<FactView>>,
) -> (changed: bool)
    requires
        ctx.wf(),
        old(store).wf(),
        old(store).symbols == ctx.names.len(),
        bounds_ok(lo@, old(store)@),
        bounds_ok(hi@, old(store)@),
        forall|p: int| 0 <= p < PRED_COUNT ==> #[trigger] lo@[p] <= hi@[p],
        sound(ctx.rules_view(), ctx.pts(), axioms, old(store)@, ctx.names_view()),
        covered(ctx.rules_view(), ctx.pts(), old(store)@, ctx.names_view(), lo@),
    ensures
        final(store).wf(),
        final(store).symbols == ctx.names.len(),
        old(store)@.extended_by(final(store)@),
        changed == (final(store)@ != old(store)@),
        (forall|p: int| 0 <= p < PRED_COUNT ==> #[trigger] lo@[p] == hi@[p]) ==> !changed,
        sound(ctx.rules_view(), ctx.pts(), axioms, final(store)@, ctx.names_view()),
        covered(ctx.rules_view(), ctx.pts(), final(store)@, ctx.names_view(), hi@),
{
    let ghost snap = store@;
    let ghost names = ctx.names_view();
    let ghost pts = ctx.pts();
    let ghost rules = ctx.rules_view();
    proof {
        lemma_extended_refl(snap);
    }
    let ghost n = ctx.names.len() as int;
    let nr = ctx.rules.len();
    let mut changed = false;
    let mut ri: usize = 0;
    while ri < nr
        invariant
            n == ctx.names.len(),
            changed == (store@ != snap),
            (forall|p: int| 0 <= p < PRED_COUNT ==> #[trigger] lo@[p] == hi@[p]) ==> !changed,
            ctx.wf(),
            names == ctx.names_view(),
            pts == ctx.pts(),
            rules == ctx.rules_view(),
            nr == ctx.rules.len(),
            ri <= nr,
            store.wf(),
            store.symbols == ctx.names.len(),
            snap.wf(ctx.names.len() as int),
            snap.extended_by(store@),
            bounds_ok(lo@, snap),
            bounds_ok(hi@, snap),
            forall|p: int| 0 <= p < PRED_COUNT ==> #[trigger] lo@[p] <= hi@[p],
            sound(rules, pts, axioms, store@, names),
            forall|i: int, d: int|
                0 <= i < ri && 0 <= d < rules[i].body.len() ==> #[trigger] pass_done(
                    rules[i],
                    pts,
                    snap,
                    store@,
                    names,
                    d,
                    lo@,
                    hi@,
                ),
        decreases nr - ri,
    {
        let rule = &ctx.rules[ri];
        let ghost r = rule@;
        assert(rules[ri as int] == r);
        let nb = rule.body.len();
        let mut d: usize = 0;
        while d < nb
            invariant
                n == ctx.names.len(),
                changed == (store@ != snap),
                (forall|p: int| 0 <= p < PRED_COUNT ==> #[trigger] lo@[p] == hi@[p]) ==> !changed,
                ctx.wf(),
                names == ctx.names_view(),
                pts == ctx.pts(),
                rules == ctx.rules_view(),
                nr == ctx.rules.len(),
                ri < nr,
                rule == &ctx.rules[ri as int],
                r == rule@,
                rules[ri as int] == r,
                nb == rule.body.len(),
                d <= nb,
                store.wf(),
                store.symbols == ctx.names.len(),
                snap.wf(ctx.names.len() as int),
                snap.extended_by(store@),
                bounds_ok(lo@, snap),
                bounds_ok(hi@, snap),
                forall|p: int| 0 <= p < PRED_COUNT ==> #[trigger] lo@[p] <= hi@[p],
                sound(rules, pts, axioms, store@, names),
                forall|i: int, e: int|
                    0 <= i < ri && 0 <= e < rules[i].body.len() ==> #[trigger] pass_done(
                        rules[i],
                        pts,
                        snap,
                        store@,
                        names,
                        e,
                        lo@,
                        hi@,
                    ),
                forall|e: int|
                    0 <= e < d ==> #[trigger] pass_done(r, pts, snap, store@, names, e, lo@, hi@),
            decreases nb - d,
        {
            let ghost sv1 = store@;
            let a = &rule.body[d];
            assert(a@ == r.body[d as int]);
            let p = a.pred.index();
            if lo[p] < hi[p] {
                let mut chosen: Vec<usize> = Vec::new();
                let grew = join(store, ctx, ri, d, lo, hi, &mut chosen, Ghost(snap), Ghost(axioms));
                changed = changed || grew;
                proof {
                    lemma_change_accumulates(snap, sv1, store@, n);
                    assert forall|bd: Binding| #[trigger]
                        applies_in(r, bd, pts, snap, names, d as int, lo@, hi@) implies fired(
                        r,
                        bd,
                        store@,
                        names,
                    ) by {
                        assert(matches_chosen(r, bd, snap, names, Seq::<usize>::empty()));
                    }
                }
            } else {
                proof {
                    assert forall|bd: Binding| #[trigger]
                        applies_in(r, bd, pts, snap, names, d as int, lo@, hi@) implies fired(
                        r,
                        bd,
                        store@,
                        names,
                    ) by {
                        assert(premise_in_level(r, bd, snap, names, d as int, lo@, hi@, d as int));
                    }
                }
            }
            proof {
                let sv2 = store@;
                lemma_extended_trans(snap, sv1, sv2);
                assert forall|i: int, e: int|
                    0 <= i < ri && 0 <= e < rules[i].body.len() implies #[trigger] pass_done(
                    rules[i],
                    pts,
                    snap,
                    sv2,
                    names,
                    e,
                    lo@,
                    hi@,
                ) by {
                    assert(pass_done(rules[i], pts, snap, sv1, names, e, lo@, hi@));
                    lemma_pass_done_extended(rules[i], pts, snap, sv1, sv2, names, e, lo@, hi@);
                }
                assert forall|e: int| 0 <= e < d implies #[trigger] pass_done(
                    r,
                    pts,
                    snap,
                    sv2,
                    names,
                    e,
                    lo@,
                    hi@,
                ) by {
                    assert(pass_done(r, pts, snap, sv1, names, e, lo@, hi@));
                    lemma_pass_done_extended(r, pts, snap, sv1, sv2, names, e, lo@, hi@);
                }
            }
            d += 1;
        }
        ri += 1;
    }
    proof {
        lemma_round_covers(rules, pts, snap, store@, names, lo@, hi@);
    }
    changed
}

} // verus!
