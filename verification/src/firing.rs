//! One firing of a rule: from the tuples chosen for its premises to the
//! recorded conclusions.

use vstd::prelude::*;
use vstd::string::*;
use crate::context::Context;
use crate::fact::{FactView, PRED_COUNT, Pred, fact_id};
use crate::order::views;
use crate::orientation::{Coord, Triangle, same_orientation};
use crate::provenance::Derivation;
use crate::rule::{
    Atom, AtomView, Binding, Rule, RuleView, applies, atom_ok, closure, derived_by, distinct_ok,
    instantiate, lemma_applies_monotone, lemma_closure_step, occurs_at, orient_ok,
    rule_derivation, triangle_of,
};
use crate::saturation::{
    Names, entry_sound, fired, head_recorded, lemma_change_accumulates, lemma_extended_refl,
    lemma_extended_trans, lemma_facts_extended, lemma_insert, lemma_insert_changes,
    lemma_insert_sound, lemma_points_map, lemma_recorded_extended, names_distinct, sound,
    tuple_fact,
};
use crate::store::{Store, StoreView, tuple_ok};

verus! {

/// The names that a list of symbols stands for.
pub open spec fn binding_view(b: Seq<usize>, names: Names) -> Binding {
    Seq::new(b.len(), |v: int| names[b[v] as int])
}

/// The tuple chosen for premise `j`.
pub open spec fn chosen_tuple(r: RuleView, sv: StoreView, chosen: Seq<usize>, j: int) -> Seq<usize> {
    sv.tuples[r.body[j].pred.spec_index() as int][chosen[j] as int]
}

/// A tuple is chosen for each of the first premises, within its relation.
pub open spec fn chosen_ok(r: RuleView, sv: StoreView, chosen: Seq<usize>) -> bool {
    &&& chosen.len() <= r.body.len()
    &&& forall|j: int|
        0 <= j < chosen.len() ==> #[trigger] chosen[j] < sv.tuples[r.body[j].pred.spec_index() as int].len()
}

/// Premise `j` under the binding is the fact chosen for it.
pub open spec fn level_matches(
    r: RuleView,
    b: Binding,
    sv: StoreView,
    names: Names,
    chosen: Seq<usize>,
    j: int,
) -> bool {
    tuple_fact(r.body[j].pred.spec_index() as int, chosen_tuple(r, sv, chosen, j), names)
        == instantiate(r.body[j], b)
}

/// The binding maps each premise that has a chosen tuple to that tuple.
pub open spec fn matches_chosen(
    r: RuleView,
    b: Binding,
    sv: StoreView,
    names: Names,
    chosen: Seq<usize>,
) -> bool {
    &&& b.len() == r.nvars()
    &&& forall|j: int| 0 <= j < chosen.len() ==> #[trigger] level_matches(r, b, sv, names, chosen, j)
}

/// The symbol that the chosen tuples give to variable `v`.
pub open spec fn bound_symbol(r: RuleView, sv: StoreView, chosen: Seq<usize>, v: int) -> usize {
    chosen_tuple(r, sv, chosen, r.origin[v].0 as int)[r.origin[v].1 as int]
}

/// The tuple agrees with the atom under the symbols `b`.
pub open spec fn atom_matches(a: AtomView, t: Seq<usize>, b: Seq<usize>) -> bool {
    forall|q: int| 0 <= q < a.vars.len() ==> #[trigger] t[q] == b[a.vars[q] as int]
}

/// Every chosen tuple agrees with its atom under the symbols `b`.
pub open spec fn all_match(r: RuleView, sv: StoreView, chosen: Seq<usize>, b: Seq<usize>) -> bool {
    forall|j: int|
        0 <= j < r.body.len() ==> atom_matches(#[trigger] r.body[j], chosen_tuple(r, sv, chosen, j), b)
}

/// The symbols read off the chosen tuples.
pub open spec fn is_binding_of(r: RuleView, sv: StoreView, chosen: Seq<usize>, b: Seq<usize>, n: int) -> bool {
    &&& b.len() == r.nvars()
    &&& forall|v: int| 0 <= v < b.len() ==> #[trigger] b[v] == bound_symbol(r, sv, chosen, v)
    &&& forall|v: int| 0 <= v < b.len() ==> #[trigger] b[v] < n
}

/// A binding that matches all chosen tuples is the one read off them.
proof fn lemma_leaf_unique(
    r: RuleView,
    bd: Binding,
    sv: StoreView,
    names: Names,
    chosen: Seq<usize>,
    b: Seq<usize>,
)
    requires
        r.wf(),
        sv.wf(names.len() as int),
        names_distinct(names),
        chosen_ok(r, sv, chosen),
        chosen.len() == r.body.len(),
        is_binding_of(r, sv, chosen, b, names.len() as int),
        matches_chosen(r, bd, sv, names, chosen),
    ensures
        bd == binding_view(b, names),
        all_match(r, sv, chosen, b),
{
    let bv = binding_view(b, names);
    assert forall|v: int| 0 <= v < bd.len() implies bd[v] == bv[v] by {
        let o = r.origin[v];
        assert(occurs_at(r.body, v, o));
        let j = o.0 as int;
        assert(level_matches(r, bd, sv, names, chosen, j));
        let t = chosen_tuple(r, sv, chosen, j);
        let f = instantiate(r.body[j], bd);
        assert(f.args[o.1 as int] == bd[v]);
        assert(tuple_fact(r.body[j].pred.spec_index() as int, t, names).args[o.1 as int]
            == names[t[o.1 as int] as int]);
        assert(b[v] == bound_symbol(r, sv, chosen, v));
    }
    assert(bd =~= bv);
    assert forall|j: int| 0 <= j < r.body.len() implies atom_matches(
        #[trigger] r.body[j],
        chosen_tuple(r, sv, chosen, j),
        b,
    ) by {
        let a = r.body[j];
        let p = a.pred.spec_index() as int;
        let t = chosen_tuple(r, sv, chosen, j);
        assert(level_matches(r, bd, sv, names, chosen, j));
        assert(atom_ok(a, r.nvars()));
        assert(chosen[j] < sv.tuples[p].len());
        assert(tuple_ok(p, sv.tuples[p][chosen[j] as int], names.len() as int));
        assert forall|q: int| 0 <= q < a.vars.len() implies #[trigger] t[q] == b[a.vars[q] as int] by {
            let v = a.vars[q] as int;
            assert(instantiate(a, bd).args[q] == bd[v]);
            assert(tuple_fact(p, t, names).args[q] == names[t[q] as int]);
            assert(bv[v] == names[b[v] as int]);
            assert(t[q] < names.len());
            assert(b[v] < names.len());
        }
    }
}

/// If every chosen tuple agrees with its atom, the names of the symbols are
/// a binding that matches them.
proof fn lemma_leaf_matches(r: RuleView, sv: StoreView, names: Names, chosen: Seq<usize>, b: Seq<usize>)
    requires
        r.wf(),
        sv.wf(names.len() as int),
        chosen_ok(r, sv, chosen),
        chosen.len() == r.body.len(),
        b.len() == r.nvars(),
        all_match(r, sv, chosen, b),
    ensures
        matches_chosen(r, binding_view(b, names), sv, names, chosen),
{
    let bv = binding_view(b, names);
    assert forall|j: int| 0 <= j < chosen.len() implies #[trigger] level_matches(
        r,
        bv,
        sv,
        names,
        chosen,
        j,
    ) by {
        let a = r.body[j];
        let p = a.pred.spec_index() as int;
        let t = chosen_tuple(r, sv, chosen, j);
        assert(atom_ok(a, r.nvars()));
        assert(atom_matches(a, t, b));
        assert(chosen[j] < sv.tuples[p].len());
        assert(tuple_ok(p, sv.tuples[p][chosen[j] as int], names.len() as int));
        let f1 = tuple_fact(p, t, names);
        let f2 = instantiate(a, bv);
        assert(f1.args.len() == f2.args.len());
        assert forall|q: int| 0 <= q < f1.args.len() implies f1.args[q] == f2.args[q] by {
            assert(t[q] == b[a.vars[q] as int]);
            assert(a.vars[q] < r.nvars());
        }
        assert(f1.args =~= f2.args);
        assert(Pred::spec_from_index(p) == a.pred);
    }
}

/// Reads the symbol of each variable off the chosen tuples.
fn binding_of(store: &Store, rule: &Rule, chosen: &Vec<usize>) -> (b: Vec<usize>)
    requires
        store.wf(),
        rule@.wf(),
        chosen_ok(rule@, store@, chosen@),
        chosen.len() == rule.body.len(),
    ensures
        is_binding_of(rule@, store@, chosen@, b@, store.symbols as int),
{
    let mut b: Vec<usize> = Vec::new();
    let n = rule.origin.len();
    let mut v: usize = 0;
    while v < n
        invariant
            store.wf(),
            rule@.wf(),
            chosen_ok(rule@, store@, chosen@),
            chosen.len() == rule.body.len(),
            n == rule.origin.len(),
            v <= n,
            b@.len() == v,
            forall|w: int| 0 <= w < v ==> #[trigger] b@[w] == bound_symbol(rule@, store@, chosen@, w),
            forall|w: int| 0 <= w < v ==> #[trigger] b@[w] < store.symbols,
        decreases n - v,
    {
        let o = rule.origin[v];
        assert(occurs_at(rule@.body, v as int, rule@.origin[v as int]));
        let a = &rule.body[o.0];
        assert(a@ == rule@.body[o.0 as int]);
        let p = a.pred.index();
        assert(chosen@[o.0 as int] < store@.tuples[p as int].len());
        let t = &store.rels[p][chosen[o.0]];
        assert(t@ == store@.tuples[p as int][chosen@[o.0 as int] as int]);
        assert(tuple_ok(p as int, t@, store.symbols as int));
        assert(atom_ok(rule@.body[o.0 as int], rule@.nvars()));
        b.push(t[o.1]);
        v += 1;
    }
    b
}

/// Tells whether a tuple agrees with an atom under the symbols `b`.
fn tuple_matches(a: &Atom, t: &Vec<usize>, b: &Vec<usize>) -> (ok: bool)
    requires
        a.vars.len() == t.len(),
        forall|q: int| 0 <= q < a.vars.len() ==> #[trigger] a.vars[q] < b.len(),
    ensures
        ok == atom_matches(a@, t@, b@),
{
    let n = t.len();
    let mut q: usize = 0;
    while q < n
        invariant
            n == t.len(),
            a.vars.len() == n,
            q <= n,
            forall|k: int| 0 <= k < a.vars.len() ==> #[trigger] a.vars[k] < b.len(),
            forall|k: int| 0 <= k < q ==> #[trigger] t@[k] == b@[a@.vars[k] as int],
        decreases n - q,
    {
        if t[q] != b[a.vars[q]] {
            return false;
        }
        q += 1;
    }
    true
}

/// Tells whether every chosen tuple agrees with its atom under `b`.
fn consistent(store: &Store, rule: &Rule, chosen: &Vec<usize>, b: &Vec<usize>) -> (ok: bool)
    requires
        store.wf(),
        rule@.wf(),
        chosen_ok(rule@, store@, chosen@),
        chosen.len() == rule.body.len(),
        b.len() == rule@.nvars(),
    ensures
        ok == all_match(rule@, store@, chosen@, b@),
{
    let n = rule.body.len();
    let mut j: usize = 0;
    while j < n
        invariant
            store.wf(),
            rule@.wf(),
            chosen_ok(rule@, store@, chosen@),
            chosen.len() == rule.body.len(),
            b.len() == rule@.nvars(),
            n == rule.body.len(),
            j <= n,
            forall|k: int|
                0 <= k < j ==> atom_matches(
                    #[trigger] rule@.body[k],
                    chosen_tuple(rule@, store@, chosen@, k),
                    b@,
                ),
        decreases n - j,
    {
        let a = &rule.body[j];
        assert(a@ == rule@.body[j as int]);
        let p = a.pred.index();
        assert(chosen@[j as int] < store@.tuples[p as int].len());
        let t = &store.rels[p][chosen[j]];
        assert(t@ == chosen_tuple(rule@, store@, chosen@, j as int));
        assert(tuple_ok(p as int, store@.tuples[p as int][chosen@[j as int] as int], store.symbols as int));
        assert(atom_ok(rule@.body[j as int], rule@.nvars()));
        if !tuple_matches(a, t, b) {
            return false;
        }
        j += 1;
    }
    true
}

/// Tells whether the variables that must differ have different symbols.
fn distinct_holds(ctx: &Context, rule: &Rule, b: &Vec<usize>) -> (ok: bool)
    requires
        ctx.wf(),
        rule@.wf(),
        b.len() == rule@.nvars(),
        forall|v: int| 0 <= v < b.len() ==> #[trigger] b[v] < ctx.names.len(),
    ensures
        ok == distinct_ok(rule@, binding_view(b@, ctx.names_view())),
{
    let ghost names = ctx.names_view();
    let ghost bv = binding_view(b@, names);
    let n = rule.distinct.len();
    let mut i: usize = 0;
    while i < n
        invariant
            ctx.wf(),
            rule@.wf(),
            names == ctx.names_view(),
            bv == binding_view(b@, names),
            b.len() == rule@.nvars(),
            forall|v: int| 0 <= v < b.len() ==> #[trigger] b[v] < ctx.names.len(),
            n == rule.distinct.len(),
            i <= n,
            forall|k: int|
                0 <= k < i ==> bv[(#[trigger] rule@.distinct[k]).0 as int] != bv[rule@.distinct[k].1 as int],
        decreases n - i,
    {
        let pair = rule.distinct[i];
        assert(pair == rule@.distinct[i as int]);
        assert(pair.0 < rule@.nvars() && pair.1 < rule@.nvars());
        let x = b[pair.0];
        let y = b[pair.1];
        assert(bv[pair.0 as int] == names[x as int]);
        assert(bv[pair.1 as int] == names[y as int]);
        if x == y {
            return false;
        }
        i += 1;
    }
    true
}

/// Tells whether the orientation condition of the rule holds: the two
/// triangles turn the same way.
fn orient_holds(ctx: &Context, rule: &Rule, b: &Vec<usize>) -> (ok: bool)
    requires
        ctx.wf(),
        rule@.wf(),
        b.len() == rule@.nvars(),
        forall|v: int| 0 <= v < b.len() ==> #[trigger] b[v] < ctx.names.len(),
    ensures
        ok == orient_ok(rule@, binding_view(b@, ctx.names_view()), ctx.pts()),
{
    if rule.orient.len() != 6 {
        return true;
    }
    let ghost names = ctx.names_view();
    let ghost bv = binding_view(b@, names);
    let ghost r = rule@;
    let mut cs: Vec<Coord> = Vec::new();
    let mut k: usize = 0;
    while k < 6
        invariant
            ctx.wf(),
            r == rule@,
            r.wf(),
            r.orient.len() == 6,
            names == ctx.names_view(),
            bv == binding_view(b@, names),
            b.len() == r.nvars(),
            forall|v: int| 0 <= v < b.len() ==> #[trigger] b[v] < ctx.names.len(),
            k <= 6,
            cs@.len() == k,
            forall|m: int| 0 <= m < k ==> ctx.pts().dom().contains(#[trigger] bv[r.orient[m] as int]),
            forall|m: int| 0 <= m < k ==> #[trigger] cs@[m] == ctx.pts()[bv[r.orient[m] as int]],
        decreases 6 - k,
    {
        let v = rule.orient[k];
        assert(v == r.orient[k as int]);
        assert(v < r.nvars());
        let s = b[v];
        proof {
            lemma_points_map(names, ctx.coords@, s as int);
            assert(bv[v as int] == names[s as int]);
        }
        cs.push(ctx.coords[s]);
        k += 1;
    }
    let t1 = Triangle { a: cs[0], b: cs[1], c: cs[2] };
    let t2 = Triangle { a: cs[3], b: cs[4], c: cs[5] };
    proof {
        assert(t1 == triangle_of(r, bv, ctx.pts(), 0));
        assert(t2 == triangle_of(r, bv, ctx.pts(), 3));
    }
    same_orientation(&t1, &t2)
}

/// The names of the symbols of a tuple.
pub(crate) fn names_of(ctx: &Context, t: &Vec<usize>) -> (args: Vec<String>)
    requires
        forall|k: int| 0 <= k < t.len() ==> #[trigger] t[k] < ctx.names.len(),
    ensures
        views(args@) == Seq::new(t@.len(), |k: int| ctx.names_view()[t@[k] as int]),
{
    let mut args: Vec<String> = Vec::new();
    let n = t.len();
    let mut k: usize = 0;
    while k < n
        invariant
            n == t.len(),
            k <= n,
            args@.len() == k,
            forall|m: int| 0 <= m < t.len() ==> #[trigger] t[m] < ctx.names.len(),
            forall|m: int| 0 <= m < k ==> (#[trigger] args@[m])@ == ctx.names@[t@[m] as int]@,
        decreases n - k,
    {
        args.push(ctx.names[t[k]].clone());
        k += 1;
    }
    assert(views(args@) =~= Seq::new(t@.len(), |k: int| ctx.names_view()[t@[k] as int]));
    args
}

/// The derivation that the rule gives its conclusions when its premises are
/// the chosen tuples.
fn derivation_for(
    store: &Store,
    ctx: &Context,
    rule: &Rule,
    chosen: &Vec<usize>,
    Ghost(bd): Ghost<Binding>,
) -> (d: Derivation)
    requires
        store.wf(),
        store.symbols == ctx.names.len(),
        rule@.wf(),
        chosen_ok(rule@, store@, chosen@),
        chosen.len() == rule.body.len(),
        matches_chosen(rule@, bd, store@, ctx.names_view(), chosen@),
    ensures
        d@ == rule_derivation(rule@, bd),
{
    let ghost r = rule@;
    let ghost names = ctx.names_view();
    let mut parents: Vec<String> = Vec::new();
    let n = rule.body.len();
    let mut j: usize = 0;
    while j < n
        invariant
            store.wf(),
            store.symbols == ctx.names.len(),
            r == rule@,
            r.wf(),
            names == ctx.names_view(),
            chosen_ok(r, store@, chosen@),
            chosen.len() == rule.body.len(),
            matches_chosen(r, bd, store@, names, chosen@),
            n == rule.body.len(),
            j <= n,
            parents@.len() == j,
            forall|k: int| 0 <= k < j ==> (#[trigger] parents@[k])@ == instantiate(r.body[k], bd).id(),
        decreases n - j,
    {
        let a = &rule.body[j];
        assert(a@ == r.body[j as int]);
        let p = a.pred.index();
        assert(chosen@[j as int] < store@.tuples[p as int].len());
        let t = &store.rels[p][chosen[j]];
        assert(t@ == chosen_tuple(r, store@, chosen@, j as int));
        assert(tuple_ok(p as int, store@.tuples[p as int][chosen@[j as int] as int], store.symbols as int));
        assert(level_matches(r, bd, store@, names, chosen@, j as int));
        let args = names_of(ctx, t);
        let id = fact_id(a.pred.name(), &args);
        assert(views(args@) == tuple_fact(p as int, t@, names).args);
        parents.push(id);
        j += 1;
    }
    let d = Derivation::new(rule.tag.as_str(), parents);
    proof {
        let want = rule_derivation(r, bd);
        let ids = views(parents@);
        assert forall|id: Seq<char>| ids.to_set().contains(id) <==> want.parents.contains(id) by {
            if ids.contains(id) {
                let k = choose|k: int| 0 <= k < ids.len() && ids[k] == id;
                assert(id == instantiate(r.body[k], bd).id());
            }
            if want.parents.contains(id) {
                let k = choose|k: int|
                    0 <= k < r.body.len() && id == #[trigger] instantiate(r.body[k], bd).id();
                assert(ids[k] == id);
            }
        }
        assert(d@.parents =~= want.parents);
    }
    d
}

/// The tuple that an atom stands for under the symbols `b`.
fn head_tuple(a: &Atom, b: &Vec<usize>) -> (t: Vec<usize>)
    requires
        forall|q: int| 0 <= q < a.vars.len() ==> #[trigger] a.vars[q] < b.len(),
    ensures
        t@.len() == a.vars.len(),
        forall|q: int| 0 <= q < t@.len() ==> #[trigger] t@[q] == b@[a.vars@[q] as int],
{
    let mut t: Vec<usize> = Vec::new();
    let n = a.vars.len();
    let mut q: usize = 0;
    while q < n
        invariant
            n == a.vars.len(),
            q <= n,
            t@.len() == q,
            forall|k: int| 0 <= k < a.vars.len() ==> #[trigger] a.vars[k] < b.len(),
            forall|k: int| 0 <= k < q ==> #[trigger] t@[k] == b@[a.vars@[k] as int],
        decreases n - q,
    {
        t.push(b[a.vars[q]]);
        q += 1;
    }
    t
}

/// The facts of a sound store lie in the closure.
proof fn lemma_sound_in_closure(
    rules: Seq<RuleView>,
    pts: Map<Seq<char>, Coord>,
    axioms: Set<FactView>,
    sv: StoreView,
    names: Names,
)
    requires
        sound(rules, pts, axioms, sv, names),
    ensures
        sv.facts(names).subset_of(closure(rules, pts, axioms)),
{
    assert forall|f: FactView| sv.facts(names).contains(f) implies closure(rules, pts, axioms).contains(
        f,
    ) by {
        let (p, i) = choose|p: int, i: int|
            0 <= p < PRED_COUNT && 0 <= i < sv.tuples[p].len() && #[trigger] sv.fact_at(p, i, names)
                == f;
        assert(entry_sound(rules, pts, axioms, sv, names, p, i));
    }
}

/// With a tuple chosen for every premise: checks that the tuples fit the
/// rule and that its side conditions hold, and if so records each conclusion
/// with the rule's derivation.
pub(crate) fn emit(
    store: &mut Store,
    ctx: &Context,
    ri: usize,
    chosen: &Vec<usize>,
    Ghost(snap): Ghost<StoreView>,
    Ghost(axioms): Ghost<Set<FactView>>,
) -> (changed: bool)
    requires
        ctx.wf(),
        ri < ctx.rules.len(),
        old(store).wf(),
        old(store).symbols == ctx.names.len(),
        snap.extended_by(old(store)@),
        snap.wf(ctx.names.len() as int),
        chosen_ok(ctx.rules[ri as int]@, snap, chosen@),
        chosen.len() == ctx.rules[ri as int].body.len(),
        sound(ctx.rules_view(), ctx.pts(), axioms, old(store)@, ctx.names_view()),
    ensures
        final(store).wf(),
        final(store).symbols == ctx.names.len(),
        old(store)@.extended_by(final(store)@),
        changed == (final(store)@ != old(store)@),
        sound(ctx.rules_view(), ctx.pts(), axioms, final(store)@, ctx.names_view()),
        forall|bd: Binding| #[trigger]
            matches_chosen(ctx.rules[ri as int]@, bd, snap, ctx.names_view(), chosen@) && distinct_ok(
                ctx.rules[ri as int]@,
                bd,
            ) && orient_ok(ctx.rules[ri as int]@, bd, ctx.pts()) ==> fired(
                ctx.rules[ri as int]@,
                bd,
                final(store)@,
                ctx.names_view(),
            ),
{
    let rule = &ctx.rules[ri];
    let ghost r = rule@;
    let ghost names = ctx.names_view();
    let ghost pts = ctx.pts();
    let ghost rules = ctx.rules_view();
    let ghost n = ctx.names.len() as int;
    let ghost sv0 = store@;
    assert(rules[ri as int] == r);
    proof {
        lemma_extended_refl(sv0);
        assert forall|j: int| 0 <= j < chosen@.len() implies #[trigger] chosen@[j]
            < sv0.tuples[r.body[j].pred.spec_index() as int].len() && chosen_tuple(r, sv0, chosen@, j)
            == chosen_tuple(r, snap, chosen@, j) by {
            let p = r.body[j].pred.spec_index() as int;
            assert(atom_ok(r.body[j], r.nvars()));
            assert(snap.tuples[p].len() <= sv0.tuples[p].len());
            assert(sv0.tuples[p][chosen@[j] as int] == snap.tuples[p][chosen@[j] as int]);
        }
    }
    let b = binding_of(store, rule, chosen);
    let ghost bv = binding_view(b@, names);
    proof {
        assert forall|v: int| 0 <= v < b@.len() implies #[trigger] b@[v] == bound_symbol(
            r,
            snap,
            chosen@,
            v,
        ) by {
            assert(occurs_at(r.body, v, r.origin[v]));
            assert(b@[v] == bound_symbol(r, sv0, chosen@, v));
        }
        assert(is_binding_of(r, snap, chosen@, b@, n));
        assert forall|bd: Binding| #[trigger]
            matches_chosen(r, bd, snap, names, chosen@) implies bd == bv && all_match(
            r,
            snap,
            chosen@,
            b@,
        ) by {
            lemma_leaf_unique(r, bd, snap, names, chosen@, b@);
        }
        assert(all_match(r, snap, chosen@, b@) == all_match(r, sv0, chosen@, b@)) by {
            if all_match(r, snap, chosen@, b@) {
                assert forall|j: int| 0 <= j < r.body.len() implies atom_matches(
                    #[trigger] r.body[j],
                    chosen_tuple(r, sv0, chosen@, j),
                    b@,
                ) by {
                    assert(chosen@[j] < sv0.tuples[r.body[j].pred.spec_index() as int].len());
                }
            }
            if all_match(r, sv0, chosen@, b@) {
                assert forall|j: int| 0 <= j < r.body.len() implies atom_matches(
                    #[trigger] r.body[j],
                    chosen_tuple(r, snap, chosen@, j),
                    b@,
                ) by {
                    assert(chosen@[j] < sv0.tuples[r.body[j].pred.spec_index() as int].len());
                }
            }
        }
    }
    if !consistent(store, rule, chosen, &b) {
        return false;
    }
    if !distinct_holds(ctx, rule, &b) {
        return false;
    }
    if !orient_holds(ctx, rule, &b) {
        return false;
    }
    proof {
        lemma_leaf_matches(r, snap, names, chosen@, b@);
        lemma_leaf_matches(r, sv0, names, chosen@, b@);
    }
    let d = derivation_for(store, ctx, rule, chosen, Ghost(bv));
    proof {
        // The rule fires on the facts of the store.
        assert forall|j: int| 0 <= j < r.body.len() implies sv0.facts(names).contains(
            #[trigger] instantiate(r.body[j], bv),
        ) by {
            let p = r.body[j].pred.spec_index() as int;
            assert(level_matches(r, bv, sv0, names, chosen@, j));
            assert(chosen@[j] < sv0.tuples[p].len());
            assert(atom_ok(r.body[j], r.nvars()));
            assert(sv0.fact_at(p, chosen@[j] as int, names) == instantiate(r.body[j], bv));
        }
        assert(applies(r, bv, pts, sv0.facts(names)));
    }
    let nh = rule.heads.len();
    let mut changed = false;
    let mut h: usize = 0;
    while h < nh
        invariant
            changed == (store@ != sv0),
            sv0.wf(n),
            ctx.wf(),
            ri < ctx.rules.len(),
            rule == &ctx.rules[ri as int],
            r == rule@,
            rules == ctx.rules_view(),
            rules[ri as int] == r,
            names == ctx.names_view(),
            pts == ctx.pts(),
            n == ctx.names.len(),
            bv == binding_view(b@, names),
            b@.len() == r.nvars(),
            forall|v: int| 0 <= v < b@.len() ==> #[trigger] b@[v] < n,
            store.wf(),
            store.symbols == ctx.names.len(),
            sv0.extended_by(store@),
            sound(rules, pts, axioms, store@, names),
            applies(r, bv, pts, sv0.facts(names)),
            d@ == rule_derivation(r, bv),
            nh == rule.heads.len(),
            h <= nh,
            forall|k: int| 0 <= k < h ==> #[trigger] head_recorded(r, bv, store@, names, k),
        decreases nh - h,
    {
        let a = &rule.heads[h];
        assert(a@ == r.heads[h as int]);
        assert(atom_ok(r.heads[h as int], r.nvars()));
        let p = a.pred.index();
        let t = head_tuple(a, &b);
        let ghost sv1 = store@;
        let ghost f = tuple_fact(p as int, t@, names);
        proof {
            assert(tuple_ok(p as int, t@, n));
            assert(f.args =~= instantiate(r.heads[h as int], bv).args);
            assert(f == instantiate(r.heads[h as int], bv));
            lemma_insert(sv1, n, p as int, t@, d@, names);
            lemma_insert_changes(sv1, n, p as int, t@, d@);
            let sv2 = sv1.insert(p as int, t@, d@);
            lemma_change_accumulates(sv0, sv1, sv2, n);
            lemma_facts_extended(sv0, sv1, names);
            lemma_facts_extended(sv1, sv2, names);
            lemma_applies_monotone(r, bv, pts, sv0.facts(names), sv1.facts(names));
            lemma_applies_monotone(r, bv, pts, sv0.facts(names), sv2.facts(names));
            lemma_sound_in_closure(rules, pts, axioms, sv1, names);
            lemma_closure_step(rules, pts, axioms, ri as int, bv, h as int, sv1.facts(names));
            assert(derived_by(rules[ri as int], bv, h as int, pts, sv2.facts(names), f, d@));
            lemma_insert_sound(rules, pts, axioms, sv1, names, n, p as int, t@, d@);
            lemma_extended_trans(sv0, sv1, sv2);
            assert forall|k: int| 0 <= k < h implies #[trigger] head_recorded(r, bv, sv2, names, k) by {
                assert(head_recorded(r, bv, sv1, names, k));
                lemma_recorded_extended(sv1, sv2, names, instantiate(r.heads[k], bv), d@);
            }
            assert(head_recorded(r, bv, sv2, names, h as int));
        }
        let grew = store.insert(p, t, d.clone());
        changed = changed || grew;
        h += 1;
    }
    proof {
        assert(fired(r, bv, store@, names));
    }
    changed
}

} // verus!
