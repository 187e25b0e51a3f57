//! What the evaluator maintains while it saturates a store, stated over the
//! store as a value, and the lemmas by which each step keeps it.

use vstd::prelude::*;
use crate::fact::{FactView, PRED_COUNT, Pred};
use crate::orientation::Coord;
use crate::provenance::DerivationView;
use crate::rule::{
    Binding, RuleView, applies, axiom_derivation, closure, derived_by, distinct_ok, instantiate,
    justified, lemma_applies_monotone, orient_ok, provenance_of, rule_derivation, saturated,
    step_holds, trivial_derivation, trivial_fact,
};
use crate::store::{StoreView, tuple_ok};

verus! {

/// The table of names: the name of symbol `i` is `names[i]`.
pub type Names = Seq<Seq<char>>;

/// No name stands twice in the table.
pub open spec fn names_distinct(names: Names) -> bool {
    forall|i: int, j: int|
        0 <= i < names.len() && 0 <= j < names.len() && i != j ==> #[trigger] names[i]
            != #[trigger] names[j]
}

/// The fact that a tuple of symbols stands for.
pub open spec fn tuple_fact(p: int, t: Seq<usize>, names: Names) -> FactView {
    FactView {
        pred: Pred::spec_from_index(p),
        args: Seq::new(t.len(), |k: int| names[t[k] as int]),
    }
}

/// The points as a map from names to coordinates: the name at a place of
/// the table has the coordinates at that place.
pub open spec fn points_map(names: Names, coords: Seq<Coord>) -> Map<Seq<char>, Coord> {
    Map::new(
        |n: Seq<char>|
            exists|i: int| 0 <= i < coords.len() && i < names.len() && #[trigger] names[i] == n,
        |n: Seq<char>|
            coords[choose|i: int| 0 <= i < coords.len() && i < names.len() && #[trigger] names[i] == n],
    )
}

/// A symbol is a point exactly if it has coordinates, and then the map
/// gives them for its name.
pub proof fn lemma_points_map(names: Names, coords: Seq<Coord>, s: int)
    requires
        names_distinct(names),
        coords.len() <= names.len(),
        0 <= s < names.len(),
    ensures
        points_map(names, coords).dom().contains(names[s]) <==> s < coords.len(),
        s < coords.len() ==> points_map(names, coords)[names[s]] == coords[s],
{
    if s < coords.len() {
        let i = choose|i: int|
            0 <= i < coords.len() && i < names.len() && #[trigger] names[i] == names[s];
        assert(i == s);
    }
}

/// Tuples of symbols of the table stand for the same fact only if they are
/// the same tuple.
pub proof fn lemma_tuple_fact_injective(p: int, t: Seq<usize>, u: Seq<usize>, names: Names)
    requires
        names_distinct(names),
        forall|k: int| 0 <= k < t.len() ==> #[trigger] t[k] < names.len(),
        forall|k: int| 0 <= k < u.len() ==> #[trigger] u[k] < names.len(),
        tuple_fact(p, t, names) == tuple_fact(p, u, names),
    ensures
        t == u,
{
    let a = tuple_fact(p, t, names).args;
    let b = tuple_fact(p, u, names).args;
    assert(a.len() == t.len());
    assert(b.len() == u.len());
    assert forall|k: int| 0 <= k < t.len() implies t[k] == u[k] by {
        assert(a[k] == names[t[k] as int]);
        assert(b[k] == names[u[k] as int]);
    }
    assert(t =~= u);
}

impl StoreView {
    /// The fact at a place of the store.
    pub open spec fn fact_at(self, p: int, i: int, names: Names) -> FactView {
        tuple_fact(p, self.tuples[p][i], names)
    }

    /// All facts of the store.
    pub open spec fn facts(self, names: Names) -> Set<FactView> {
        Set::new(
            |f: FactView|
                exists|p: int, i: int|
                    0 <= p < PRED_COUNT && 0 <= i < self.tuples[p].len() && #[trigger] self.fact_at(
                        p,
                        i,
                        names,
                    ) == f,
        )
    }

    /// `other` holds everything that `self` holds, at the same places.
    pub open spec fn extended_by(self, other: StoreView) -> bool {
        &&& forall|p: int|
            0 <= p < PRED_COUNT ==> (#[trigger] self.tuples[p]).len() <= other.tuples[p].len()
        &&& forall|p: int, i: int|
            0 <= p < PRED_COUNT && 0 <= i < self.tuples[p].len() ==> #[trigger] other.tuples[p][i]
                == self.tuples[p][i]
        &&& forall|p: int, i: int|
            0 <= p < PRED_COUNT && 0 <= i < self.tuples[p].len() ==> (#[trigger] self.provs[p][i]).subset_of(
                other.provs[p][i],
            )
    }
}

/// The fact stands in its relation at a place from `from` up to `to`.
pub open spec fn held_in(sv: StoreView, names: Names, f: FactView, from: int, to: int) -> bool {
    exists|i: int|
        from <= i < to && 0 <= i < sv.tuples[f.pred.spec_index() as int].len() && #[trigger] sv.fact_at(
            f.pred.spec_index() as int,
            i,
            names,
        ) == f
}

/// The fact stands in the store together with the derivation.
pub open spec fn recorded(sv: StoreView, names: Names, f: FactView, d: DerivationView) -> bool {
    exists|i: int|
        0 <= i < sv.tuples[f.pred.spec_index() as int].len() && #[trigger] sv.fact_at(
            f.pred.spec_index() as int,
            i,
            names,
        ) == f && sv.provs[f.pred.spec_index() as int][i].contains(d)
}

/// One bound per predicate, none beyond the end of its relation.
pub open spec fn bounds_ok(bound: Seq<usize>, sv: StoreView) -> bool {
    &&& bound.len() == PRED_COUNT
    &&& forall|p: int| 0 <= p < PRED_COUNT ==> #[trigger] bound[p] <= sv.tuples[p].len()
}

/// First place from which premise `j` is drawn when premise `d` is the one
/// drawn from the new tuples.
pub open spec fn level_from(d: int, j: int, lo: Seq<usize>, p: int) -> int {
    if j == d {
        lo[p] as int
    } else {
        0
    }
}

/// The place before which premise `j` is drawn when premise `d` is the one
/// drawn from the new tuples: earlier premises come from the old tuples,
/// later ones from all.
pub open spec fn level_to(d: int, j: int, lo: Seq<usize>, hi: Seq<usize>, p: int) -> int {
    if j < d {
        lo[p] as int
    } else {
        hi[p] as int
    }
}

/// Premise `j` of the rule, under the binding, stands where pass `d` looks
/// for it.
pub open spec fn premise_in_level(
    r: RuleView,
    b: Binding,
    sv: StoreView,
    names: Names,
    d: int,
    lo: Seq<usize>,
    hi: Seq<usize>,
    j: int,
) -> bool {
    held_in(
        sv,
        names,
        instantiate(r.body[j], b),
        level_from(d, j, lo, r.body[j].pred.spec_index() as int),
        level_to(d, j, lo, hi, r.body[j].pred.spec_index() as int),
    )
}

/// The rule fires under the binding with the premises that pass `d` sees.
pub open spec fn applies_in(
    r: RuleView,
    b: Binding,
    pts: Map<Seq<char>, Coord>,
    sv: StoreView,
    names: Names,
    d: int,
    lo: Seq<usize>,
    hi: Seq<usize>,
) -> bool {
    &&& b.len() == r.nvars()
    &&& forall|j: int|
        0 <= j < r.body.len() ==> #[trigger] premise_in_level(r, b, sv, names, d, lo, hi, j)
    &&& distinct_ok(r, b)
    &&& orient_ok(r, b, pts)
}

/// Premise `j` stands before the bound of its relation.
pub open spec fn premise_upto(
    r: RuleView,
    b: Binding,
    sv: StoreView,
    names: Names,
    bound: Seq<usize>,
    j: int,
) -> bool {
    held_in(sv, names, instantiate(r.body[j], b), 0, bound[r.body[j].pred.spec_index() as int] as int)
}

/// The rule fires under the binding on premises that all stand before the
/// bounds.
pub open spec fn applies_upto(
    r: RuleView,
    b: Binding,
    pts: Map<Seq<char>, Coord>,
    sv: StoreView,
    names: Names,
    bound: Seq<usize>,
) -> bool {
    &&& b.len() == r.nvars()
    &&& forall|j: int| 0 <= j < r.body.len() ==> #[trigger] premise_upto(r, b, sv, names, bound, j)
    &&& distinct_ok(r, b)
    &&& orient_ok(r, b, pts)
}

/// Conclusion `h` of the rule stands in the store with the rule's derivation.
pub open spec fn head_recorded(r: RuleView, b: Binding, sv: StoreView, names: Names, h: int) -> bool {
    recorded(sv, names, instantiate(r.heads[h], b), rule_derivation(r, b))
}

/// All conclusions of the rule under the binding are recorded.
pub open spec fn fired(r: RuleView, b: Binding, sv: StoreView, names: Names) -> bool {
    forall|h: int| 0 <= h < r.heads.len() ==> #[trigger] head_recorded(r, b, sv, names, h)
}

/// Every firing of a rule on premises before the bounds is recorded.
pub open spec fn covered(
    rules: Seq<RuleView>,
    pts: Map<Seq<char>, Coord>,
    sv: StoreView,
    names: Names,
    bound: Seq<usize>,
) -> bool {
    forall|i: int, b: Binding|
        0 <= i < rules.len() && #[trigger] applies_upto(rules[i], b, pts, sv, names, bound)
            ==> fired(rules[i], b, sv, names)
}

/// Every firing that pass `d` of rule `r` sees in `snap` is recorded in `sv`.
pub open spec fn pass_done(
    r: RuleView,
    pts: Map<Seq<char>, Coord>,
    snap: StoreView,
    sv: StoreView,
    names: Names,
    d: int,
    lo: Seq<usize>,
    hi: Seq<usize>,
) -> bool {
    forall|b: Binding| #[trigger]
        applies_in(r, b, pts, snap, names, d, lo, hi) ==> fired(r, b, sv, names)
}

/// The entry at a place is sound: its fact is in the closure, it has a
/// derivation, and each of its derivations is justified over the store.
pub open spec fn entry_sound(
    rules: Seq<RuleView>,
    pts: Map<Seq<char>, Coord>,
    axioms: Set<FactView>,
    sv: StoreView,
    names: Names,
    p: int,
    i: int,
) -> bool {
    &&& closure(rules, pts, axioms).contains(sv.fact_at(p, i, names))
    &&& exists|d: DerivationView| #[trigger] sv.provs[p][i].contains(d)
    &&& forall|d: DerivationView| #[trigger]
        sv.provs[p][i].contains(d) ==> justified(
            rules,
            pts,
            axioms,
            sv.facts(names),
            sv.fact_at(p, i, names),
            d,
        )
}

/// Every entry of the store is sound.
pub open spec fn sound(
    rules: Seq<RuleView>,
    pts: Map<Seq<char>, Coord>,
    axioms: Set<FactView>,
    sv: StoreView,
    names: Names,
) -> bool {
    forall|p: int, i: int|
        0 <= p < PRED_COUNT && 0 <= i < sv.tuples[p].len() ==> #[trigger] entry_sound(
            rules,
            pts,
            axioms,
            sv,
            names,
            p,
            i,
        )
}

/// The store holds each axiom and each trivial statement with its own
/// derivation.
pub open spec fn seeded(
    pts: Map<Seq<char>, Coord>,
    axioms: Set<FactView>,
    sv: StoreView,
    names: Names,
) -> bool {
    &&& forall|f: FactView| #[trigger] axioms.contains(f) ==> recorded(sv, names, f, axiom_derivation())
    &&& forall|f: FactView| #[trigger]
        trivial_fact(pts, f) ==> recorded(sv, names, f, trivial_derivation())
}

/// A store extends itself.
pub proof fn lemma_extended_refl(sv: StoreView)
    ensures
        sv.extended_by(sv),
{
}

/// Extension is transitive.
pub proof fn lemma_extended_trans(a: StoreView, b: StoreView, c: StoreView)
    requires
        a.extended_by(b),
        b.extended_by(c),
    ensures
        a.extended_by(c),
{
    assert forall|p: int, i: int| 0 <= p < PRED_COUNT && 0 <= i < a.tuples[p].len() implies (
    #[trigger] a.provs[p][i]).subset_of(c.provs[p][i]) by {
        assert(a.tuples[p].len() <= b.tuples[p].len());
        assert(a.provs[p][i].subset_of(b.provs[p][i]));
        assert(b.provs[p][i].subset_of(c.provs[p][i]));
    }
    assert forall|p: int, i: int| 0 <= p < PRED_COUNT && 0 <= i < a.tuples[p].len() implies #[trigger] c.tuples[p][i]
        == a.tuples[p][i] by {
        assert(a.tuples[p].len() <= b.tuples[p].len());
        assert(b.tuples[p][i] == a.tuples[p][i]);
    }
    assert forall|p: int| 0 <= p < PRED_COUNT implies (#[trigger] a.tuples[p]).len()
        <= c.tuples[p].len() by {
        assert(a.tuples[p].len() <= b.tuples[p].len());
        assert(b.tuples[p].len() <= c.tuples[p].len());
    }
}

/// An extended store holds all facts of the store it extends.
pub proof fn lemma_facts_extended(a: StoreView, b: StoreView, names: Names)
    requires
        a.extended_by(b),
    ensures
        a.facts(names).subset_of(b.facts(names)),
{
    assert forall|f: FactView| a.facts(names).contains(f) implies b.facts(names).contains(f) by {
        let (p, i) = choose|p: int, i: int|
            0 <= p < PRED_COUNT && 0 <= i < a.tuples[p].len() && #[trigger] a.fact_at(p, i, names)
                == f;
        assert(a.tuples[p].len() <= b.tuples[p].len());
        assert(b.tuples[p][i] == a.tuples[p][i]);
        assert(b.fact_at(p, i, names) == f);
    }
}

/// What is recorded stays recorded when the store is extended.
pub proof fn lemma_recorded_extended(
    a: StoreView,
    b: StoreView,
    names: Names,
    f: FactView,
    d: DerivationView,
)
    requires
        a.extended_by(b),
        recorded(a, names, f, d),
    ensures
        recorded(b, names, f, d),
{
    let p = f.pred.spec_index() as int;
    let i = choose|i: int|
        0 <= i < a.tuples[p].len() && #[trigger] a.fact_at(p, i, names) == f
            && a.provs[p][i].contains(d);
    assert(a.tuples[p].len() <= b.tuples[p].len());
    assert(b.tuples[p][i] == a.tuples[p][i]);
    assert(a.provs[p][i].subset_of(b.provs[p][i]));
    assert(b.fact_at(p, i, names) == f);
}

/// A firing that is recorded stays recorded when the store is extended.
pub proof fn lemma_fired_extended(r: RuleView, bd: Binding, a: StoreView, b: StoreView, names: Names)
    requires
        a.extended_by(b),
        fired(r, bd, a, names),
    ensures
        fired(r, bd, b, names),
{
    assert forall|h: int| 0 <= h < r.heads.len() implies #[trigger] head_recorded(
        r,
        bd,
        b,
        names,
        h,
    ) by {
        assert(head_recorded(r, bd, a, names, h));
        lemma_recorded_extended(a, b, names, instantiate(r.heads[h], bd), rule_derivation(r, bd));
    }
}

/// A pass that is done stays done when the store is extended.
pub proof fn lemma_pass_done_extended(
    r: RuleView,
    pts: Map<Seq<char>, Coord>,
    snap: StoreView,
    a: StoreView,
    b: StoreView,
    names: Names,
    d: int,
    lo: Seq<usize>,
    hi: Seq<usize>,
)
    requires
        a.extended_by(b),
        pass_done(r, pts, snap, a, names, d, lo, hi),
    ensures
        pass_done(r, pts, snap, b, names, d, lo, hi),
{
    assert forall|bd: Binding| #[trigger]
        applies_in(r, bd, pts, snap, names, d, lo, hi) implies fired(r, bd, b, names) by {
        lemma_fired_extended(r, bd, a, b, names);
    }
}

/// A seeded store stays seeded when it is extended.
pub proof fn lemma_seeded_extended(
    pts: Map<Seq<char>, Coord>,
    axioms: Set<FactView>,
    a: StoreView,
    b: StoreView,
    names: Names,
)
    requires
        a.extended_by(b),
        seeded(pts, axioms, a, names),
    ensures
        seeded(pts, axioms, b, names),
{
    assert forall|f: FactView| #[trigger] axioms.contains(f) implies recorded(
        b,
        names,
        f,
        axiom_derivation(),
    ) by {
        lemma_recorded_extended(a, b, names, f, axiom_derivation());
    }
    assert forall|f: FactView| #[trigger] trivial_fact(pts, f) implies recorded(
        b,
        names,
        f,
        trivial_derivation(),
    ) by {
        lemma_recorded_extended(a, b, names, f, trivial_derivation());
    }
}

/// A justification over a set of facts is one over every larger set.
pub proof fn lemma_justified_monotone(
    rules: Seq<RuleView>,
    pts: Map<Seq<char>, Coord>,
    axioms: Set<FactView>,
    s: Set<FactView>,
    t: Set<FactView>,
    f: FactView,
    d: DerivationView,
)
    requires
        justified(rules, pts, axioms, s, f, d),
        s.subset_of(t),
    ensures
        justified(rules, pts, axioms, t, f, d),
{
    if d == axiom_derivation() && axioms.contains(f) {
    } else if d == trivial_derivation() && trivial_fact(pts, f) {
    } else {
        let (i, b, h) = choose|i: int, b: Binding, h: int|
            0 <= i < rules.len() && #[trigger] derived_by(rules[i], b, h, pts, s, f, d);
        lemma_applies_monotone(rules[i], b, pts, s, t);
        assert(derived_by(rules[i], b, h, pts, t, f, d));
    }
}

/// Inserting into a well-formed store extends it, keeps it well formed, and
/// leaves the tuple in it with the derivation.
pub proof fn lemma_insert(sv: StoreView, n: int, p: int, t: Seq<usize>, d: DerivationView, names: Names)
    requires
        sv.wf(n),
        0 <= p < PRED_COUNT,
        tuple_ok(p, t, n),
    ensures
        sv.insert(p, t, d).wf(n),
        sv.extended_by(sv.insert(p, t, d)),
        recorded(sv.insert(p, t, d), names, tuple_fact(p, t, names), d),
        sv.insert(p, t, d).facts(names) == sv.facts(names).insert(tuple_fact(p, t, names)),
{
    let sv2 = sv.insert(p, t, d);
    let f = tuple_fact(p, t, names);
    assert(f.pred.spec_index() == p);
    if sv.tuples[p].contains(t) {
        let i = sv.tuples[p].index_of(t);
        assert(sv2.fact_at(p, i, names) == f);
        assert(sv2.provs[p][i].contains(d));
        assert forall|q: int, j: int|
            0 <= q < PRED_COUNT && 0 <= j < sv.tuples[q].len() implies (#[trigger] sv.provs[q][j]).subset_of(
            sv2.provs[q][j],
        ) by {}
        assert forall|g: FactView| sv2.facts(names).contains(g) <==> sv.facts(names).insert(
            f,
        ).contains(g) by {
            if sv2.facts(names).contains(g) {
                let (q, j) = choose|q: int, j: int|
                    0 <= q < PRED_COUNT && 0 <= j < sv2.tuples[q].len() && #[trigger] sv2.fact_at(
                        q,
                        j,
                        names,
                    ) == g;
                assert(sv.fact_at(q, j, names) == g);
            }
            if sv.facts(names).contains(g) {
                let (q, j) = choose|q: int, j: int|
                    0 <= q < PRED_COUNT && 0 <= j < sv.tuples[q].len() && #[trigger] sv.fact_at(
                        q,
                        j,
                        names,
                    ) == g;
                assert(sv2.fact_at(q, j, names) == g);
            }
            if g == f {
                assert(sv.fact_at(p, i, names) == g);
            }
        }
    } else {
        let i = sv.tuples[p].len() as int;
        assert(sv2.tuples[p][i] == t);
        assert(sv2.fact_at(p, i, names) == f);
        assert(sv2.provs[p][i].contains(d));
        assert forall|q: int, a: int, c: int|
            0 <= q < PRED_COUNT && 0 <= a < c < sv2.tuples[q].len() implies #[trigger] sv2.tuples[q][a]
            != #[trigger] sv2.tuples[q][c] by {
            if q == p && c == i {
                assert(sv.tuples[p][a] == sv2.tuples[p][a]);
                assert(sv.tuples[p].contains(sv.tuples[p][a]));
            } else {
                assert(sv.tuples[q][a] != sv.tuples[q][c]);
            }
        }
        assert forall|q: int, j: int|
            0 <= q < PRED_COUNT && 0 <= j < sv2.tuples[q].len() implies tuple_ok(
            q,
            #[trigger] sv2.tuples[q][j],
            n,
        ) by {
            if q == p && j == i {
            } else {
                assert(tuple_ok(q, sv.tuples[q][j], n));
            }
        }
        assert forall|q: int, j: int|
            0 <= q < PRED_COUNT && 0 <= j < sv.tuples[q].len() implies (#[trigger] sv.provs[q][j]).subset_of(
            sv2.provs[q][j],
        ) by {}
        assert forall|g: FactView| sv2.facts(names).contains(g) <==> sv.facts(names).insert(
            f,
        ).contains(g) by {
            if sv2.facts(names).contains(g) {
                let (q, j) = choose|q: int, j: int|
                    0 <= q < PRED_COUNT && 0 <= j < sv2.tuples[q].len() && #[trigger] sv2.fact_at(
                        q,
                        j,
                        names,
                    ) == g;
                if q == p && j == i {
                } else {
                    assert(sv.fact_at(q, j, names) == g);
                }
            }
            if sv.facts(names).contains(g) {
                let (q, j) = choose|q: int, j: int|
                    0 <= q < PRED_COUNT && 0 <= j < sv.tuples[q].len() && #[trigger] sv.fact_at(
                        q,
                        j,
                        names,
                    ) == g;
                assert(sv2.fact_at(q, j, names) == g);
            }
        }
    }
    assert(sv2.facts(names) =~= sv.facts(names).insert(f));
}

/// Inserting a tuple with a derivation that is justified over the store
/// after the insertion keeps the store sound.
pub proof fn lemma_insert_sound(
    rules: Seq<RuleView>,
    pts: Map<Seq<char>, Coord>,
    axioms: Set<FactView>,
    sv: StoreView,
    names: Names,
    n: int,
    p: int,
    t: Seq<usize>,
    d: DerivationView,
)
    requires
        sv.wf(n),
        0 <= p < PRED_COUNT,
        tuple_ok(p, t, n),
        sound(rules, pts, axioms, sv, names),
        closure(rules, pts, axioms).contains(tuple_fact(p, t, names)),
        justified(
            rules,
            pts,
            axioms,
            sv.insert(p, t, d).facts(names),
            tuple_fact(p, t, names),
            d,
        ),
    ensures
        sound(rules, pts, axioms, sv.insert(p, t, d), names),
{
    let sv2 = sv.insert(p, t, d);
    lemma_insert(sv, n, p, t, d, names);
    lemma_facts_extended(sv, sv2, names);
    let s = sv.facts(names);
    let s2 = sv2.facts(names);
    assert forall|q: int, i: int|
        0 <= q < PRED_COUNT && 0 <= i < sv2.tuples[q].len() implies #[trigger] entry_sound(
        rules,
        pts,
        axioms,
        sv2,
        names,
        q,
        i,
    ) by {
        let f = sv2.fact_at(q, i, names);
        if i < sv.tuples[q].len() {
            assert(entry_sound(rules, pts, axioms, sv, names, q, i));
            assert(sv.fact_at(q, i, names) == f);
            let w = choose|w: DerivationView| #[trigger] sv.provs[q][i].contains(w);
            assert(sv.provs[q][i].subset_of(sv2.provs[q][i]));
            assert(sv2.provs[q][i].contains(w));
            assert forall|e: DerivationView| #[trigger]
                sv2.provs[q][i].contains(e) implies justified(rules, pts, axioms, s2, f, e) by {
                if sv.provs[q][i].contains(e) {
                    lemma_justified_monotone(rules, pts, axioms, s, s2, f, e);
                } else {
                    assert(sv.tuples[p].contains(t));
                    assert(q == p && i == sv.tuples[p].index_of(t));
                    assert(e == d);
                }
            }
        } else {
            assert(q == p);
            assert(!sv.tuples[p].contains(t));
            assert(sv2.provs[q][i] == set![d]);
            assert(sv2.provs[q][i].contains(d));
            assert(sv2.tuples[q][i] == t);
        }
    }
}

/// Among premises that all stand before `hi`, either the first `k` stand
/// before `lo`, or one of them is the first that does not.
pub proof fn lemma_first_new(
    r: RuleView,
    b: Binding,
    sv: StoreView,
    names: Names,
    lo: Seq<usize>,
    hi: Seq<usize>,
    k: int,
) -> (d: int)
    requires
        0 <= k <= r.body.len(),
        forall|j: int| 0 <= j < r.body.len() ==> #[trigger] premise_upto(r, b, sv, names, hi, j),
    ensures
        0 <= d <= k,
        forall|j: int| 0 <= j < d ==> #[trigger] premise_upto(r, b, sv, names, lo, j),
        d < k ==> held_in(
            sv,
            names,
            instantiate(r.body[d], b),
            lo[r.body[d].pred.spec_index() as int] as int,
            hi[r.body[d].pred.spec_index() as int] as int,
        ),
    decreases k,
{
    if k == 0 {
        0
    } else {
        let d = lemma_first_new(r, b, sv, names, lo, hi, k - 1);
        if d < k - 1 {
            d
        } else {
            let j = k - 1;
            let f = instantiate(r.body[j], b);
            let p = r.body[j].pred.spec_index() as int;
            assert(premise_upto(r, b, sv, names, hi, j));
            let w = choose|w: int|
                0 <= w < hi[p] && 0 <= w < sv.tuples[f.pred.spec_index() as int].len()
                    && #[trigger] sv.fact_at(f.pred.spec_index() as int, w, names) == f;
            if w < lo[p] {
                assert(premise_upto(r, b, sv, names, lo, j));
                k
            } else {
                j
            }
        }
    }
}

/// After every pass of every rule, all firings on premises before `hi` are
/// recorded, given that those on premises before `lo` were.
pub proof fn lemma_round_covers(
    rules: Seq<RuleView>,
    pts: Map<Seq<char>, Coord>,
    snap: StoreView,
    sv: StoreView,
    names: Names,
    lo: Seq<usize>,
    hi: Seq<usize>,
)
    requires
        snap.extended_by(sv),
        bounds_ok(lo, snap),
        bounds_ok(hi, snap),
        forall|p: int| 0 <= p < PRED_COUNT ==> #[trigger] lo[p] <= hi[p],
        covered(rules, pts, snap, names, lo),
        forall|i: int, d: int|
            0 <= i < rules.len() && 0 <= d < rules[i].body.len() ==> #[trigger] pass_done(
                rules[i],
                pts,
                snap,
                sv,
                names,
                d,
                lo,
                hi,
            ),
    ensures
        covered(rules, pts, sv, names, hi),
{
    assert forall|i: int, b: Binding|
        0 <= i < rules.len() && #[trigger] applies_upto(
            rules[i],
            b,
            pts,
            sv,
            names,
            hi,
        ) implies fired(rules[i], b, sv, names) by {
        let r = rules[i];
        assert forall|j: int| 0 <= j < r.body.len() implies #[trigger] premise_upto(
            r,
            b,
            snap,
            names,
            hi,
            j,
        ) by {
            assert(premise_upto(r, b, sv, names, hi, j));
            let f = instantiate(r.body[j], b);
            let p = f.pred.spec_index() as int;
            let w = choose|w: int|
                0 <= w < hi[p] && 0 <= w < sv.tuples[p].len() && #[trigger] sv.fact_at(p, w, names)
                    == f;
            assert(hi[p] <= snap.tuples[p].len());
            assert(sv.tuples[p][w] == snap.tuples[p][w]);
            assert(snap.fact_at(p, w, names) == f);
        }
        let d = lemma_first_new(r, b, snap, names, lo, hi, r.body.len() as int);
        if d == r.body.len() {
            assert(applies_upto(r, b, pts, snap, names, lo));
            lemma_fired_extended(r, b, snap, sv, names);
        } else {
            assert forall|j: int| 0 <= j < r.body.len() implies #[trigger] premise_in_level(
                r,
                b,
                snap,
                names,
                d,
                lo,
                hi,
                j,
            ) by {
                if j < d {
                    assert(premise_upto(r, b, snap, names, lo, j));
                } else if j > d {
                    assert(premise_upto(r, b, snap, names, hi, j));
                }
            }
            assert(applies_in(r, b, pts, snap, names, d, lo, hi));
            assert(pass_done(rules[i], pts, snap, sv, names, d, lo, hi));
        }
    }
}

/// A sound and seeded store in which every firing is recorded is the
/// closure, and the provenance of each of its facts is complete.
pub proof fn lemma_saturated_store(
    rules: Seq<RuleView>,
    pts: Map<Seq<char>, Coord>,
    axioms: Set<FactView>,
    sv: StoreView,
    names: Names,
    lens: Seq<usize>,
)
    requires
        sv.wf(names.len() as int),
        names_distinct(names),
        lens.len() == PRED_COUNT,
        forall|p: int| 0 <= p < PRED_COUNT ==> #[trigger] lens[p] == sv.tuples[p].len(),
        forall|i: int| 0 <= i < rules.len() ==> (#[trigger] rules[i]).wf(),
        covered(rules, pts, sv, names, lens),
        seeded(pts, axioms, sv, names),
        sound(rules, pts, axioms, sv, names),
    ensures
        sv.facts(names) == closure(rules, pts, axioms),
        forall|p: int, i: int|
            0 <= p < PRED_COUNT && 0 <= i < sv.tuples[p].len() ==> #[trigger] sv.provs[p][i]
                == provenance_of(rules, pts, axioms, sv.fact_at(p, i, names)),
{
    let s = sv.facts(names);
    let c = closure(rules, pts, axioms);
    // Every firing on facts of the store is recorded.
    assert forall|i: int, b: Binding|
        0 <= i < rules.len() && applies(rules[i], b, pts, s) implies #[trigger] applies_upto(
        rules[i],
        b,
        pts,
        sv,
        names,
        lens,
    ) by {
        let r = rules[i];
        assert forall|j: int| 0 <= j < r.body.len() implies #[trigger] premise_upto(
            r,
            b,
            sv,
            names,
            lens,
            j,
        ) by {
            let f = instantiate(r.body[j], b);
            assert(s.contains(f));
            let (p, w) = choose|p: int, w: int|
                0 <= p < PRED_COUNT && 0 <= w < sv.tuples[p].len() && #[trigger] sv.fact_at(
                    p,
                    w,
                    names,
                ) == f;
            assert(p == f.pred.spec_index());
        }
    }
    assert forall|i: int, b: Binding, h: int| 0 <= i < rules.len() implies #[trigger] step_holds(
        rules[i],
        b,
        h,
        pts,
        s,
    ) by {
        if applies(rules[i], b, pts, s) && 0 <= h < rules[i].heads.len() {
            assert(applies_upto(rules[i], b, pts, sv, names, lens));
            assert(head_recorded(rules[i], b, sv, names, h));
            assert(rules[i].wf());
        }
    }
    assert forall|f: FactView| #[trigger] axioms.contains(f) implies s.contains(f) by {
        assert(recorded(sv, names, f, axiom_derivation()));
    }
    assert forall|f: FactView| trivial_fact(pts, f) implies s.contains(f) by {
        assert(recorded(sv, names, f, trivial_derivation()));
    }
    assert(saturated(rules, pts, axioms, s));
    assert forall|f: FactView| s.contains(f) implies c.contains(f) by {
        let (p, w) = choose|p: int, w: int|
            0 <= p < PRED_COUNT && 0 <= w < sv.tuples[p].len() && #[trigger] sv.fact_at(p, w, names)
                == f;
        assert(entry_sound(rules, pts, axioms, sv, names, p, w));
    }
    assert(s =~= c);
    assert forall|p: int, i: int|
        0 <= p < PRED_COUNT && 0 <= i < sv.tuples[p].len() implies #[trigger] sv.provs[p][i]
        == provenance_of(rules, pts, axioms, sv.fact_at(p, i, names)) by {
        let f = sv.fact_at(p, i, names);
        let want = provenance_of(rules, pts, axioms, f);
        assert(f.pred.spec_index() == p);
        assert(entry_sound(rules, pts, axioms, sv, names, p, i));
        assert forall|d: DerivationView| sv.provs[p][i].contains(d) <==> want.contains(d) by {
            if want.contains(d) {
                assert(justified(rules, pts, axioms, s, f, d));
                if d == axiom_derivation() && axioms.contains(f) {
                    assert(recorded(sv, names, f, d));
                } else if d == trivial_derivation() && trivial_fact(pts, f) {
                    assert(recorded(sv, names, f, d));
                } else {
                    let (k, b, h) = choose|k: int, b: Binding, h: int|
                        0 <= k < rules.len() && #[trigger] derived_by(rules[k], b, h, pts, s, f, d);
                    assert(applies_upto(rules[k], b, pts, sv, names, lens));
                    assert(head_recorded(rules[k], b, sv, names, h));
                }
                assert(recorded(sv, names, f, d));
                let w = choose|w: int|
                    0 <= w < sv.tuples[p].len() && #[trigger] sv.fact_at(p, w, names) == f
                        && sv.provs[p][w].contains(d);
                assert(tuple_ok(p, sv.tuples[p][w], names.len() as int));
                assert(tuple_ok(p, sv.tuples[p][i], names.len() as int));
                lemma_tuple_fact_injective(p, sv.tuples[p][w], sv.tuples[p][i], names);
                if w < i {
                    assert(sv.tuples[p][w] != sv.tuples[p][i]);
                } else if i < w {
                    assert(sv.tuples[p][i] != sv.tuples[p][w]);
                }
                assert(w == i);
            }
        }
        assert(sv.provs[p][i] =~= want);
    }
}

/// Inserting changes the store exactly when the tuple is new or did not have
/// the derivation.
pub proof fn lemma_insert_changes(sv: StoreView, n: int, p: int, t: Seq<usize>, d: DerivationView)
    requires
        sv.wf(n),
        0 <= p < PRED_COUNT,
    ensures
        (sv.insert(p, t, d) != sv) == sv.grows_by(p, t, d),
{
    let sv2 = sv.insert(p, t, d);
    if sv.tuples[p].contains(t) {
        let i = sv.tuples[p].index_of(t);
        if sv.provs[p][i].contains(d) {
            assert(sv.provs[p][i].insert(d) =~= sv.provs[p][i]);
            assert(sv2.provs =~~= sv.provs);
        } else {
            assert(sv2.provs[p][i].contains(d));
        }
    } else {
        assert(sv2.tuples[p].len() == sv.tuples[p].len() + 1);
    }
}

/// A store between two equal stores is equal to them.
pub proof fn lemma_extended_squeeze(a: StoreView, b: StoreView, n: int)
    requires
        a.wf(n),
        b.wf(n),
        a.extended_by(b),
        b.extended_by(a),
    ensures
        a == b,
{
    assert forall|p: int| 0 <= p < PRED_COUNT implies a.tuples[p] == b.tuples[p] && a.provs[p]
        == b.provs[p] by {
        assert(a.tuples[p].len() <= b.tuples[p].len());
        assert(b.tuples[p].len() <= a.tuples[p].len());
        assert(a.provs[p].len() == a.tuples[p].len());
        assert(b.provs[p].len() == b.tuples[p].len());
        assert forall|i: int| 0 <= i < a.tuples[p].len() implies a.tuples[p][i] == b.tuples[p][i]
            && a.provs[p][i] == b.provs[p][i] by {
            assert(b.tuples[p][i] == a.tuples[p][i]);
            assert(a.provs[p][i].subset_of(b.provs[p][i]));
            assert(b.provs[p][i].subset_of(a.provs[p][i]));
            assert(a.provs[p][i] =~= b.provs[p][i]);
        }
        assert(a.tuples[p] =~= b.tuples[p]);
        assert(a.provs[p] =~= b.provs[p]);
    }
    assert(a.tuples =~= b.tuples);
    assert(a.provs =~= b.provs);
}

/// Over two steps that each extend the store, the store has changed exactly
/// when one of the steps changed it.
pub proof fn lemma_change_accumulates(a: StoreView, b: StoreView, c: StoreView, n: int)
    requires
        a.wf(n),
        b.wf(n),
        a.extended_by(b),
        b.extended_by(c),
    ensures
        (c != a) == (b != a || c != b),
{
    if c == a && b != a {
        lemma_extended_squeeze(a, b, n);
    }
}

} // verus!
