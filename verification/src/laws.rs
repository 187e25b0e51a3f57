//! What holds of every database after a run.

use vstd::prelude::*;
use crate::database::{AconstView, DatabaseView, aconst_facts, row_args};
use crate::fact::{FactView, PRED_COUNT, Pred};
use crate::order::{lemma_sorted_canonical, lemma_strs_order_strict, strs_order};
use crate::orientation::Coord;
use crate::provenance::{DerivationView, key_set, lemma_keys_canonical};
use crate::rule::{
    Binding, RuleView, applies, atom_ok, axiom_derivation, closure, derived_by, instantiate,
    justified, lemma_applies_monotone, lemma_closure_least, lemma_closure_saturated, occurs_at,
    premises_in, rule_derivation, saturated, step_holds, triangle_of, trivial_derivation,
    trivial_fact,
};
use crate::rule_base::{
    RULE_COUNT, lemma_rule_base_wf, rule_base_spec, sym_col, sym_cong, sym_cyclic, sym_eqangle,
    sym_eqratio, sym_para, sym_perp, sym_sameclock,
};

verus! {

/// The ways in which the arguments of a fact may be rearranged without
/// changing what it says, as far as they are declared for its predicate:
/// from any of them and the fact itself all others follow by repetition.
pub open spec fn symmetric_rewrites(f: FactView) -> Seq<FactView> {
    let x = f.args;
    let p = f.pred;
    match f.pred {
        Pred::Col => seq![
            FactView { pred: p, args: seq![x[2], x[1], x[0]] },
            FactView { pred: p, args: seq![x[0], x[2], x[1]] },
        ],
        Pred::Para | Pred::Perp | Pred::Cong => seq![
            FactView { pred: p, args: seq![x[2], x[3], x[0], x[1]] },
            FactView { pred: p, args: seq![x[1], x[0], x[2], x[3]] },
            FactView { pred: p, args: seq![x[0], x[1], x[3], x[2]] },
        ],
        Pred::Eqangle => seq![
            FactView { pred: p, args: seq![x[3], x[4], x[5], x[0], x[1], x[2]] },
            FactView { pred: p, args: seq![x[2], x[1], x[0], x[5], x[4], x[3]] },
        ],
        Pred::Cyclic => seq![
            FactView { pred: p, args: seq![x[1], x[2], x[3], x[0]] },
            FactView { pred: p, args: seq![x[0], x[2], x[1], x[3]] },
        ],
        Pred::Sameclock => seq![
            FactView { pred: p, args: seq![x[3], x[4], x[5], x[0], x[1], x[2]] },
            FactView { pred: p, args: seq![x[0], x[1], x[2], x[5], x[3], x[4]] },
            FactView { pred: p, args: seq![x[2], x[1], x[0], x[5], x[4], x[3]] },
        ],
        Pred::Eqratio => seq![
            FactView { pred: p, args: seq![x[4], x[5], x[6], x[7], x[0], x[1], x[2], x[3]] },
            FactView { pred: p, args: seq![x[2], x[3], x[0], x[1], x[6], x[7], x[4], x[5]] },
            FactView { pred: p, args: seq![x[0], x[1], x[4], x[5], x[2], x[3], x[6], x[7]] },
        ],
        _ => seq![],
    }
}

/// The symmetry rule of a predicate, for the predicates that have one.
pub open spec fn symmetry_rule(p: Pred) -> RuleView {
    match p {
        Pred::Col => sym_col(),
        Pred::Para => sym_para(),
        Pred::Perp => sym_perp(),
        Pred::Cong => sym_cong(),
        Pred::Eqangle => sym_eqangle(),
        Pred::Cyclic => sym_cyclic(),
        Pred::Sameclock => sym_sameclock(),
        _ => sym_eqratio(),
    }
}

/// The symmetry rules are the first rules of the base.
proof fn lemma_symmetry_rules(p: Pred)
    ensures
        0 <= p.spec_index() < PRED_COUNT,
        symmetric_rewrites(FactView { pred: p, args: Seq::empty() }).len() > 0 ==> exists|i: int|
            0 <= i < rule_base_spec().len() && #[trigger] rule_base_spec()[i] == symmetry_rule(p),
{
    assert(rule_base_spec()[0] == sym_col());
    assert(rule_base_spec()[1] == sym_para());
    assert(rule_base_spec()[2] == sym_perp());
    assert(rule_base_spec()[3] == sym_cong());
    assert(rule_base_spec()[4] == sym_eqangle());
    assert(rule_base_spec()[5] == sym_cyclic());
    assert(rule_base_spec()[6] == sym_sameclock());
    assert(rule_base_spec()[7] == sym_eqratio());
}

/// Symmetric closure, over any closure: with a fact the closure holds each
/// of its symmetric rewrites.
pub proof fn lemma_symmetric_closure(
    pts: Map<Seq<char>, Coord>,
    axioms: Set<FactView>,
    f: FactView,
    k: int,
)
    requires
        closure(rule_base_spec(), pts, axioms).contains(f),
        f.args.len() == f.pred.spec_arity(),
        0 <= k < symmetric_rewrites(f).len(),
    ensures
        closure(rule_base_spec(), pts, axioms).contains(symmetric_rewrites(f)[k]),
{
    let rules = rule_base_spec();
    let c = closure(rules, pts, axioms);
    lemma_closure_saturated(rules, pts, axioms);
    lemma_symmetry_rules(f.pred);
    assert(symmetric_rewrites(FactView { pred: f.pred, args: Seq::empty() }).len()
        == symmetric_rewrites(f).len());
    let i = choose|i: int| 0 <= i < rules.len() && #[trigger] rules[i] == symmetry_rule(f.pred);
    let r = rules[i];
    let b = f.args;
    assert(instantiate(r.body[0], b).args =~= f.args);
    assert(instantiate(r.body[0], b) == f);
    assert(premises_in(r, b, c));
    assert(applies(r, b, pts, c));
    assert(step_holds(rules[i], b, k, pts, c));
    assert(instantiate(r.heads[k], b).args =~= symmetric_rewrites(f)[k].args);
}

/// Symmetric closure. After a run, with a fact the derived facts hold each
/// symmetric rewrite that is declared for its predicate.
pub proof fn law_symmetric_closure(v: DatabaseView, f: FactView, k: int)
    requires
        v.saturated(),
        v.is_derived(f),
        0 <= k < symmetric_rewrites(f).len(),
    ensures
        v.is_derived(symmetric_rewrites(f)[k]),
{
    let (p, i) = choose|p: int, i: int|
        0 <= p < PRED_COUNT && 0 <= i < v.derived[p].len() && #[trigger] v.derived_fact(p, i) == f;
    assert(v.derived[p][i].args.len() == Pred::spec_from_index(p).spec_arity());
    assert(v.closure().contains(f));
    lemma_symmetric_closure(v.point_map(), v.axiom_set(), f, k);
}

/// A rule that fires over some points fires over more points.
pub proof fn lemma_applies_more_points(
    r: RuleView,
    b: Binding,
    pts1: Map<Seq<char>, Coord>,
    pts2: Map<Seq<char>, Coord>,
    s: Set<FactView>,
)
    requires
        pts1.submap_of(pts2),
        applies(r, b, pts1, s),
    ensures
        applies(r, b, pts2, s),
{
    if r.orient.len() == 6 {
        assert forall|k: int| 0 <= k < 6 implies pts2.dom().contains(
            #[trigger] b[r.orient[k] as int],
        ) && pts2[b[r.orient[k] as int]] == pts1[b[r.orient[k] as int]] by {
            assert(pts1.dom().contains(b[r.orient[k] as int]));
        }
        assert(triangle_of(r, b, pts2, 0) == triangle_of(r, b, pts1, 0));
        assert(triangle_of(r, b, pts2, 3) == triangle_of(r, b, pts1, 3));
    }
}

/// Monotonicity, over any closure: more axioms over more points give a
/// larger closure.
pub proof fn lemma_closure_monotone(
    rules: Seq<RuleView>,
    pts1: Map<Seq<char>, Coord>,
    pts2: Map<Seq<char>, Coord>,
    a: Set<FactView>,
    b: Set<FactView>,
)
    requires
        pts1.submap_of(pts2),
        a.subset_of(b),
    ensures
        closure(rules, pts1, a).subset_of(closure(rules, pts2, b)),
{
    lemma_closure_saturated(rules, pts2, b);
    let cb = closure(rules, pts2, b);
    assert forall|i: int, bd: Binding, h: int| 0 <= i < rules.len() implies #[trigger] step_holds(
        rules[i],
        bd,
        h,
        pts1,
        cb,
    ) by {
        if applies(rules[i], bd, pts1, cb) {
            lemma_applies_more_points(rules[i], bd, pts1, pts2, cb);
            assert(step_holds(rules[i], bd, h, pts2, cb));
        }
    }
    assert forall|f: FactView| trivial_fact(pts1, f) implies cb.contains(f) by {
        assert(trivial_fact(pts2, f));
    }
    assert(saturated(rules, pts1, a, cb));
    lemma_closure_least(rules, pts1, a, cb);
}

/// A name is that of a point of the database exactly if the map of its
/// points holds it.
pub proof fn lemma_has_point(v: DatabaseView, name: Seq<char>)
    ensures
        v.has_point(name) <==> v.point_map().dom().contains(name),
{
    let names = v.point_names();
    let coords = v.point_coords();
    if v.has_point(name) {
        let i = choose|i: int| 0 <= i < v.points.len() && (#[trigger] v.points[i]).name == name;
        assert(names[i] == name);
    }
    if v.point_map().dom().contains(name) {
        let i = choose|i: int| 0 <= i < coords.len() && i < names.len() && #[trigger] names[i] == name;
        assert(v.points[i].name == name);
    }
}

/// With more points and more axioms, more axioms are taken.
pub proof fn lemma_taken_monotone(v1: DatabaseView, v2: DatabaseView)
    requires
        v1.point_map().submap_of(v2.point_map()),
        forall|f: FactView| v1.axioms.contains(f) ==> v2.axioms.contains(f),
    ensures
        v1.axiom_set().subset_of(v2.axiom_set()),
{
    assert forall|f: FactView| v1.axiom_set().contains(f) implies v2.axiom_set().contains(f) by {
        assert forall|q: int| 0 <= q < f.args.len() implies v2.has_point(#[trigger] f.args[q]) by {
            assert(v1.has_point(f.args[q]));
            lemma_has_point(v1, f.args[q]);
            lemma_has_point(v2, f.args[q]);
        }
    }
}

/// Monotonicity. Of two databases that were run, the second on all points
/// and axioms of the first and maybe more, the first derives no fact that the
/// second does not derive.
pub proof fn law_monotonicity(v1: DatabaseView, v2: DatabaseView, f: FactView)
    requires
        v1.saturated(),
        v2.saturated(),
        v1.point_map().submap_of(v2.point_map()),
        forall|g: FactView| v1.axioms.contains(g) ==> v2.axioms.contains(g),
        v1.is_derived(f),
    ensures
        v2.is_derived(f),
{
    lemma_taken_monotone(v1, v2);
    lemma_closure_monotone(
        rule_base_spec(),
        v1.point_map(),
        v2.point_map(),
        v1.axiom_set(),
        v2.axiom_set(),
    );
    assert(v1.closure().contains(f));
    assert(v2.closure().contains(f));
}

/// After a run the derived constant-angle facts are those that were added
/// and whose names all name points.
pub proof fn lemma_aconst_derived(v: DatabaseView, a: AconstView)
    requires
        v.saturated(),
    ensures
        v.is_derived_aconst(a) <==> v.aconsts.contains(a) && v.takes_aconst(a),
{
    let rows = v.derived_aconsts;
    let facts = aconst_facts(rows);
    v.lemma_first_taken(v.aconsts);
    if v.is_derived_aconst(a) {
        let i = choose|i: int| 0 <= i < rows.len() && (#[trigger] rows[i]).fact == a;
        assert(facts[i] == a);
        assert(v.first_taken(v.aconsts).contains(a));
    }
    if v.aconsts.contains(a) && v.takes_aconst(a) {
        assert(v.first_taken(v.aconsts).contains(a));
        let i = choose|i: int| 0 <= i < facts.len() && facts[i] == a;
        assert(rows[i].fact == a);
    }
}

/// Monotonicity for constant angles: a database with more points and more
/// such axioms derives more such facts.
pub proof fn law_monotonicity_aconst(v1: DatabaseView, v2: DatabaseView, a: AconstView)
    requires
        v1.saturated(),
        v2.saturated(),
        v1.point_map().submap_of(v2.point_map()),
        forall|x: AconstView| v1.aconsts.contains(x) ==> v2.aconsts.contains(x),
        v1.is_derived_aconst(a),
    ensures
        v2.is_derived_aconst(a),
{
    lemma_aconst_derived(v1, a);
    lemma_aconst_derived(v2, a);
    lemma_has_point(v1, a.a);
    lemma_has_point(v1, a.b);
    lemma_has_point(v1, a.c);
    lemma_has_point(v2, a.a);
    lemma_has_point(v2, a.b);
    lemma_has_point(v2, a.c);
}

/// A parent of a derivation names a derived fact.
pub open spec fn names_derived(v: DatabaseView, id: Seq<char>) -> bool {
    exists|g: FactView| v.is_derived(g) && #[trigger] g.id() == id
}

/// The derivation records a firing of a rule of the base whose conclusion
/// is the fact and whose premises, which are its parents, are all derived.
pub open spec fn records_firing(v: DatabaseView, f: FactView, d: DerivationView) -> bool {
    exists|i: int, b: Binding, h: int|
        0 <= i < RULE_COUNT && #[trigger] derived_by(
            rule_base_spec()[i],
            b,
            h,
            v.point_map(),
            v.closure(),
            f,
            d,
        )
}

/// Provenance well-formedness. After a run, each derivation of each derived
/// fact is that of an axiom or of a trivial statement, without parents, or
/// it records the firing of a rule that concludes the fact; and each of its
/// parents names a derived fact.
pub proof fn law_provenance_well_formed(v: DatabaseView, p: int, i: int, d: DerivationView)
    requires
        v.saturated(),
        0 <= p < PRED_COUNT,
        0 <= i < v.derived[p].len(),
        v.derived[p][i].provenance().contains(d),
    ensures
        ({
            ||| d == axiom_derivation() && v.axiom_set().contains(v.derived_fact(p, i))
            ||| d == trivial_derivation() && trivial_fact(v.point_map(), v.derived_fact(p, i))
            ||| records_firing(v, v.derived_fact(p, i), d)
        }),
        axiom_derivation().rule == "axiom"@ && axiom_derivation().parents == Set::<Seq<char>>::empty(),
        trivial_derivation().rule == "rfl"@ && trivial_derivation().parents == Set::<
            Seq<char>,
        >::empty(),
        forall|id: Seq<char>| d.parents.contains(id) ==> names_derived(v, id),
{
    let f = v.derived_fact(p, i);
    let rules = rule_base_spec();
    let c = v.closure();
    assert(v.derived[p][i].provenance() == v.provenance_of(f));
    assert(justified(rules, v.point_map(), v.axiom_set(), c, f, d));
    if d == axiom_derivation() && v.axiom_set().contains(f) {
    } else if d == trivial_derivation() && trivial_fact(v.point_map(), f) {
    } else {
        let (k, b, h) = choose|k: int, b: Binding, h: int|
            0 <= k < rules.len() && #[trigger] derived_by(rules[k], b, h, v.point_map(), c, f, d);
        assert(records_firing(v, f, d));
        assert forall|id: Seq<char>| d.parents.contains(id) implies names_derived(v, id) by {
            let j = choose|j: int|
                0 <= j < rules[k].body.len() && id == #[trigger] instantiate(rules[k].body[j], b).id();
            let g = instantiate(rules[k].body[j], b);
            assert(c.contains(g));
            assert(v.is_derived(g));
        }
    }
}

/// Provenance well-formedness for constant angles: each derived one has the
/// derivation of an axiom and no other, was added, and names points only.
pub proof fn law_provenance_aconst(v: DatabaseView, i: int)
    requires
        v.saturated(),
        0 <= i < v.derived_aconsts.len(),
    ensures
        key_set(v.derived_aconsts[i].derivations) == set![axiom_derivation()],
        v.aconsts.contains(v.derived_aconsts[i].fact),
        v.takes_aconst(v.derived_aconsts[i].fact),
{
    assert(v.is_derived_aconst(v.derived_aconsts[i].fact));
    lemma_aconst_derived(v, v.derived_aconsts[i].fact);
}

/// Idempotence, over any closure: axioms taken from between the axioms and
/// their closure have the same closure.
pub proof fn lemma_closure_idempotent(
    rules: Seq<RuleView>,
    pts: Map<Seq<char>, Coord>,
    a: Set<FactView>,
    b: Set<FactView>,
)
    requires
        a.subset_of(b),
        b.subset_of(closure(rules, pts, a)),
    ensures
        closure(rules, pts, b) == closure(rules, pts, a),
{
    let ca = closure(rules, pts, a);
    let cb = closure(rules, pts, b);
    lemma_closure_monotone(rules, pts, pts, a, b);
    lemma_closure_saturated(rules, pts, a);
    assert(saturated(rules, pts, b, ca));
    lemma_closure_least(rules, pts, b, ca);
    assert(ca =~= cb);
}

/// Idempotence. When derived facts of a run are added as axioms, over the
/// same points, another run derives the same facts.
pub proof fn law_idempotence(v1: DatabaseView, v2: DatabaseView, f: FactView)
    requires
        v1.saturated(),
        v2.saturated(),
        v1.point_map() == v2.point_map(),
        v1.axiom_set().subset_of(v2.axiom_set()),
        forall|g: FactView| v2.axiom_set().contains(g) ==> v1.axiom_set().contains(g) || v1.is_derived(g),
    ensures
        v1.is_derived(f) <==> v2.is_derived(f),
{
    assert forall|g: FactView| v2.axiom_set().contains(g) implies v1.closure().contains(g) by {
        lemma_closure_saturated(rule_base_spec(), v1.point_map(), v1.axiom_set());
        if !v1.axiom_set().contains(g) {
            assert(v1.is_derived(g));
        }
    }
    lemma_closure_idempotent(rule_base_spec(), v1.point_map(), v1.axiom_set(), v2.axiom_set());
    assert(v1.closure().contains(f) <==> v1.is_derived(f));
    assert(v2.closure().contains(f) <==> v2.is_derived(f));
}

/// Idempotence of provenance. When derived facts of a run are added as
/// axioms, over the same points, another run gives each fact the derivations
/// that it had, and that of an axiom where the fact is now an axiom.
pub proof fn law_idempotence_provenance(v1: DatabaseView, v2: DatabaseView, p: int, i: int)
    requires
        v1.saturated(),
        v2.saturated(),
        v1.point_map() == v2.point_map(),
        v1.axiom_set().subset_of(v2.axiom_set()),
        forall|g: FactView| v2.axiom_set().contains(g) ==> v1.axiom_set().contains(g) || v1.is_derived(g),
        0 <= p < PRED_COUNT,
        0 <= i < v2.derived[p].len(),
    ensures
        v2.derived[p][i].provenance() == if v2.axiom_set().contains(v2.derived_fact(p, i)) {
            v1.provenance_of(v2.derived_fact(p, i)).insert(axiom_derivation())
        } else {
            v1.provenance_of(v2.derived_fact(p, i))
        },
{
    let f = v2.derived_fact(p, i);
    let rules = rule_base_spec();
    let pts = v1.point_map();
    assert forall|g: FactView| v2.axiom_set().contains(g) implies v1.closure().contains(g) by {
        lemma_closure_saturated(rules, pts, v1.axiom_set());
        if !v1.axiom_set().contains(g) {
            assert(v1.is_derived(g));
        }
    }
    lemma_closure_idempotent(rules, pts, v1.axiom_set(), v2.axiom_set());
    let c = v1.closure();
    assert(v2.closure() == c);
    let want = if v2.axiom_set().contains(f) {
        v1.provenance_of(f).insert(axiom_derivation())
    } else {
        v1.provenance_of(f)
    };
    assert forall|d: DerivationView| v2.provenance_of(f).contains(d) <==> want.contains(d) by {
        if v2.provenance_of(f).contains(d) {
            assert(justified(rules, pts, v2.axiom_set(), c, f, d));
            if d == axiom_derivation() && v2.axiom_set().contains(f) {
            } else if d == trivial_derivation() && trivial_fact(pts, f) {
                assert(justified(rules, pts, v1.axiom_set(), c, f, d));
            } else {
                let (k, b, h) = choose|k: int, b: Binding, h: int|
                    0 <= k < rules.len() && #[trigger] derived_by(rules[k], b, h, pts, c, f, d);
                assert(justified(rules, pts, v1.axiom_set(), c, f, d));
            }
        }
        if want.contains(d) {
            if v1.provenance_of(f).contains(d) {
                assert(justified(rules, pts, v1.axiom_set(), c, f, d));
                if d == axiom_derivation() && v1.axiom_set().contains(f) {
                    assert(v2.axiom_set().contains(f));
                } else if d == trivial_derivation() && trivial_fact(pts, f) {
                } else {
                    let (k, b, h) = choose|k: int, b: Binding, h: int|
                        0 <= k < rules.len() && #[trigger] derived_by(rules[k], b, h, pts, c, f, d);
                    assert(justified(rules, pts, v2.axiom_set(), c, f, d));
                }
            }
            assert(justified(rules, pts, v2.axiom_set(), c, f, d));
        }
    }
    assert(v2.provenance_of(f) =~= want);
}

/// Determinism. Two runs over the same points and the same axioms, in
/// whatever order and however often each was added, derive the same tables:
/// the same facts in the same order, each with the same list of derivations.
pub proof fn law_determinism(v1: DatabaseView, v2: DatabaseView)
    requires
        v1.saturated(),
        v2.saturated(),
        v1.point_map() == v2.point_map(),
        v1.axiom_set() == v2.axiom_set(),
    ensures
        v1.derived == v2.derived,
{
    lemma_strs_order_strict();
    assert forall|p: int| 0 <= p < PRED_COUNT implies #[trigger] v1.derived[p] == v2.derived[p] by {
        let r1 = v1.derived[p];
        let r2 = v2.derived[p];
        let a1 = row_args(r1);
        let a2 = row_args(r2);
        assert forall|x: Seq<Seq<char>>| a1.contains(x) <==> a2.contains(x) by {
            if a1.contains(x) {
                let i = choose|i: int| 0 <= i < a1.len() && a1[i] == x;
                lemma_same_row(v1, v2, p, i);
                let j = choose|j: int| 0 <= j < r2.len() && (#[trigger] r2[j]).args == r1[i].args;
                assert(a2[j] == x);
            }
            if a2.contains(x) {
                let i = choose|i: int| 0 <= i < a2.len() && a2[i] == x;
                lemma_same_row(v2, v1, p, i);
                let j = choose|j: int| 0 <= j < r1.len() && (#[trigger] r1[j]).args == r2[i].args;
                assert(a1[j] == x);
            }
        }
        lemma_sorted_canonical(a1, a2, strs_order());
        assert(r1.len() == a1.len());
        assert(r2.len() == a2.len());
        assert forall|i: int| 0 <= i < r1.len() implies r1[i] == r2[i] by {
            assert(a1[i] == r1[i].args);
            assert(a2[i] == r2[i].args);
            assert(v1.derived_fact(p, i) == v2.derived_fact(p, i));
            assert(r1[i].provenance() == v1.provenance_of(v1.derived_fact(p, i)));
            assert(r2[i].provenance() == v2.provenance_of(v2.derived_fact(p, i)));
            assert(r1[i].canonical());
            assert(r2[i].canonical());
            lemma_keys_canonical(r1[i].derivations, r2[i].derivations);
        }
        assert(r1 =~= r2);
    }
    assert(v1.derived =~= v2.derived);
}

/// What one of two such runs derives, the other derives in the same table.
proof fn lemma_same_row(v1: DatabaseView, v2: DatabaseView, p: int, i: int)
    requires
        v1.saturated(),
        v2.saturated(),
        v1.point_map() == v2.point_map(),
        v1.axiom_set() == v2.axiom_set(),
        0 <= p < PRED_COUNT,
        0 <= i < v1.derived[p].len(),
    ensures
        exists|j: int| 0 <= j < v2.derived[p].len() && (#[trigger] v2.derived[p][j]).args == v1.derived[p][i].args,
{
    let f = v1.derived_fact(p, i);
    assert(v1.is_derived(f));
    assert(v1.closure().contains(f));
    assert(v2.is_derived(f));
    let (q, j) = choose|q: int, j: int|
        0 <= q < PRED_COUNT && 0 <= j < v2.derived[q].len() && #[trigger] v2.derived_fact(q, j) == f;
    assert(Pred::spec_from_index(q) == Pred::spec_from_index(p));
    assert(q == p);
    assert(v2.derived[p][j].args == v1.derived[p][i].args);
}

/// Databases with the same points take the same facts from a list.
pub proof fn lemma_first_taken_same(v1: DatabaseView, v2: DatabaseView, given: Seq<AconstView>)
    requires
        v1.point_map() == v2.point_map(),
    ensures
        v1.first_taken(given) == v2.first_taken(given),
    decreases given.len(),
{
    if given.len() > 0 {
        let a = given.last();
        lemma_first_taken_same(v1, v2, given.drop_last());
        lemma_has_point(v1, a.a);
        lemma_has_point(v1, a.b);
        lemma_has_point(v1, a.c);
        lemma_has_point(v2, a.a);
        lemma_has_point(v2, a.b);
        lemma_has_point(v2, a.c);
    }
}

/// Determinism for constant angles in the order of the axioms: over the
/// same points the same list of such axioms gives the same list of derived
/// facts.
pub proof fn law_determinism_aconst_rows(v1: DatabaseView, v2: DatabaseView)
    requires
        v1.saturated(),
        v2.saturated(),
        v1.point_map() == v2.point_map(),
        v1.aconsts == v2.aconsts,
    ensures
        v1.derived_aconsts == v2.derived_aconsts,
{
    let r1 = v1.derived_aconsts;
    let r2 = v2.derived_aconsts;
    lemma_first_taken_same(v1, v2, v1.aconsts);
    assert(aconst_facts(r1) == aconst_facts(r2));
    assert(r1.len() == aconst_facts(r1).len());
    assert(r2.len() == aconst_facts(r2).len());
    assert forall|i: int| 0 <= i < r1.len() implies r1[i] == r2[i] by {
        assert(aconst_facts(r1)[i] == r1[i].fact);
        assert(aconst_facts(r2)[i] == r2[i].fact);
        lemma_keys_canonical(r1[i].derivations, r2[i].derivations);
    }
    assert(r1 =~= r2);
}

/// Determinism for constant angles: over the same points the same such
/// axioms give the same derived facts.
pub proof fn law_determinism_aconst(v1: DatabaseView, v2: DatabaseView, a: AconstView)
    requires
        v1.saturated(),
        v2.saturated(),
        v1.point_map() == v2.point_map(),
        forall|x: AconstView| v1.aconsts.contains(x) <==> v2.aconsts.contains(x),
    ensures
        v1.is_derived_aconst(a) <==> v2.is_derived_aconst(a),
{
    lemma_aconst_derived(v1, a);
    lemma_aconst_derived(v2, a);
    lemma_has_point(v1, a.a);
    lemma_has_point(v1, a.b);
    lemma_has_point(v1, a.c);
    lemma_has_point(v2, a.a);
    lemma_has_point(v2, a.b);
    lemma_has_point(v2, a.c);
}

/// Every fact of a closure has a justification over the closure: it is an
/// axiom, or trivial, or a rule concludes it from facts of the closure.
pub proof fn lemma_closure_supported(
    rules: Seq<RuleView>,
    pts: Map<Seq<char>, Coord>,
    axioms: Set<FactView>,
    f: FactView,
)
    requires
        closure(rules, pts, axioms).contains(f),
    ensures
        exists|d: DerivationView| justified(rules, pts, axioms, closure(rules, pts, axioms), f, d),
{
    let c = closure(rules, pts, axioms);
    lemma_closure_saturated(rules, pts, axioms);
    if !exists|d: DerivationView| justified(rules, pts, axioms, c, f, d) {
        // Without the fact the closure would still be saturated.
        let s = c.remove(f);
        assert(!justified(rules, pts, axioms, c, f, axiom_derivation()));
        assert(!justified(rules, pts, axioms, c, f, trivial_derivation()));
        assert forall|i: int, b: Binding, h: int| 0 <= i < rules.len() implies #[trigger] step_holds(
            rules[i],
            b,
            h,
            pts,
            s,
        ) by {
            if applies(rules[i], b, pts, s) && 0 <= h < rules[i].heads.len() {
                lemma_applies_monotone(rules[i], b, pts, s, c);
                assert(step_holds(rules[i], b, h, pts, c));
                let g = instantiate(rules[i].heads[h], b);
                if g == f {
                    let d = rule_derivation(rules[i], b);
                    assert(derived_by(rules[i], b, h, pts, c, f, d));
                    assert(justified(rules, pts, axioms, c, f, d));
                }
            }
        }
        assert(saturated(rules, pts, axioms, s));
        lemma_closure_least(rules, pts, axioms, s);
        assert(false);
    }
}

/// After a run every derived fact has at least one derivation.
pub proof fn law_provenance_nonempty(v: DatabaseView, p: int, i: int)
    requires
        v.saturated(),
        0 <= p < PRED_COUNT,
        0 <= i < v.derived[p].len(),
    ensures
        exists|d: DerivationView| v.derived[p][i].provenance().contains(d),
{
    let f = v.derived_fact(p, i);
    assert(v.is_derived(f));
    lemma_closure_supported(rule_base_spec(), v.point_map(), v.axiom_set(), f);
    let d = choose|d: DerivationView|
        justified(rule_base_spec(), v.point_map(), v.axiom_set(), v.closure(), f, d);
    assert(v.provenance_of(f).contains(d));
    assert(v.derived[p][i].provenance().contains(d));
}

/// The derived facts as a set.
pub open spec fn derived_set(v: DatabaseView) -> Set<FactView> {
    Set::new(|f: FactView| v.is_derived(f))
}

/// After a run the derived facts are closed under the rule base: whenever a
/// rule fires on derived facts, each conclusion is derived already, and has
/// the derivation by that rule among its derivations.
pub proof fn law_closed_under_rules(v: DatabaseView, i: int, b: Binding, h: int, p: int, j: int)
    requires
        v.saturated(),
        0 <= i < RULE_COUNT,
        applies(rule_base_spec()[i], b, v.point_map(), derived_set(v)),
        0 <= h < rule_base_spec()[i].heads.len(),
        0 <= p < PRED_COUNT,
        0 <= j < v.derived[p].len(),
        v.derived_fact(p, j) == instantiate(rule_base_spec()[i].heads[h], b),
    ensures
        v.is_derived(instantiate(rule_base_spec()[i].heads[h], b)),
        v.derived[p][j].provenance().contains(rule_derivation(rule_base_spec()[i], b)),
{
    let rules = rule_base_spec();
    let c = v.closure();
    let f = instantiate(rules[i].heads[h], b);
    assert(derived_set(v) =~= c);
    let d = rule_derivation(rules[i], b);
    assert(derived_by(rules[i], b, h, v.point_map(), c, f, d));
    assert(justified(rules, v.point_map(), v.axiom_set(), c, f, d));
    assert(v.provenance_of(f).contains(d));
}

/// After a run, a rule that fires on derived facts concludes derived facts.
pub proof fn law_conclusions_derived(v: DatabaseView, i: int, b: Binding, h: int)
    requires
        v.saturated(),
        0 <= i < RULE_COUNT,
        applies(rule_base_spec()[i], b, v.point_map(), derived_set(v)),
        0 <= h < rule_base_spec()[i].heads.len(),
    ensures
        v.is_derived(instantiate(rule_base_spec()[i].heads[h], b)),
{
    let rules = rule_base_spec();
    let c = v.closure();
    assert(derived_set(v) =~= c);
    lemma_closure_saturated(rules, v.point_map(), v.axiom_set());
    assert(step_holds(rules[i], b, h, v.point_map(), c));
}

/// Every argument of the fact is the name of a point.
pub open spec fn names_points(pts: Map<Seq<char>, Coord>, f: FactView) -> bool {
    forall|q: int| 0 <= q < f.args.len() ==> pts.dom().contains(#[trigger] f.args[q])
}

/// The rules bring no new names: if the axioms name points only, so does
/// every fact of the closure.
pub proof fn lemma_closure_names(pts: Map<Seq<char>, Coord>, axioms: Set<FactView>, f: FactView)
    requires
        forall|g: FactView| axioms.contains(g) ==> names_points(pts, g),
        closure(rule_base_spec(), pts, axioms).contains(f),
    ensures
        names_points(pts, f),
{
    let rules = rule_base_spec();
    let s = Set::new(|g: FactView| names_points(pts, g));
    lemma_rule_base_wf();
    assert forall|i: int, b: Binding, h: int| 0 <= i < rules.len() implies #[trigger] step_holds(
        rules[i],
        b,
        h,
        pts,
        s,
    ) by {
        let r = rules[i];
        if applies(r, b, pts, s) && 0 <= h < r.heads.len() {
            let g = instantiate(r.heads[h], b);
            assert(r.wf());
            assert(atom_ok(r.heads[h], r.nvars()));
            assert forall|q: int| 0 <= q < g.args.len() implies pts.dom().contains(
                #[trigger] g.args[q],
            ) by {
                let v = r.heads[h].vars[q] as int;
                assert(r.heads[h].vars[q] < r.nvars());
                let o = r.origin[v];
                assert(occurs_at(r.body, v, o));
                let e = instantiate(r.body[o.0 as int], b);
                assert(s.contains(e));
                assert(e.args[o.1 as int] == b[v]);
                assert(pts.dom().contains(e.args[o.1 as int]));
            }
        }
    }
    assert forall|g: FactView| trivial_fact(pts, g) implies s.contains(g) by {
        assert forall|q: int| 0 <= q < g.args.len() implies pts.dom().contains(
            #[trigger] g.args[q],
        ) by {
            assert(g.args[q] == g.args[0] || g.args[q] == g.args[1] || g.args[q] == g.args[2]);
        }
    }
    assert(saturated(rules, pts, axioms, s));
    lemma_closure_least(rules, pts, axioms, s);
}

/// After a run every name in a derived fact is the name of a point.
pub proof fn law_names_known(v: DatabaseView, f: FactView)
    requires
        v.saturated(),
        v.is_derived(f),
    ensures
        v.takes(f),
{
    let pts = v.point_map();
    assert(v.closure().contains(f));
    assert forall|g: FactView| v.axiom_set().contains(g) implies names_points(pts, g) by {
        assert forall|q: int| 0 <= q < g.args.len() implies pts.dom().contains(#[trigger] g.args[q]) by {
            assert(v.has_point(g.args[q]));
            lemma_has_point(v, g.args[q]);
        }
    }
    lemma_closure_names(pts, v.axiom_set(), f);
    assert forall|q: int| 0 <= q < f.args.len() implies v.has_point(#[trigger] f.args[q]) by {
        assert(pts.dom().contains(f.args[q]));
        lemma_has_point(v, f.args[q]);
    }
}

/// After a run every name in a derived constant-angle fact is the name of a
/// point.
pub proof fn law_names_known_aconst(v: DatabaseView, a: AconstView)
    requires
        v.saturated(),
        v.is_derived_aconst(a),
    ensures
        v.takes_aconst(a),
{
    lemma_aconst_derived(v, a);
}

} // verus!
