//! Rules as data, what it means for a rule to apply, and the closure of a set
//! of facts under a rule base.

use vstd::prelude::*;
use crate::fact::{FactView, Pred};
use crate::orientation::{Coord, Triangle, same_orientation_spec};
use crate::provenance::DerivationView;

verus! {

/// A predicate applied to variables, each given by its number.
#[derive(Debug)]
pub struct Atom {
    pub pred: Pred,
    pub vars: Vec<usize>,
}

/// An atom as a value.
pub struct AtomView {
    pub pred: Pred,
    pub vars: Seq<usize>,
}

impl View for Atom {
    type V = AtomView;

    open spec fn view(&self) -> AtomView {
        AtomView { pred: self.pred, vars: self.vars@ }
    }
}

/// A Horn clause with side conditions.
///
/// The variables are numbered from zero. `origin` gives for each variable one
/// place in the body where it stands (which atom, which argument): every
/// variable is bound by the body, and the binding can be read off the facts
/// that the body atoms are matched with.
#[derive(Debug)]
pub struct Rule {
    /// Name of the rule, under which its conclusions are justified.
    pub tag: String,
    /// Premises: all must be present.
    pub body: Vec<Atom>,
    /// For each variable a place in the body that holds it.
    pub origin: Vec<(usize, usize)>,
    /// Pairs of variables that must stand for different points.
    pub distinct: Vec<(usize, usize)>,
    /// Empty, or six variables: the two triangles that must have the same
    /// orientation.
    pub orient: Vec<usize>,
    /// Conclusions: all are derived.
    pub heads: Vec<Atom>,
}

/// A rule as a value.
pub struct RuleView {
    pub tag: Seq<char>,
    pub body: Seq<AtomView>,
    pub origin: Seq<(usize, usize)>,
    pub distinct: Seq<(usize, usize)>,
    pub orient: Seq<usize>,
    pub heads: Seq<AtomView>,
}

/// The views of a list of atoms.
pub open spec fn atom_views(v: Seq<Atom>) -> Seq<AtomView> {
    Seq::new(v.len(), |i: int| v[i]@)
}

impl View for Rule {
    type V = RuleView;

    open spec fn view(&self) -> RuleView {
        RuleView {
            tag: self.tag@,
            body: atom_views(self.body@),
            origin: self.origin@,
            distinct: self.distinct@,
            orient: self.orient@,
            heads: atom_views(self.heads@),
        }
    }
}

/// The views of a list of rules.
pub open spec fn rule_views(v: Seq<Rule>) -> Seq<RuleView> {
    Seq::new(v.len(), |i: int| v[i]@)
}

/// The atom has as many variables as its predicate has arguments, all of them
/// among the first `nvars`.
pub open spec fn atom_ok(a: AtomView, nvars: int) -> bool {
    &&& a.vars.len() == a.pred.spec_arity()
    &&& forall|p: int| 0 <= p < a.vars.len() ==> #[trigger] a.vars[p] < nvars
}

/// Variable `v` stands at place `o` of the body.
pub open spec fn occurs_at(body: Seq<AtomView>, v: int, o: (usize, usize)) -> bool {
    &&& o.0 < body.len()
    &&& o.1 < body[o.0 as int].vars.len()
    &&& body[o.0 as int].vars[o.1 as int] == v
}

impl RuleView {
    /// Number of variables.
    pub open spec fn nvars(self) -> int {
        self.origin.len() as int
    }

    /// The rule is range restricted: it has a premise, every variable is
    /// bound by the body, and heads and side conditions use no other.
    pub open spec fn wf(self) -> bool {
        &&& self.body.len() >= 1
        &&& forall|j: int| 0 <= j < self.body.len() ==> atom_ok(#[trigger] self.body[j], self.nvars())
        &&& forall|h: int|
            0 <= h < self.heads.len() ==> atom_ok(#[trigger] self.heads[h], self.nvars())
        &&& forall|v: int|
            0 <= v < self.nvars() ==> occurs_at(self.body, v, #[trigger] self.origin[v])
        &&& forall|i: int|
            0 <= i < self.distinct.len() ==> (#[trigger] self.distinct[i]).0 < self.nvars()
                && self.distinct[i].1 < self.nvars()
        &&& (self.orient.len() == 0 || self.orient.len() == 6)
        &&& forall|k: int| 0 <= k < self.orient.len() ==> #[trigger] self.orient[k] < self.nvars()
    }
}

/// A binding gives each variable a point name.
pub type Binding = Seq<Seq<char>>;

/// The fact that an atom stands for under a binding.
pub open spec fn instantiate(a: AtomView, b: Binding) -> FactView {
    FactView { pred: a.pred, args: Seq::new(a.vars.len(), |p: int| b[a.vars[p] as int]) }
}

/// Every premise of the rule, under the binding, is in `s`.
pub open spec fn premises_in(r: RuleView, b: Binding, s: Set<FactView>) -> bool {
    forall|j: int| 0 <= j < r.body.len() ==> s.contains(#[trigger] instantiate(r.body[j], b))
}

/// The variables that must differ stand for different names.
pub open spec fn distinct_ok(r: RuleView, b: Binding) -> bool {
    forall|i: int|
        0 <= i < r.distinct.len() ==> b[(#[trigger] r.distinct[i]).0 as int]
            != b[r.distinct[i].1 as int]
}

/// The triangle named by three consecutive orientation variables.
pub open spec fn triangle_of(r: RuleView, b: Binding, pts: Map<Seq<char>, Coord>, k: int) -> Triangle {
    Triangle {
        a: pts[b[r.orient[k] as int]],
        b: pts[b[r.orient[k + 1] as int]],
        c: pts[b[r.orient[k + 2] as int]],
    }
}

/// Where the rule constrains orientation, the six names are points with
/// coordinates and the two triangles turn the same way.
pub open spec fn orient_ok(r: RuleView, b: Binding, pts: Map<Seq<char>, Coord>) -> bool {
    r.orient.len() == 6 ==> {
        &&& forall|k: int| 0 <= k < 6 ==> pts.dom().contains(#[trigger] b[r.orient[k] as int])
        &&& same_orientation_spec(triangle_of(r, b, pts, 0), triangle_of(r, b, pts, 3))
    }
}

/// The rule fires under the binding: its premises are in `s` and its side
/// conditions hold.
pub open spec fn applies(r: RuleView, b: Binding, pts: Map<Seq<char>, Coord>, s: Set<FactView>) -> bool {
    &&& b.len() == r.nvars()
    &&& premises_in(r, b, s)
    &&& distinct_ok(r, b)
    &&& orient_ok(r, b, pts)
}

/// If the rule fires under the binding, its `h`-th conclusion is in `s`.
pub open spec fn step_holds(
    r: RuleView,
    b: Binding,
    h: int,
    pts: Map<Seq<char>, Coord>,
    s: Set<FactView>,
) -> bool {
    applies(r, b, pts, s) && 0 <= h < r.heads.len() ==> s.contains(instantiate(r.heads[h], b))
}

/// `s` holds every conclusion that the rules draw from it.
pub open spec fn closed_under(rules: Seq<RuleView>, pts: Map<Seq<char>, Coord>, s: Set<FactView>) -> bool {
    forall|i: int, b: Binding, h: int|
        0 <= i < rules.len() ==> #[trigger] step_holds(rules[i], b, h, pts, s)
}

/// The statements that hold of any points whatever: a segment is congruent
/// and parallel to itself, an angle is equal to itself.
pub open spec fn trivial_fact(pts: Map<Seq<char>, Coord>, f: FactView) -> bool {
    ||| {
        &&& f.pred == Pred::Cong || f.pred == Pred::Para
        &&& f.args.len() == 4
        &&& pts.dom().contains(f.args[0])
        &&& pts.dom().contains(f.args[1])
        &&& f.args[0] != f.args[1]
        &&& f.args[2] == f.args[0]
        &&& f.args[3] == f.args[1]
    }
    ||| {
        &&& f.pred == Pred::Eqangle
        &&& f.args.len() == 6
        &&& pts.dom().contains(f.args[0])
        &&& pts.dom().contains(f.args[1])
        &&& pts.dom().contains(f.args[2])
        &&& f.args[0] != f.args[1]
        &&& f.args[0] != f.args[2]
        &&& f.args[1] != f.args[2]
        &&& f.args[3] == f.args[0]
        &&& f.args[4] == f.args[1]
        &&& f.args[5] == f.args[2]
    }
}

/// `s` holds the axioms and the trivial statements, and every conclusion that
/// the rules draw from it.
pub open spec fn saturated(
    rules: Seq<RuleView>,
    pts: Map<Seq<char>, Coord>,
    axioms: Set<FactView>,
    s: Set<FactView>,
) -> bool {
    &&& axioms.subset_of(s)
    &&& forall|f: FactView| trivial_fact(pts, f) ==> s.contains(f)
    &&& closed_under(rules, pts, s)
}

/// The closure: the facts that lie in every saturated set, which is the
/// smallest saturated set.
pub open spec fn closure(
    rules: Seq<RuleView>,
    pts: Map<Seq<char>, Coord>,
    axioms: Set<FactView>,
) -> Set<FactView> {
    Set::new(
        |f: FactView|
            forall|s: Set<FactView>| #[trigger] saturated(rules, pts, axioms, s) ==> s.contains(f),
    )
}

/// The derivation of an initial fact.
pub open spec fn axiom_derivation() -> DerivationView {
    DerivationView { rule: "axiom"@, parents: Set::empty() }
}

/// The derivation of a trivial statement.
pub open spec fn trivial_derivation() -> DerivationView {
    DerivationView { rule: "rfl"@, parents: Set::empty() }
}

/// The derivation that a rule gives its conclusions under a binding: its tag
/// and the identifiers of its premises.
pub open spec fn rule_derivation(r: RuleView, b: Binding) -> DerivationView {
    DerivationView {
        rule: r.tag,
        parents: Set::new(
            |id: Seq<char>|
                exists|j: int| 0 <= j < r.body.len() && id == #[trigger] instantiate(r.body[j], b).id(),
        ),
    }
}

/// `d` justifies `f` by a rule firing on premises in `s`.
pub open spec fn derived_by(
    r: RuleView,
    b: Binding,
    h: int,
    pts: Map<Seq<char>, Coord>,
    s: Set<FactView>,
    f: FactView,
    d: DerivationView,
) -> bool {
    &&& applies(r, b, pts, s)
    &&& 0 <= h < r.heads.len()
    &&& f == instantiate(r.heads[h], b)
    &&& d == rule_derivation(r, b)
}

/// `d` is a sound justification of `f` over the facts `s`: `f` is an axiom, or
/// trivial, or the conclusion of a rule whose premises are in `s`.
pub open spec fn justified(
    rules: Seq<RuleView>,
    pts: Map<Seq<char>, Coord>,
    axioms: Set<FactView>,
    s: Set<FactView>,
    f: FactView,
    d: DerivationView,
) -> bool {
    ||| d == axiom_derivation() && axioms.contains(f)
    ||| d == trivial_derivation() && trivial_fact(pts, f)
    ||| exists|i: int, b: Binding, h: int|
        0 <= i < rules.len() && #[trigger] derived_by(rules[i], b, h, pts, s, f, d)
}

/// All justifications of `f` over the closure.
pub open spec fn provenance_of(
    rules: Seq<RuleView>,
    pts: Map<Seq<char>, Coord>,
    axioms: Set<FactView>,
    f: FactView,
) -> Set<DerivationView> {
    Set::new(|d: DerivationView| justified(rules, pts, axioms, closure(rules, pts, axioms), f, d))
}

/// A rule that fires on `s` fires on every larger set.
pub proof fn lemma_applies_monotone(
    r: RuleView,
    b: Binding,
    pts: Map<Seq<char>, Coord>,
    s: Set<FactView>,
    t: Set<FactView>,
)
    requires
        applies(r, b, pts, s),
        s.subset_of(t),
    ensures
        applies(r, b, pts, t),
{
    assert forall|j: int| 0 <= j < r.body.len() implies t.contains(
        #[trigger] instantiate(r.body[j], b),
    ) by {
        assert(s.contains(instantiate(r.body[j], b)));
    }
}

/// The closure is itself saturated.
pub proof fn lemma_closure_saturated(
    rules: Seq<RuleView>,
    pts: Map<Seq<char>, Coord>,
    axioms: Set<FactView>,
)
    ensures
        saturated(rules, pts, axioms, closure(rules, pts, axioms)),
{
    let c = closure(rules, pts, axioms);
    assert forall|i: int, b: Binding, h: int| 0 <= i < rules.len() implies #[trigger] step_holds(
        rules[i],
        b,
        h,
        pts,
        c,
    ) by {
        if applies(rules[i], b, pts, c) && 0 <= h < rules[i].heads.len() {
            let f = instantiate(rules[i].heads[h], b);
            assert forall|s: Set<FactView>| #[trigger]
                saturated(rules, pts, axioms, s) implies s.contains(f) by {
                assert(c.subset_of(s));
                lemma_applies_monotone(rules[i], b, pts, c, s);
                assert(step_holds(rules[i], b, h, pts, s));
            }
        }
    }
}

/// The closure lies in every saturated set.
pub proof fn lemma_closure_least(
    rules: Seq<RuleView>,
    pts: Map<Seq<char>, Coord>,
    axioms: Set<FactView>,
    s: Set<FactView>,
)
    requires
        saturated(rules, pts, axioms, s),
    ensures
        closure(rules, pts, axioms).subset_of(s),
{
}

/// What a rule concludes from facts of the closure is in the closure.
pub proof fn lemma_closure_step(
    rules: Seq<RuleView>,
    pts: Map<Seq<char>, Coord>,
    axioms: Set<FactView>,
    i: int,
    b: Binding,
    h: int,
    s: Set<FactView>,
)
    requires
        0 <= i < rules.len(),
        0 <= h < rules[i].heads.len(),
        s.subset_of(closure(rules, pts, axioms)),
        applies(rules[i], b, pts, s),
    ensures
        closure(rules, pts, axioms).contains(instantiate(rules[i].heads[h], b)),
{
    let c = closure(rules, pts, axioms);
    lemma_closure_saturated(rules, pts, axioms);
    lemma_applies_monotone(rules[i], b, pts, s, c);
    assert(step_holds(rules[i], b, h, pts, c));
}

} // verus!
