//! The database: points and axioms go in, `run` computes the closure, and
//! the derived facts are read back with their provenance.

use vstd::prelude::*;
use vstd::string::*;
use crate::engine::saturate;
use crate::fact::{Fact, FactView, PRED_COUNT, Pred};
use crate::interning::symbol_table;
use crate::order::{strictly_sorted, strs_order, views};
use crate::orientation::Coord;
use crate::provenance::{DerivationKey, DerivationView, Provenance, key_set, keys_canonical};
use crate::readback::{close_aconst, lemma_saturated_view, read_back};
use crate::rule::{axiom_derivation, closure, provenance_of};
use crate::rule_base::rule_base_spec;
use crate::saturation::points_map;

verus! {

/// A derived fact with the set of its derivations.
#[derive(Debug)]
pub struct DerivedFact {
    pub args: Vec<String>,
    pub provenance: Provenance,
}

/// A derived fact as it is read back: its arguments, and its derivations as
/// a list in ascending order, each a rule name with the list of its parents
/// in ascending order.
pub struct RowView {
    pub args: Seq<Seq<char>>,
    pub derivations: Seq<DerivationKey>,
}

impl View for DerivedFact {
    type V = RowView;

    open spec fn view(&self) -> RowView {
        RowView { args: views(self.args@), derivations: self.provenance.key_list() }
    }
}

impl RowView {
    /// The derivations as a set, each with its parents as a set.
    pub open spec fn provenance(self) -> Set<DerivationView> {
        key_set(self.derivations)
    }

    /// The derivations, and the parents of each, are in ascending order.
    pub open spec fn canonical(self) -> bool {
        keys_canonical(self.derivations)
    }
}

/// The arguments of the rows of a table.
pub open spec fn row_args(v: Seq<RowView>) -> Seq<Seq<Seq<char>>> {
    Seq::new(v.len(), |i: int| v[i].args)
}

/// The rows of a table as values.
pub open spec fn row_views(v: Seq<DerivedFact>) -> Seq<RowView> {
    Seq::new(v.len(), |i: int| v[i]@)
}

/// The tables of all predicates as values.
pub open spec fn table_views(v: Seq<Vec<DerivedFact>>) -> Seq<Seq<RowView>> {
    Seq::new(v.len(), |p: int| row_views(v[p]@))
}

/// A constant-angle fact: angle `abc` is `m / n` of a half turn.
#[derive(Debug)]
pub struct Aconst {
    pub a: String,
    pub b: String,
    pub c: String,
    pub m: i32,
    pub n: i32,
}

/// A constant-angle fact as a value.
pub struct AconstView {
    pub a: Seq<char>,
    pub b: Seq<char>,
    pub c: Seq<char>,
    pub m: i32,
    pub n: i32,
}

impl View for Aconst {
    type V = AconstView;

    open spec fn view(&self) -> AconstView {
        AconstView { a: self.a@, b: self.b@, c: self.c@, m: self.m, n: self.n }
    }
}

/// A list of constant-angle facts as values.
pub open spec fn aconst_views(v: Seq<Aconst>) -> Seq<AconstView> {
    Seq::new(v.len(), |i: int| v[i]@)
}

/// A constant-angle fact with the set of its derivations.
#[derive(Debug)]
pub struct DerivedAconst {
    pub fact: Aconst,
    pub provenance: Provenance,
}

/// A derived constant-angle fact as it is read back.
pub struct AconstRowView {
    pub fact: AconstView,
    pub derivations: Seq<DerivationKey>,
}

impl View for DerivedAconst {
    type V = AconstRowView;

    open spec fn view(&self) -> AconstRowView {
        AconstRowView { fact: self.fact@, derivations: self.provenance.key_list() }
    }
}

/// The facts of a list of derived constant-angle facts.
pub open spec fn aconst_facts(rows: Seq<AconstRowView>) -> Seq<AconstView> {
    Seq::new(rows.len(), |i: int| rows[i].fact)
}

/// A list of derived constant-angle facts as values.
pub open spec fn aconst_row_views(v: Seq<DerivedAconst>) -> Seq<AconstRowView> {
    Seq::new(v.len(), |i: int| v[i]@)
}

/// A list of facts as values.
pub open spec fn fact_views(v: Seq<Fact>) -> Seq<FactView> {
    Seq::new(v.len(), |i: int| v[i]@)
}

/// A point as a value.
pub struct PointView {
    pub coord: Coord,
    pub name: Seq<char>,
}

/// A list of points as values.
pub open spec fn point_views(v: Seq<(i64, i64, String)>) -> Seq<PointView> {
    Seq::new(v.len(), |i: int| PointView { coord: Coord { x: v[i].0, y: v[i].1 }, name: v[i].2@ })
}

/// The database: what was put in, and what the last run derived from what
/// was in it then.
#[derive(Debug)]
pub struct DeductiveDatabase {
    /// The points, each with a name of its own.
    pub(crate) points: Vec<(i64, i64, String)>,
    /// The axioms, in the order in which they were added.
    pub(crate) axioms: Vec<Fact>,
    /// The constant-angle axioms.
    pub(crate) aconst_facts: Vec<Aconst>,
    /// For each predicate the facts derived by the last run.
    pub(crate) derived: Vec<Vec<DerivedFact>>,
    /// The constant-angle facts derived by the last run.
    pub(crate) derived_aconst: Vec<DerivedAconst>,
}

/// The database as a value.
pub struct DatabaseView {
    pub points: Seq<PointView>,
    pub axioms: Seq<FactView>,
    pub aconsts: Seq<AconstView>,
    pub derived: Seq<Seq<RowView>>,
    pub derived_aconsts: Seq<AconstRowView>,
}

impl DatabaseView {
    /// The names of the points, in order.
    pub open spec fn point_names(self) -> Seq<Seq<char>> {
        Seq::new(self.points.len(), |i: int| self.points[i].name)
    }

    /// The coordinates of the points, in order.
    pub open spec fn point_coords(self) -> Seq<Coord> {
        Seq::new(self.points.len(), |i: int| self.points[i].coord)
    }

    /// The points as a map from names to coordinates.
    pub open spec fn point_map(self) -> Map<Seq<char>, Coord> {
        points_map(self.point_names(), self.point_coords())
    }

    /// Whether every argument of the fact names a point.
    pub open spec fn takes(self, f: FactView) -> bool {
        forall|q: int| 0 <= q < f.args.len() ==> self.has_point(#[trigger] f.args[q])
    }

    /// Whether the three names of the constant-angle fact name points.
    pub open spec fn takes_aconst(self, a: AconstView) -> bool {
        self.has_point(a.a) && self.has_point(a.b) && self.has_point(a.c)
    }

    /// The axioms that are taken: those whose arguments all name points. An
    /// axiom over a name that is no point gives nothing.
    pub open spec fn axiom_set(self) -> Set<FactView> {
        Set::new(|f: FactView| self.axioms.contains(f) && self.takes(f))
    }

    /// The constant-angle facts of a list that are taken, each once, in the
    /// order in which each stands there first: those whose names all name
    /// points.
    pub open spec fn first_taken(self, given: Seq<AconstView>) -> Seq<AconstView>
        decreases given.len(),
    {
        if given.len() == 0 {
            Seq::empty()
        } else if self.takes_aconst(given.last()) && !given.drop_last().contains(given.last()) {
            self.first_taken(given.drop_last()).push(given.last())
        } else {
            self.first_taken(given.drop_last())
        }
    }

    /// The facts taken from a list are those of the list whose names all
    /// name points, each once.
    pub proof fn lemma_first_taken(self, given: Seq<AconstView>)
        ensures
            forall|a: AconstView|
                self.first_taken(given).contains(a) <==> given.contains(a) && self.takes_aconst(a),
            self.first_taken(given).no_duplicates(),
        decreases given.len(),
    {
        let f = self.first_taken(given);
        if given.len() > 0 {
            let rest = given.drop_last();
            let last = given.last();
            let fr = self.first_taken(rest);
            self.lemma_first_taken(rest);
            assert forall|a: AconstView| f.contains(a) <==> given.contains(a) && self.takes_aconst(
                a,
            ) by {
                if f.contains(a) {
                    let i = choose|i: int| 0 <= i < f.len() && f[i] == a;
                    if i < fr.len() {
                        assert(fr[i] == a);
                        assert(self.first_taken(rest).contains(a));
                        assert(rest.contains(a));
                        let j = choose|j: int| 0 <= j < rest.len() && rest[j] == a;
                        assert(given[j] == a);
                    } else {
                        assert(given[given.len() - 1] == a);
                    }
                }
                if given.contains(a) && self.takes_aconst(a) {
                    let j = choose|j: int| 0 <= j < given.len() && given[j] == a;
                    if j < rest.len() {
                        assert(rest[j] == a);
                        assert(rest.contains(a));
                        assert(self.first_taken(rest).contains(a));
                        let i = choose|i: int| 0 <= i < fr.len() && fr[i] == a;
                        assert(f[i] == a);
                    } else if rest.contains(a) {
                        assert(self.first_taken(rest).contains(a));
                        let i = choose|i: int| 0 <= i < fr.len() && fr[i] == a;
                        assert(f[i] == a);
                    } else {
                        assert(f[fr.len() as int] == a);
                    }
                }
            }
            assert forall|i: int, j: int| 0 <= i < f.len() && 0 <= j < f.len() && i != j implies f[i]
                != f[j] by {
                if i < fr.len() && j < fr.len() {
                    assert(fr[i] != fr[j]);
                } else if i < fr.len() {
                    assert(fr.contains(fr[i]));
                } else if j < fr.len() {
                    assert(fr.contains(fr[j]));
                }
            }
        }
    }

    /// The closure of the axioms over the points under the rule base.
    pub open spec fn closure(self) -> Set<FactView> {
        closure(rule_base_spec(), self.point_map(), self.axiom_set())
    }

    /// All justifications of a fact over the closure.
    pub open spec fn provenance_of(self, f: FactView) -> Set<DerivationView> {
        provenance_of(rule_base_spec(), self.point_map(), self.axiom_set(), f)
    }

    /// The derived fact at a place.
    pub open spec fn derived_fact(self, p: int, i: int) -> FactView {
        FactView { pred: Pred::spec_from_index(p), args: self.derived[p][i].args }
    }

    /// Whether the fact is among the derived facts.
    pub open spec fn is_derived(self, f: FactView) -> bool {
        exists|p: int, i: int|
            0 <= p < PRED_COUNT && 0 <= i < self.derived[p].len() && #[trigger] self.derived_fact(p, i)
                == f
    }

    /// Whether the constant-angle fact is among the derived ones.
    pub open spec fn is_derived_aconst(self, a: AconstView) -> bool {
        exists|i: int| 0 <= i < self.derived_aconsts.len() && (#[trigger] self.derived_aconsts[i]).fact == a
    }

    /// What is taken depends on the points, the axioms and the
    /// constant-angle axioms alone.
    pub proof fn lemma_same_inputs(self, other: DatabaseView)
        requires
            self.points == other.points,
            self.axioms == other.axioms,
            self.aconsts == other.aconsts,
        ensures
            self.point_map() == other.point_map(),
            self.axiom_set() == other.axiom_set(),
            self.first_taken(self.aconsts) == other.first_taken(other.aconsts),
    {
        assert forall|name: Seq<char>| self.has_point(name) == other.has_point(name) by {}
        assert forall|f: FactView| self.takes(f) == other.takes(f) by {
            if self.takes(f) {
                assert forall|q: int| 0 <= q < f.args.len() implies other.has_point(
                    #[trigger] f.args[q],
                ) by {
                    assert(self.has_point(f.args[q]));
                }
            }
            if other.takes(f) {
                assert forall|q: int| 0 <= q < f.args.len() implies self.has_point(
                    #[trigger] f.args[q],
                ) by {
                    assert(other.has_point(f.args[q]));
                }
            }
        }
        assert(self.axiom_set() =~= other.axiom_set());
        self.lemma_first_taken_alike(other, self.aconsts);
    }

    /// Databases with the same points take the same facts from a list.
    pub proof fn lemma_first_taken_alike(self, other: DatabaseView, given: Seq<AconstView>)
        requires
            self.points == other.points,
        ensures
            self.first_taken(given) == other.first_taken(given),
        decreases given.len(),
    {
        if given.len() > 0 {
            self.lemma_first_taken_alike(other, given.drop_last());
            assert(self.takes_aconst(given.last()) == other.takes_aconst(given.last()));
        }
    }

    /// The derived facts are the closure of the axioms that are taken: each
    /// table holds the facts of its predicate that lie in the closure, in
    /// ascending order of their arguments, each with all its justifications
    /// in canonical order. The derived constant-angle facts are the
    /// constant-angle axioms that are taken, in the order in which each was
    /// first added, each justified as an axiom.
    pub open spec fn saturated(self) -> bool {
        &&& self.derived.len() == PRED_COUNT
        &&& forall|p: int|
            0 <= p < PRED_COUNT ==> strictly_sorted(row_args(#[trigger] self.derived[p]), strs_order())
        &&& forall|p: int, i: int|
            0 <= p < PRED_COUNT && 0 <= i < self.derived[p].len() ==> (#[trigger] self.derived[p][i]).canonical()
        &&& forall|p: int, i: int|
            0 <= p < PRED_COUNT && 0 <= i < self.derived[p].len() ==> (#[trigger] self.derived[p][i]).args.len()
                == Pred::spec_from_index(p).spec_arity()
        &&& forall|f: FactView| self.closure().contains(f) <==> #[trigger] self.is_derived(f)
        &&& forall|p: int, i: int|
            0 <= p < PRED_COUNT && 0 <= i < self.derived[p].len() ==> (#[trigger] self.derived[p][i]).provenance()
                == self.provenance_of(self.derived_fact(p, i))
        &&& aconst_facts(self.derived_aconsts) == self.first_taken(self.aconsts)
        &&& forall|i: int|
            0 <= i < self.derived_aconsts.len() ==> keys_canonical(
                (#[trigger] self.derived_aconsts[i]).derivations,
            ) && key_set(self.derived_aconsts[i].derivations) == set![axiom_derivation()]
    }

    /// The database with one more axiom.
    pub open spec fn with_axiom(self, f: FactView) -> DatabaseView {
        DatabaseView { axioms: self.axioms.push(f), ..self }
    }

    /// The database with one more constant-angle axiom.
    pub open spec fn with_aconst(self, f: AconstView) -> DatabaseView {
        DatabaseView { aconsts: self.aconsts.push(f), ..self }
    }

    /// The database with one more point.
    pub open spec fn with_point(self, p: PointView) -> DatabaseView {
        DatabaseView { points: self.points.push(p), ..self }
    }

    /// Whether a point of that name is there.
    pub open spec fn has_point(self, name: Seq<char>) -> bool {
        exists|i: int| 0 <= i < self.points.len() && (#[trigger] self.points[i]).name == name
    }
}

impl View for DeductiveDatabase {
    type V = DatabaseView;

    open(crate) spec fn view(&self) -> DatabaseView {
        DatabaseView {
            points: point_views(self.points@),
            axioms: fact_views(self.axioms@),
            aconsts: aconst_views(self.aconst_facts@),
            derived: table_views(self.derived@),
            derived_aconsts: aconst_row_views(self.derived_aconst@),
        }
    }
}

/// A copy of a list of strings.
pub fn clone_strings(v: &Vec<String>) -> (c: Vec<String>)
    ensures
        views(c@) == views(v@),
{
    let mut c: Vec<String> = Vec::new();
    let n = v.len();
    let mut i: usize = 0;
    while i < n
        invariant
            n == v.len(),
            i <= n,
            c@.len() == i,
            forall|k: int| 0 <= k < i ==> (#[trigger] c@[k])@ == v@[k]@,
        decreases n - i,
    {
        c.push(v[i].clone());
        i += 1;
    }
    assert(views(c@) =~= views(v@));
    c
}

impl Clone for DerivedFact {
    fn clone(&self) -> (c: DerivedFact)
        ensures
            c@ == self@,
    {
        DerivedFact { args: clone_strings(&self.args), provenance: self.provenance.clone() }
    }
}

impl Clone for Aconst {
    fn clone(&self) -> (c: Aconst)
        ensures
            c@ == self@,
    {
        Aconst { a: self.a.clone(), b: self.b.clone(), c: self.c.clone(), m: self.m, n: self.n }
    }
}

impl Clone for DerivedAconst {
    fn clone(&self) -> (c: DerivedAconst)
        ensures
            c@ == self@,
    {
        DerivedAconst { fact: self.fact.clone(), provenance: self.provenance.clone() }
    }
}

impl DeductiveDatabase {
    /// No two points share a name, every axiom has as many arguments as its
    /// predicate asks for, and there is a table of derived facts for each
    /// predicate.
    #[verifier::type_invariant]
    pub open(crate) spec fn wf(&self) -> bool {
        &&& forall|i: int, j: int|
            0 <= i < j < self.points.len() ==> (#[trigger] self.points[i]).2@ != (#[trigger] self.points[j]).2@
        &&& forall|k: int|
            0 <= k < self.axioms.len() ==> (#[trigger] self.axioms[k]).args.len()
                == self.axioms[k].pred.spec_arity()
        &&& self.derived.len() == PRED_COUNT
    }

    /// An empty database: no points, no axioms, nothing derived.
    pub fn new() -> (db: DeductiveDatabase)
        ensures
            db@.points.len() == 0,
            db@.axioms.len() == 0,
            db@.aconsts.len() == 0,
            db@.derived.len() == PRED_COUNT,
            forall|p: int| 0 <= p < PRED_COUNT ==> (#[trigger] db@.derived[p]).len() == 0,
            db@.derived_aconsts.len() == 0,
    {
        let mut derived: Vec<Vec<DerivedFact>> = Vec::new();
        let mut p: usize = 0;
        while p < PRED_COUNT
            invariant
                p <= PRED_COUNT,
                derived@.len() == p,
                forall|q: int| 0 <= q < p ==> (#[trigger] derived@[q])@.len() == 0,
            decreases PRED_COUNT - p,
        {
            derived.push(Vec::new());
            p += 1;
        }
        DeductiveDatabase {
            points: Vec::new(),
            axioms: Vec::new(),
            aconst_facts: Vec::new(),
            derived,
            derived_aconst: Vec::new(),
        }
    }

    /// Tells whether a point of that name is there.
    pub fn has_point(&self, name: &String) -> (found: bool)
        ensures
            found == self@.has_point(name@),
    {
        let n = self.points.len();
        let mut i: usize = 0;
        while i < n
            invariant
                n == self.points.len(),
                i <= n,
                forall|k: int| 0 <= k < i ==> (#[trigger] self.points[k]).2@ != name@,
            decreases n - i,
        {
            if self.points[i].2 == *name {
                assert(self@.points[i as int].name == name@);
                return true;
            }
            i += 1;
        }
        assert forall|k: int| 0 <= k < self@.points.len() implies (#[trigger] self@.points[k]).name
            != name@ by {
            assert(self.points[k].2@ != name@);
        }
        false
    }

    /// Adds a point, unless a point of that name is there already: then
    /// nothing changes.
    pub fn add_point(&mut self, x: i64, y: i64, name: String)
        ensures
            old(self)@.has_point(name@) ==> final(self)@ == old(self)@,
            !old(self)@.has_point(name@) ==> final(self)@ == old(self)@.with_point(
                PointView { coord: Coord { x, y }, name: name@ },
            ),
    {
        proof {
            use_type_invariant(&*self);
        }
        if self.has_point(&name) {
            return ;
        }
        let ghost before = self@;
        assert forall|k: int| 0 <= k < self.points.len() implies (#[trigger] self.points[k]).2@
            != name@ by {
            assert(before.points[k].name == self.points[k].2@);
        }
        let mut points: Vec<(i64, i64, String)> = Vec::new();
        std::mem::swap(&mut points, &mut self.points);
        points.push((x, y, name));
        self.points = points;
        assert(self@.points =~= before.points.push(PointView { coord: Coord { x, y }, name: name@ }));
    }

    /// Adds an axiom whose predicate has as many arguments as it has.
    /// Another is not taken: then nothing changes.
    pub fn add_axiom(&mut self, f: Fact)
        ensures
            f.args.len() == f.pred.spec_arity() ==> final(self)@ == old(self)@.with_axiom(f@),
            f.args.len() != f.pred.spec_arity() ==> final(self)@ == old(self)@,
    {
        proof {
            use_type_invariant(&*self);
        }
        if f.args.len() != f.pred.arity() {
            return ;
        }
        let ghost before = self@;
        let mut axioms: Vec<Fact> = Vec::new();
        std::mem::swap(&mut axioms, &mut self.axioms);
        axioms.push(f);
        self.axioms = axioms;
        assert(self@.axioms =~= before.axioms.push(f@));
    }

    /// Adds the axiom that `a`, `b`, `c` are collinear.
    pub fn add_col(&mut self, a: String, b: String, c: String)
        ensures
            final(self)@ == old(self)@.with_axiom(FactView { pred: Pred::Col, args: seq![a@, b@, c@] }),
    {
        let ghost fact = FactView { pred: Pred::Col, args: seq![a@, b@, c@] };
        let args = vec![a, b, c];
        assert(views(args@) =~= fact.args);
        self.add_axiom(Fact { pred: Pred::Col, args });
    }

    /// Adds the axiom that line `ab` is parallel to line `cd`.
    pub fn add_para(&mut self, a: String, b: String, c: String, d: String)
        ensures
            final(self)@ == old(self)@.with_axiom(FactView { pred: Pred::Para, args: seq![a@, b@, c@, d@] }),
    {
        let ghost fact = FactView { pred: Pred::Para, args: seq![a@, b@, c@, d@] };
        let args = vec![a, b, c, d];
        assert(views(args@) =~= fact.args);
        self.add_axiom(Fact { pred: Pred::Para, args });
    }

    /// Adds the axiom that line `ab` is perpendicular to line `cd`.
    pub fn add_perp(&mut self, a: String, b: String, c: String, d: String)
        ensures
            final(self)@ == old(self)@.with_axiom(FactView { pred: Pred::Perp, args: seq![a@, b@, c@, d@] }),
    {
        let ghost fact = FactView { pred: Pred::Perp, args: seq![a@, b@, c@, d@] };
        let args = vec![a, b, c, d];
        assert(views(args@) =~= fact.args);
        self.add_axiom(Fact { pred: Pred::Perp, args });
    }

    /// Adds the axiom that segments `ab` and `cd` have the same length.
    pub fn add_cong(&mut self, a: String, b: String, c: String, d: String)
        ensures
            final(self)@ == old(self)@.with_axiom(FactView { pred: Pred::Cong, args: seq![a@, b@, c@, d@] }),
    {
        let ghost fact = FactView { pred: Pred::Cong, args: seq![a@, b@, c@, d@] };
        let args = vec![a, b, c, d];
        assert(views(args@) =~= fact.args);
        self.add_axiom(Fact { pred: Pred::Cong, args });
    }

    /// Adds the axiom that angle `abc` equals angle `def`.
    pub fn add_eqangle(&mut self, a: String, b: String, c: String, d: String, e: String, f: String)
        ensures
            final(self)@ == old(self)@.with_axiom(FactView { pred: Pred::Eqangle, args: seq![a@, b@, c@, d@, e@, f@] }),
    {
        let ghost fact = FactView { pred: Pred::Eqangle, args: seq![a@, b@, c@, d@, e@, f@] };
        let args = vec![a, b, c, d, e, f];
        assert(views(args@) =~= fact.args);
        self.add_axiom(Fact { pred: Pred::Eqangle, args });
    }

    /// Adds the axiom that `a`, `b`, `c`, `d` lie on one circle.
    pub fn add_cyclic(&mut self, a: String, b: String, c: String, d: String)
        ensures
            final(self)@ == old(self)@.with_axiom(FactView { pred: Pred::Cyclic, args: seq![a@, b@, c@, d@] }),
    {
        let ghost fact = FactView { pred: Pred::Cyclic, args: seq![a@, b@, c@, d@] };
        let args = vec![a, b, c, d];
        assert(views(args@) =~= fact.args);
        self.add_axiom(Fact { pred: Pred::Cyclic, args });
    }

    /// Adds the axiom that triangles `abc` and `def` have the same orientation.
    pub fn add_sameclock(&mut self, a: String, b: String, c: String, d: String, e: String, f: String)
        ensures
            final(self)@ == old(self)@.with_axiom(FactView { pred: Pred::Sameclock, args: seq![a@, b@, c@, d@, e@, f@] }),
    {
        let ghost fact = FactView { pred: Pred::Sameclock, args: seq![a@, b@, c@, d@, e@, f@] };
        let args = vec![a, b, c, d, e, f];
        assert(views(args@) =~= fact.args);
        self.add_axiom(Fact { pred: Pred::Sameclock, args });
    }

    /// Adds the axiom that `a` is the midpoint of `b` and `c`.
    pub fn add_midp(&mut self, a: String, b: String, c: String)
        ensures
            final(self)@ == old(self)@.with_axiom(FactView { pred: Pred::Midp, args: seq![a@, b@, c@] }),
    {
        let ghost fact = FactView { pred: Pred::Midp, args: seq![a@, b@, c@] };
        let args = vec![a, b, c];
        assert(views(args@) =~= fact.args);
        self.add_axiom(Fact { pred: Pred::Midp, args });
    }

    /// Adds the axiom that triangles `abc` and `def` are congruent, directly.
    pub fn add_contri1(&mut self, a: String, b: String, c: String, d: String, e: String, f: String)
        ensures
            final(self)@ == old(self)@.with_axiom(FactView { pred: Pred::Contri1, args: seq![a@, b@, c@, d@, e@, f@] }),
    {
        let ghost fact = FactView { pred: Pred::Contri1, args: seq![a@, b@, c@, d@, e@, f@] };
        let args = vec![a, b, c, d, e, f];
        assert(views(args@) =~= fact.args);
        self.add_axiom(Fact { pred: Pred::Contri1, args });
    }

    /// Adds the axiom that triangles `abc` and `def` are congruent, by reflection.
    pub fn add_contri2(&mut self, a: String, b: String, c: String, d: String, e: String, f: String)
        ensures
            final(self)@ == old(self)@.with_axiom(FactView { pred: Pred::Contri2, args: seq![a@, b@, c@, d@, e@, f@] }),
    {
        let ghost fact = FactView { pred: Pred::Contri2, args: seq![a@, b@, c@, d@, e@, f@] };
        let args = vec![a, b, c, d, e, f];
        assert(views(args@) =~= fact.args);
        self.add_axiom(Fact { pred: Pred::Contri2, args });
    }

    /// Adds the axiom that triangles `abc` and `def` are similar, directly.
    pub fn add_simtri1(&mut self, a: String, b: String, c: String, d: String, e: String, f: String)
        ensures
            final(self)@ == old(self)@.with_axiom(FactView { pred: Pred::Simtri1, args: seq![a@, b@, c@, d@, e@, f@] }),
    {
        let ghost fact = FactView { pred: Pred::Simtri1, args: seq![a@, b@, c@, d@, e@, f@] };
        let args = vec![a, b, c, d, e, f];
        assert(views(args@) =~= fact.args);
        self.add_axiom(Fact { pred: Pred::Simtri1, args });
    }

    /// Adds the axiom that triangles `abc` and `def` are similar, by reflection.
    pub fn add_simtri2(&mut self, a: String, b: String, c: String, d: String, e: String, f: String)
        ensures
            final(self)@ == old(self)@.with_axiom(FactView { pred: Pred::Simtri2, args: seq![a@, b@, c@, d@, e@, f@] }),
    {
        let ghost fact = FactView { pred: Pred::Simtri2, args: seq![a@, b@, c@, d@, e@, f@] };
        let args = vec![a, b, c, d, e, f];
        assert(views(args@) =~= fact.args);
        self.add_axiom(Fact { pred: Pred::Simtri2, args });
    }

    /// Adds the axiom that `ab` is to `cd` as `ef` is to `gh`.
    pub fn add_eqratio(&mut self, a: String, b: String, c: String, d: String, e: String, f: String, g: String, h: String)
        ensures
            final(self)@ == old(self)@.with_axiom(FactView { pred: Pred::Eqratio, args: seq![a@, b@, c@, d@, e@, f@, g@, h@] }),
    {
        let ghost fact = FactView { pred: Pred::Eqratio, args: seq![a@, b@, c@, d@, e@, f@, g@, h@] };
        let args = vec![a, b, c, d, e, f, g, h];
        assert(views(args@) =~= fact.args);
        self.add_axiom(Fact { pred: Pred::Eqratio, args });
    }
    /// Adds the axiom that angle `abc` is `m / n` of a half turn.
    pub fn add_aconst(&mut self, a: String, b: String, c: String, m: i32, n: i32)
        ensures
            final(self)@ == old(self)@.with_aconst(AconstView { a: a@, b: b@, c: c@, m, n }),
    {
        proof {
            use_type_invariant(&*self);
        }
        let ghost before = self@;
        let ghost f = AconstView { a: a@, b: b@, c: c@, m, n };
        let mut facts: Vec<Aconst> = Vec::new();
        std::mem::swap(&mut facts, &mut self.aconst_facts);
        facts.push(Aconst { a, b, c, m, n });
        self.aconst_facts = facts;
        assert(self@.aconsts =~= before.aconsts.push(f));
    }

    /// The points, in the order in which they were added.
    pub fn get_points(&self) -> (points: Vec<(i64, i64, String)>)
        ensures
            point_views(points@) == self@.points,
    {
        let mut points: Vec<(i64, i64, String)> = Vec::new();
        let n = self.points.len();
        let mut i: usize = 0;
        while i < n
            invariant
                n == self.points.len(),
                i <= n,
                points@.len() == i,
                forall|k: int|
                    0 <= k < i ==> (#[trigger] points@[k]).0 == self.points@[k].0 && points@[k].1
                        == self.points@[k].1 && points@[k].2@ == self.points@[k].2@,
            decreases n - i,
        {
            let p = &self.points[i];
            points.push((p.0, p.1, p.2.clone()));
            i += 1;
        }
        assert(point_views(points@) =~= self@.points);
        points
    }

    /// The derived facts of a predicate, in ascending order of their
    /// arguments, each with its derivations in ascending order.
    pub fn get_derived(&self, pred: Pred) -> (rows: Vec<DerivedFact>)
        ensures
            row_views(rows@) == self@.derived[pred.spec_index() as int],
            forall|i: int| 0 <= i < rows.len() ==> (#[trigger] rows[i])@.canonical(),
    {
        proof {
            use_type_invariant(self);
        }
        let p = pred.index();
        let src = &self.derived[p];
        let mut rows: Vec<DerivedFact> = Vec::new();
        let n = src.len();
        let mut i: usize = 0;
        while i < n
            invariant
                n == src.len(),
                i <= n,
                rows@.len() == i,
                forall|k: int| 0 <= k < i ==> (#[trigger] rows@[k])@ == src@[k]@,
                forall|k: int| 0 <= k < i ==> (#[trigger] rows@[k])@.canonical(),
            decreases n - i,
        {
            let row = src[i].clone();
            row.provenance.canonical();
            rows.push(row);
            i += 1;
        }
        assert(row_views(rows@) =~= self@.derived[p as int]);
        rows
    }

    /// The `col` facts of the closure, in ascending order of their
    /// arguments, each with its derivations in ascending order.
    pub fn get_col(&self) -> (rows: Vec<DerivedFact>)
        ensures
            row_views(rows@) == self@.derived[Pred::Col.spec_index() as int],
            forall|i: int| 0 <= i < rows.len() ==> (#[trigger] rows[i])@.canonical(),
    {
        self.get_derived(Pred::Col)
    }

    /// The `para` facts of the closure, in ascending order of their
    /// arguments, each with its derivations in ascending order.
    pub fn get_para(&self) -> (rows: Vec<DerivedFact>)
        ensures
            row_views(rows@) == self@.derived[Pred::Para.spec_index() as int],
            forall|i: int| 0 <= i < rows.len() ==> (#[trigger] rows[i])@.canonical(),
    {
        self.get_derived(Pred::Para)
    }

    /// The `perp` facts of the closure, in ascending order of their
    /// arguments, each with its derivations in ascending order.
    pub fn get_perp(&self) -> (rows: Vec<DerivedFact>)
        ensures
            row_views(rows@) == self@.derived[Pred::Perp.spec_index() as int],
            forall|i: int| 0 <= i < rows.len() ==> (#[trigger] rows[i])@.canonical(),
    {
        self.get_derived(Pred::Perp)
    }

    /// The `cong` facts of the closure, in ascending order of their
    /// arguments, each with its derivations in ascending order.
    pub fn get_cong(&self) -> (rows: Vec<DerivedFact>)
        ensures
            row_views(rows@) == self@.derived[Pred::Cong.spec_index() as int],
            forall|i: int| 0 <= i < rows.len() ==> (#[trigger] rows[i])@.canonical(),
    {
        self.get_derived(Pred::Cong)
    }

    /// The `eqangle` facts of the closure, in ascending order of their
    /// arguments, each with its derivations in ascending order.
    pub fn get_eqangle(&self) -> (rows: Vec<DerivedFact>)
        ensures
            row_views(rows@) == self@.derived[Pred::Eqangle.spec_index() as int],
            forall|i: int| 0 <= i < rows.len() ==> (#[trigger] rows[i])@.canonical(),
    {
        self.get_derived(Pred::Eqangle)
    }

    /// The `cyclic` facts of the closure, in ascending order of their
    /// arguments, each with its derivations in ascending order.
    pub fn get_cyclic(&self) -> (rows: Vec<DerivedFact>)
        ensures
            row_views(rows@) == self@.derived[Pred::Cyclic.spec_index() as int],
            forall|i: int| 0 <= i < rows.len() ==> (#[trigger] rows[i])@.canonical(),
    {
        self.get_derived(Pred::Cyclic)
    }

    /// The `sameclock` facts of the closure, in ascending order of their
    /// arguments, each with its derivations in ascending order.
    pub fn get_sameclock(&self) -> (rows: Vec<DerivedFact>)
        ensures
            row_views(rows@) == self@.derived[Pred::Sameclock.spec_index() as int],
            forall|i: int| 0 <= i < rows.len() ==> (#[trigger] rows[i])@.canonical(),
    {
        self.get_derived(Pred::Sameclock)
    }

    /// The `midp` facts of the closure, in ascending order of their
    /// arguments, each with its derivations in ascending order.
    pub fn get_midp(&self) -> (rows: Vec<DerivedFact>)
        ensures
            row_views(rows@) == self@.derived[Pred::Midp.spec_index() as int],
            forall|i: int| 0 <= i < rows.len() ==> (#[trigger] rows[i])@.canonical(),
    {
        self.get_derived(Pred::Midp)
    }

    /// The `contri1` facts of the closure, in ascending order of their
    /// arguments, each with its derivations in ascending order.
    pub fn get_contri1(&self) -> (rows: Vec<DerivedFact>)
        ensures
            row_views(rows@) == self@.derived[Pred::Contri1.spec_index() as int],
            forall|i: int| 0 <= i < rows.len() ==> (#[trigger] rows[i])@.canonical(),
    {
        self.get_derived(Pred::Contri1)
    }

    /// The `contri2` facts of the closure, in ascending order of their
    /// arguments, each with its derivations in ascending order.
    pub fn get_contri2(&self) -> (rows: Vec<DerivedFact>)
        ensures
            row_views(rows@) == self@.derived[Pred::Contri2.spec_index() as int],
            forall|i: int| 0 <= i < rows.len() ==> (#[trigger] rows[i])@.canonical(),
    {
        self.get_derived(Pred::Contri2)
    }

    /// The `simtri1` facts of the closure, in ascending order of their
    /// arguments, each with its derivations in ascending order.
    pub fn get_simtri1(&self) -> (rows: Vec<DerivedFact>)
        ensures
            row_views(rows@) == self@.derived[Pred::Simtri1.spec_index() as int],
            forall|i: int| 0 <= i < rows.len() ==> (#[trigger] rows[i])@.canonical(),
    {
        self.get_derived(Pred::Simtri1)
    }

    /// The `simtri2` facts of the closure, in ascending order of their
    /// arguments, each with its derivations in ascending order.
    pub fn get_simtri2(&self) -> (rows: Vec<DerivedFact>)
        ensures
            row_views(rows@) == self@.derived[Pred::Simtri2.spec_index() as int],
            forall|i: int| 0 <= i < rows.len() ==> (#[trigger] rows[i])@.canonical(),
    {
        self.get_derived(Pred::Simtri2)
    }

    /// The `eqratio` facts of the closure, in ascending order of their
    /// arguments, each with its derivations in ascending order.
    pub fn get_eqratio(&self) -> (rows: Vec<DerivedFact>)
        ensures
            row_views(rows@) == self@.derived[Pred::Eqratio.spec_index() as int],
            forall|i: int| 0 <= i < rows.len() ==> (#[trigger] rows[i])@.canonical(),
    {
        self.get_derived(Pred::Eqratio)
    }
    /// The constant-angle facts of the closure, in the order in which each
    /// was first added, each with its derivations.
    pub fn get_aconst(&self) -> (rows: Vec<DerivedAconst>)
        ensures
            aconst_row_views(rows@) == self@.derived_aconsts,
    {
        let mut rows: Vec<DerivedAconst> = Vec::new();
        let n = self.derived_aconst.len();
        let mut i: usize = 0;
        while i < n
            invariant
                n == self.derived_aconst.len(),
                i <= n,
                rows@.len() == i,
                forall|k: int| 0 <= k < i ==> (#[trigger] rows@[k])@ == self.derived_aconst@[k]@,
            decreases n - i,
        {
            rows.push(self.derived_aconst[i].clone());
            i += 1;
        }
        assert(aconst_row_views(rows@) =~= self@.derived_aconsts);
        rows
    }

    /// Computes the closure of the axioms under the rule base and keeps it,
    /// in place of what an earlier run derived. Only axioms whose arguments
    /// all name points are taken: the others give nothing. The points and
    /// axioms stay as they are.
    pub fn run(&mut self)
        ensures
            final(self)@.points == old(self)@.points,
            final(self)@.axioms == old(self)@.axioms,
            final(self)@.aconsts == old(self)@.aconsts,
            final(self)@.saturated(),
    {
        proof {
            use_type_invariant(&*self);
        }
        let ghost before = self@;
        let (ctx, grounds) = symbol_table(self);
        let store = saturate(&ctx, &grounds);
        let derived = read_back(&store, &ctx);
        let derived_aconst = close_aconst(self);
        let ghost dv = table_views(derived@);
        let ghost av = aconst_row_views(derived_aconst@);
        self.derived = derived;
        self.derived_aconst = derived_aconst;
        proof {
            let v = self@;
            assert(v.points == before.points);
            assert(v.axioms == before.axioms);
            assert(v.aconsts == before.aconsts);
            assert(v.derived == dv);
            assert(v.derived_aconsts == av);
            before.lemma_same_inputs(v);
            lemma_saturated_view(v, store@, ctx.names_view());
        }
    }
}

} // verus!
