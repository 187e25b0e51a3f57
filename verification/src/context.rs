//! What stays fixed while a store is saturated, and facts over symbols.

use vstd::prelude::*;
use vstd::string::*;
use crate::fact::{FactView, Pred};
use crate::order::views;
use crate::orientation::Coord;
use crate::rule::{Rule, RuleView, rule_views};
use crate::saturation::{Names, names_distinct, points_map, tuple_fact};
use crate::store::tuple_ok;

verus! {

/// What stays fixed while a store is saturated: the points, each with its
/// name and its coordinates, and the rules. The symbols are the points.
#[derive(Debug)]
pub struct Context {
    /// The name of each point.
    pub names: Vec<String>,
    /// The coordinates of each point.
    pub coords: Vec<Coord>,
    pub rules: Vec<Rule>,
}

impl Context {
    /// The table of names.
    pub open spec fn names_view(&self) -> Names {
        views(self.names@)
    }

    /// The points as a map from names to coordinates.
    pub open spec fn pts(&self) -> Map<Seq<char>, Coord> {
        points_map(self.names_view(), self.coords@)
    }

    /// The rules as values.
    pub open spec fn rules_view(&self) -> Seq<RuleView> {
        rule_views(self.rules@)
    }

    /// No two points share a name, every point has coordinates, and the
    /// rules are well formed.
    pub open spec fn wf(&self) -> bool {
        &&& names_distinct(self.names_view())
        &&& self.coords.len() == self.names.len()
        &&& forall|i: int| 0 <= i < self.rules.len() ==> (#[trigger] self.rules[i])@.wf()
    }
}

/// A fact over symbols.
#[derive(Debug)]
pub struct Ground {
    pub pred: Pred,
    pub args: Vec<usize>,
}

impl Ground {
    /// The fact over names that this stands for.
    pub open spec fn fact(&self, names: Names) -> FactView {
        tuple_fact(self.pred.spec_index() as int, self.args@, names)
    }
}

/// Every fact has the arity of its predicate and uses the first `n` symbols.
pub open spec fn grounds_ok(gs: Seq<Ground>, n: int) -> bool {
    forall|k: int|
        0 <= k < gs.len() ==> tuple_ok((#[trigger] gs[k]).pred.spec_index() as int, gs[k].args@, n)
}

/// The facts over names that a list of facts over symbols stands for.
pub open spec fn ground_set(gs: Seq<Ground>, names: Names) -> Set<FactView> {
    Set::new(|f: FactView| exists|k: int| 0 <= k < gs.len() && (#[trigger] gs[k]).fact(names) == f)
}

} // verus!
