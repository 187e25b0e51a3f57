//! Predicates, facts and their canonical textual identifiers.

use vstd::prelude::*;
use vstd::string::*;
use crate::order::views;

verus! {

/// The predicates over point names that the rules read and write.
#[derive(Clone, Copy, Debug, PartialEq, Eq, Structural)]
pub enum Pred {
    /// Three points on one line.
    Col,
    /// Line AB parallel to line CD.
    Para,
    /// Line AB perpendicular to line CD.
    Perp,
    /// Segments AB and CD of equal length.
    Cong,
    /// Directed angle ABC equal to directed angle DEF.
    Eqangle,
    /// Four points on one circle.
    Cyclic,
    /// Triangles ABC and DEF of the same orientation.
    Sameclock,
    /// M the midpoint of A and B.
    Midp,
    /// Triangle ABC congruent to DEF, directly.
    Contri1,
    /// Triangle ABC congruent to DEF, reflected.
    Contri2,
    /// Triangle ABC similar to DEF, directly.
    Simtri1,
    /// Triangle ABC similar to DEF, reflected.
    Simtri2,
    /// Ratio AB : CD equal to ratio EF : GH.
    Eqratio,
}

/// Number of predicates.
pub const PRED_COUNT: usize = 13;

/// Largest arity of a predicate.
pub const MAX_ARITY: usize = 8;

impl Pred {
    /// Number of point names in a fact of this predicate.
    pub open spec fn spec_arity(self) -> usize {
        match self {
            Pred::Col => 3,
            Pred::Para => 4,
            Pred::Perp => 4,
            Pred::Cong => 4,
            Pred::Eqangle => 6,
            Pred::Cyclic => 4,
            Pred::Sameclock => 6,
            Pred::Midp => 3,
            Pred::Contri1 => 6,
            Pred::Contri2 => 6,
            Pred::Simtri1 => 6,
            Pred::Simtri2 => 6,
            Pred::Eqratio => 8,
        }
    }

    /// Position of this predicate among all predicates.
    pub open spec fn spec_index(self) -> usize {
        match self {
            Pred::Col => 0,
            Pred::Para => 1,
            Pred::Perp => 2,
            Pred::Cong => 3,
            Pred::Eqangle => 4,
            Pred::Cyclic => 5,
            Pred::Sameclock => 6,
            Pred::Midp => 7,
            Pred::Contri1 => 8,
            Pred::Contri2 => 9,
            Pred::Simtri1 => 10,
            Pred::Simtri2 => 11,
            Pred::Eqratio => 12,
        }
    }

    /// The name under which facts of this predicate are identified.
    pub open spec fn spec_name(self) -> Seq<char> {
        match self {
            Pred::Col => "col"@,
            Pred::Para => "para"@,
            Pred::Perp => "perp"@,
            Pred::Cong => "cong"@,
            Pred::Eqangle => "eqangle"@,
            Pred::Cyclic => "cyclic"@,
            Pred::Sameclock => "sameclock"@,
            Pred::Midp => "midp"@,
            Pred::Contri1 => "contri1"@,
            Pred::Contri2 => "contri2"@,
            Pred::Simtri1 => "simtri1"@,
            Pred::Simtri2 => "simtri2"@,
            Pred::Eqratio => "eqratio"@,
        }
    }

    /// The predicate with a given index.
    pub open spec fn spec_from_index(i: int) -> Pred {
        if i == 0 {
            Pred::Col
        } else if i == 1 {
            Pred::Para
        } else if i == 2 {
            Pred::Perp
        } else if i == 3 {
            Pred::Cong
        } else if i == 4 {
            Pred::Eqangle
        } else if i == 5 {
            Pred::Cyclic
        } else if i == 6 {
            Pred::Sameclock
        } else if i == 7 {
            Pred::Midp
        } else if i == 8 {
            Pred::Contri1
        } else if i == 9 {
            Pred::Contri2
        } else if i == 10 {
            Pred::Simtri1
        } else if i == 11 {
            Pred::Simtri2
        } else {
            Pred::Eqratio
        }
    }

    /// Number of point names in a fact of this predicate.
    #[verifier::when_used_as_spec(spec_arity)]
    pub fn arity(self) -> (a: usize)
        ensures
            a == self.spec_arity(),
            3 <= a <= MAX_ARITY,
    {
        match self {
            Pred::Col => 3,
            Pred::Para => 4,
            Pred::Perp => 4,
            Pred::Cong => 4,
            Pred::Eqangle => 6,
            Pred::Cyclic => 4,
            Pred::Sameclock => 6,
            Pred::Midp => 3,
            Pred::Contri1 => 6,
            Pred::Contri2 => 6,
            Pred::Simtri1 => 6,
            Pred::Simtri2 => 6,
            Pred::Eqratio => 8,
        }
    }

    /// Position of this predicate among all predicates.
    #[verifier::when_used_as_spec(spec_index)]
    pub fn index(self) -> (i: usize)
        ensures
            i == self.spec_index(),
            i < PRED_COUNT,
            Pred::spec_from_index(i as int) == self,
    {
        match self {
            Pred::Col => 0,
            Pred::Para => 1,
            Pred::Perp => 2,
            Pred::Cong => 3,
            Pred::Eqangle => 4,
            Pred::Cyclic => 5,
            Pred::Sameclock => 6,
            Pred::Midp => 7,
            Pred::Contri1 => 8,
            Pred::Contri2 => 9,
            Pred::Simtri1 => 10,
            Pred::Simtri2 => 11,
            Pred::Eqratio => 12,
        }
    }

    /// The predicate at a given position.
    pub fn from_index(i: usize) -> (p: Pred)
        requires
            i < PRED_COUNT,
        ensures
            p == Pred::spec_from_index(i as int),
            p.spec_index() == i,
    {
        if i == 0 {
            Pred::Col
        } else if i == 1 {
            Pred::Para
        } else if i == 2 {
            Pred::Perp
        } else if i == 3 {
            Pred::Cong
        } else if i == 4 {
            Pred::Eqangle
        } else if i == 5 {
            Pred::Cyclic
        } else if i == 6 {
            Pred::Sameclock
        } else if i == 7 {
            Pred::Midp
        } else if i == 8 {
            Pred::Contri1
        } else if i == 9 {
            Pred::Contri2
        } else if i == 10 {
            Pred::Simtri1
        } else if i == 11 {
            Pred::Simtri2
        } else {
            Pred::Eqratio
        }
    }

    /// The name under which facts of this predicate are identified.
    pub fn name(self) -> (s: &'static str)
        ensures
            s@ == self.spec_name(),
    {
        match self {
            Pred::Col => "col",
            Pred::Para => "para",
            Pred::Perp => "perp",
            Pred::Cong => "cong",
            Pred::Eqangle => "eqangle",
            Pred::Cyclic => "cyclic",
            Pred::Sameclock => "sameclock",
            Pred::Midp => "midp",
            Pred::Contri1 => "contri1",
            Pred::Contri2 => "contri2",
            Pred::Simtri1 => "simtri1",
            Pred::Simtri2 => "simtri2",
            Pred::Eqratio => "eqratio",
        }
    }
}

/// A fact as a value: a predicate applied to point names.
pub struct FactView {
    pub pred: Pred,
    pub args: Seq<Seq<char>>,
}

/// A fact: a predicate applied to point names.
#[derive(Debug)]
pub struct Fact {
    pub pred: Pred,
    pub args: Vec<String>,
}

impl View for Fact {
    type V = FactView;

    open spec fn view(&self) -> FactView {
        FactView { pred: self.pred, args: views(self.args@) }
    }
}

/// The arguments of a fact joined by commas.
pub open spec fn join_args(args: Seq<Seq<char>>) -> Seq<char>
    decreases args.len(),
{
    if args.len() == 0 {
        Seq::empty()
    } else if args.len() == 1 {
        args[0]
    } else {
        join_args(args.drop_last()) + seq![','] + args.last()
    }
}

/// The identifier of a fact: the predicate's name, then the arguments in
/// their own order between parentheses, separated by commas.
pub open spec fn fact_id_spec(name: Seq<char>, args: Seq<Seq<char>>) -> Seq<char> {
    name + seq!['('] + join_args(args) + seq![')']
}

impl FactView {
    /// The identifier by which a derivation refers to this fact.
    pub open spec fn id(self) -> Seq<char> {
        fact_id_spec(self.pred.spec_name(), self.args)
    }
}

/// Builds the identifier of a fact from the name of its predicate and its
/// arguments. The order of the arguments is kept, so that two facts that
/// differ by a symmetry have different identifiers.
pub fn fact_id(pred_type: &str, args: &Vec<String>) -> (id: String)
    ensures
        id@ == fact_id_spec(pred_type@, views(args@)),
{
    proof {
        reveal_strlit("(");
        reveal_strlit(",");
        reveal_strlit(")");
    }
    let mut id = String::from_str(pred_type);
    id.append("(");
    assert("("@ =~= seq!['(']);
    assert(","@ =~= seq![',']);
    assert(")"@ =~= seq![')']);
    let n = args.len();
    let mut i: usize = 0;
    assert(views(args@).subrange(0, 0) =~= Seq::<Seq<char>>::empty());
    assert(id@ =~= pred_type@ + seq!['('] + join_args(views(args@).subrange(0, 0)));
    while i < n
        invariant
            n == args@.len(),
            i <= n,
            ","@ == seq![','],
            id@ == pred_type@ + seq!['('] + join_args(views(args@).subrange(0, i as int)),
        decreases n - i,
    {
        let ghost prefix = views(args@).subrange(0, i as int);
        let ghost next = views(args@).subrange(0, i + 1);
        assert(next.drop_last() =~= prefix);
        assert(next.last() == args@[i as int]@);
        if i > 0 {
            id.append(",");
        }
        id.append(args[i].as_str());
        assert(id@ =~= pred_type@ + seq!['('] + join_args(next));
        i += 1;
    }
    assert(views(args@).subrange(0, n as int) =~= views(args@));
    id.append(")");
    id
}

} // verus!
