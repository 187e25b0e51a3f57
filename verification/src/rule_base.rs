//! The rule base: the symmetries of the predicates and the theorems of plane
//! geometry by which facts are derived.
//!
//! Each rule is written down once as a value, for the contracts, and once as
//! the function that builds it, which is shown to build that value and to
//! build a well-formed rule.

use vstd::prelude::*;
use vstd::string::*;
use crate::fact::Pred;
use crate::rule::{Atom, AtomView, Rule, RuleView, atom_views, rule_views};

verus! {

/// The atom of a predicate and a list of variables.
pub open spec fn atom_v(pred: Pred, vars: Seq<usize>) -> AtomView {
    AtomView { pred, vars }
}

fn atom(pred: Pred, vars: Vec<usize>) -> (a: Atom)
    ensures
        a@ == atom_v(pred, vars@),
{
    Atom { pred, vars }
}

fn rule(
    tag: &str,
    body: Vec<Atom>,
    origin: Vec<(usize, usize)>,
    distinct: Vec<(usize, usize)>,
    orient: Vec<usize>,
    heads: Vec<Atom>,
) -> (r: Rule)
    ensures
        r@ == (RuleView {
            tag: tag@,
            body: atom_views(body@),
            origin: origin@,
            distinct: distinct@,
            orient: orient@,
            heads: atom_views(heads@),
        }),
{
    Rule { tag: String::from_str(tag), body, origin, distinct, orient, heads }
}

/// Collinearity does not depend on the order of the points.
///
/// From col(a,b,c):
/// col(c,b,a), col(a,c,b).
/// Variables in order: a, b, c.
pub open spec fn sym_col() -> RuleView {
    RuleView {
        tag: "sym"@,
        body: seq![
            atom_v(Pred::Col, seq![0usize, 1, 2]),
        ],
        origin: seq![(0usize, 0usize), (0, 1), (0, 2)],
        distinct: seq![],
        orient: seq![],
        heads: seq![
            atom_v(Pred::Col, seq![2usize, 1, 0]),
            atom_v(Pred::Col, seq![0usize, 2, 1]),
        ],
    }
}

fn build_sym_col() -> (r: Rule)
    ensures
        r@ == sym_col(),
        r@.wf(),
{
    let r = rule(
        "sym",
        vec![
            atom(Pred::Col, vec![0, 1, 2]),
        ],
        vec![(0, 0), (0, 1), (0, 2)],
        vec![],
        vec![],
        vec![
            atom(Pred::Col, vec![2, 1, 0]),
            atom(Pred::Col, vec![0, 2, 1]),
        ],
    );
    assert(r@.body =~= sym_col().body);
    assert(r@.heads =~= sym_col().heads);
    assert(r@.origin =~= sym_col().origin);
    assert(r@.distinct =~= sym_col().distinct);
    assert(r@.orient =~= sym_col().orient);
    r
}

/// Parallelism holds whichever line comes first and whichever way each is named.
///
/// From para(a,b,c,d):
/// para(c,d,a,b), para(b,a,c,d), para(a,b,d,c).
/// Variables in order: a, b, c, d.
pub open spec fn sym_para() -> RuleView {
    RuleView {
        tag: "sym"@,
        body: seq![
            atom_v(Pred::Para, seq![0usize, 1, 2, 3]),
        ],
        origin: seq![(0usize, 0usize), (0, 1), (0, 2), (0, 3)],
        distinct: seq![],
        orient: seq![],
        heads: seq![
            atom_v(Pred::Para, seq![2usize, 3, 0, 1]),
            atom_v(Pred::Para, seq![1usize, 0, 2, 3]),
            atom_v(Pred::Para, seq![0usize, 1, 3, 2]),
        ],
    }
}

fn build_sym_para() -> (r: Rule)
    ensures
        r@ == sym_para(),
        r@.wf(),
{
    let r = rule(
        "sym",
        vec![
            atom(Pred::Para, vec![0, 1, 2, 3]),
        ],
        vec![(0, 0), (0, 1), (0, 2), (0, 3)],
        vec![],
        vec![],
        vec![
            atom(Pred::Para, vec![2, 3, 0, 1]),
            atom(Pred::Para, vec![1, 0, 2, 3]),
            atom(Pred::Para, vec![0, 1, 3, 2]),
        ],
    );
    assert(r@.body =~= sym_para().body);
    assert(r@.heads =~= sym_para().heads);
    assert(r@.origin =~= sym_para().origin);
    assert(r@.distinct =~= sym_para().distinct);
    assert(r@.orient =~= sym_para().orient);
    r
}

/// Perpendicularity holds whichever line comes first and whichever way each is named.
///
/// From perp(a,b,c,d):
/// perp(c,d,a,b), perp(b,a,c,d), perp(a,b,d,c).
/// Variables in order: a, b, c, d.
pub open spec fn sym_perp() -> RuleView {
    RuleView {
        tag: "sym"@,
        body: seq![
            atom_v(Pred::Perp, seq![0usize, 1, 2, 3]),
        ],
        origin: seq![(0usize, 0usize), (0, 1), (0, 2), (0, 3)],
        distinct: seq![],
        orient: seq![],
        heads: seq![
            atom_v(Pred::Perp, seq![2usize, 3, 0, 1]),
            atom_v(Pred::Perp, seq![1usize, 0, 2, 3]),
            atom_v(Pred::Perp, seq![0usize, 1, 3, 2]),
        ],
    }
}

fn build_sym_perp() -> (r: Rule)
    ensures
        r@ == sym_perp(),
        r@.wf(),
{
    let r = rule(
        "sym",
        vec![
            atom(Pred::Perp, vec![0, 1, 2, 3]),
        ],
        vec![(0, 0), (0, 1), (0, 2), (0, 3)],
        vec![],
        vec![],
        vec![
            atom(Pred::Perp, vec![2, 3, 0, 1]),
            atom(Pred::Perp, vec![1, 0, 2, 3]),
            atom(Pred::Perp, vec![0, 1, 3, 2]),
        ],
    );
    assert(r@.body =~= sym_perp().body);
    assert(r@.heads =~= sym_perp().heads);
    assert(r@.origin =~= sym_perp().origin);
    assert(r@.distinct =~= sym_perp().distinct);
    assert(r@.orient =~= sym_perp().orient);
    r
}

/// Congruence of segments holds whichever line comes first and whichever way each is named.
///
/// From cong(a,b,c,d):
/// cong(c,d,a,b), cong(b,a,c,d), cong(a,b,d,c).
/// Variables in order: a, b, c, d.
pub open spec fn sym_cong() -> RuleView {
    RuleView {
        tag: "sym"@,
        body: seq![
            atom_v(Pred::Cong, seq![0usize, 1, 2, 3]),
        ],
        origin: seq![(0usize, 0usize), (0, 1), (0, 2), (0, 3)],
        distinct: seq![],
        orient: seq![],
        heads: seq![
            atom_v(Pred::Cong, seq![2usize, 3, 0, 1]),
            atom_v(Pred::Cong, seq![1usize, 0, 2, 3]),
            atom_v(Pred::Cong, seq![0usize, 1, 3, 2]),
        ],
    }
}

fn build_sym_cong() -> (r: Rule)
    ensures
        r@ == sym_cong(),
        r@.wf(),
{
    let r = rule(
        "sym",
        vec![
            atom(Pred::Cong, vec![0, 1, 2, 3]),
        ],
        vec![(0, 0), (0, 1), (0, 2), (0, 3)],
        vec![],
        vec![],
        vec![
            atom(Pred::Cong, vec![2, 3, 0, 1]),
            atom(Pred::Cong, vec![1, 0, 2, 3]),
            atom(Pred::Cong, vec![0, 1, 3, 2]),
        ],
    );
    assert(r@.body =~= sym_cong().body);
    assert(r@.heads =~= sym_cong().heads);
    assert(r@.origin =~= sym_cong().origin);
    assert(r@.distinct =~= sym_cong().distinct);
    assert(r@.orient =~= sym_cong().orient);
    r
}

/// Equal angles may be exchanged, and both may be read backwards.
///
/// From eqangle(a,b,c,d,e,f):
/// eqangle(d,e,f,a,b,c), eqangle(c,b,a,f,e,d).
/// Variables in order: a, b, c, d, e, f.
pub open spec fn sym_eqangle() -> RuleView {
    RuleView {
        tag: "sym"@,
        body: seq![
            atom_v(Pred::Eqangle, seq![0usize, 1, 2, 3, 4, 5]),
        ],
        origin: seq![(0usize, 0usize), (0, 1), (0, 2), (0, 3), (0, 4), (0, 5)],
        distinct: seq![],
        orient: seq![],
        heads: seq![
            atom_v(Pred::Eqangle, seq![3usize, 4, 5, 0, 1, 2]),
            atom_v(Pred::Eqangle, seq![2usize, 1, 0, 5, 4, 3]),
        ],
    }
}

fn build_sym_eqangle() -> (r: Rule)
    ensures
        r@ == sym_eqangle(),
        r@.wf(),
{
    let r = rule(
        "sym",
        vec![
            atom(Pred::Eqangle, vec![0, 1, 2, 3, 4, 5]),
        ],
        vec![(0, 0), (0, 1), (0, 2), (0, 3), (0, 4), (0, 5)],
        vec![],
        vec![],
        vec![
            atom(Pred::Eqangle, vec![3, 4, 5, 0, 1, 2]),
            atom(Pred::Eqangle, vec![2, 1, 0, 5, 4, 3]),
        ],
    );
    assert(r@.body =~= sym_eqangle().body);
    assert(r@.heads =~= sym_eqangle().heads);
    assert(r@.origin =~= sym_eqangle().origin);
    assert(r@.distinct =~= sym_eqangle().distinct);
    assert(r@.orient =~= sym_eqangle().orient);
    r
}

/// Concyclicity does not depend on the order of the points.
///
/// From cyclic(a,b,c,d):
/// cyclic(b,c,d,a), cyclic(a,c,b,d).
/// Variables in order: a, b, c, d.
pub open spec fn sym_cyclic() -> RuleView {
    RuleView {
        tag: "sym"@,
        body: seq![
            atom_v(Pred::Cyclic, seq![0usize, 1, 2, 3]),
        ],
        origin: seq![(0usize, 0usize), (0, 1), (0, 2), (0, 3)],
        distinct: seq![],
        orient: seq![],
        heads: seq![
            atom_v(Pred::Cyclic, seq![1usize, 2, 3, 0]),
            atom_v(Pred::Cyclic, seq![0usize, 2, 1, 3]),
        ],
    }
}

fn build_sym_cyclic() -> (r: Rule)
    ensures
        r@ == sym_cyclic(),
        r@.wf(),
{
    let r = rule(
        "sym",
        vec![
            atom(Pred::Cyclic, vec![0, 1, 2, 3]),
        ],
        vec![(0, 0), (0, 1), (0, 2), (0, 3)],
        vec![],
        vec![],
        vec![
            atom(Pred::Cyclic, vec![1, 2, 3, 0]),
            atom(Pred::Cyclic, vec![0, 2, 1, 3]),
        ],
    );
    assert(r@.body =~= sym_cyclic().body);
    assert(r@.heads =~= sym_cyclic().heads);
    assert(r@.origin =~= sym_cyclic().origin);
    assert(r@.distinct =~= sym_cyclic().distinct);
    assert(r@.orient =~= sym_cyclic().orient);
    r
}

/// Triangles of the same orientation may be exchanged, the second may be rotated, and both may be reversed.
///
/// From sameclock(a,b,c,d,e,f):
/// sameclock(d,e,f,a,b,c), sameclock(a,b,c,f,d,e), sameclock(c,b,a,f,e,d).
/// Variables in order: a, b, c, d, e, f.
pub open spec fn sym_sameclock() -> RuleView {
    RuleView {
        tag: "sym"@,
        body: seq![
            atom_v(Pred::Sameclock, seq![0usize, 1, 2, 3, 4, 5]),
        ],
        origin: seq![(0usize, 0usize), (0, 1), (0, 2), (0, 3), (0, 4), (0, 5)],
        distinct: seq![],
        orient: seq![],
        heads: seq![
            atom_v(Pred::Sameclock, seq![3usize, 4, 5, 0, 1, 2]),
            atom_v(Pred::Sameclock, seq![0usize, 1, 2, 5, 3, 4]),
            atom_v(Pred::Sameclock, seq![2usize, 1, 0, 5, 4, 3]),
        ],
    }
}

fn build_sym_sameclock() -> (r: Rule)
    ensures
        r@ == sym_sameclock(),
        r@.wf(),
{
    let r = rule(
        "sym",
        vec![
            atom(Pred::Sameclock, vec![0, 1, 2, 3, 4, 5]),
        ],
        vec![(0, 0), (0, 1), (0, 2), (0, 3), (0, 4), (0, 5)],
        vec![],
        vec![],
        vec![
            atom(Pred::Sameclock, vec![3, 4, 5, 0, 1, 2]),
            atom(Pred::Sameclock, vec![0, 1, 2, 5, 3, 4]),
            atom(Pred::Sameclock, vec![2, 1, 0, 5, 4, 3]),
        ],
    );
    assert(r@.body =~= sym_sameclock().body);
    assert(r@.heads =~= sym_sameclock().heads);
    assert(r@.origin =~= sym_sameclock().origin);
    assert(r@.distinct =~= sym_sameclock().distinct);
    assert(r@.orient =~= sym_sameclock().orient);
    r
}

/// Equal ratios: the two ratios may be exchanged, both may be inverted, and the inner terms may be exchanged.
///
/// From eqratio(a,b,c,d,e,f,g,h):
/// eqratio(e,f,g,h,a,b,c,d), eqratio(c,d,a,b,g,h,e,f), eqratio(a,b,e,f,c,d,g,h).
/// Variables in order: a, b, c, d, e, f, g, h.
pub open spec fn sym_eqratio() -> RuleView {
    RuleView {
        tag: "sym"@,
        body: seq![
            atom_v(Pred::Eqratio, seq![0usize, 1, 2, 3, 4, 5, 6, 7]),
        ],
        origin: seq![(0usize, 0usize), (0, 1), (0, 2), (0, 3), (0, 4), (0, 5), (0, 6), (0, 7)],
        distinct: seq![],
        orient: seq![],
        heads: seq![
            atom_v(Pred::Eqratio, seq![4usize, 5, 6, 7, 0, 1, 2, 3]),
            atom_v(Pred::Eqratio, seq![2usize, 3, 0, 1, 6, 7, 4, 5]),
            atom_v(Pred::Eqratio, seq![0usize, 1, 4, 5, 2, 3, 6, 7]),
        ],
    }
}

fn build_sym_eqratio() -> (r: Rule)
    ensures
        r@ == sym_eqratio(),
        r@.wf(),
{
    let r = rule(
        "sym",
        vec![
            atom(Pred::Eqratio, vec![0, 1, 2, 3, 4, 5, 6, 7]),
        ],
        vec![(0, 0), (0, 1), (0, 2), (0, 3), (0, 4), (0, 5), (0, 6), (0, 7)],
        vec![],
        vec![],
        vec![
            atom(Pred::Eqratio, vec![4, 5, 6, 7, 0, 1, 2, 3]),
            atom(Pred::Eqratio, vec![2, 3, 0, 1, 6, 7, 4, 5]),
            atom(Pred::Eqratio, vec![0, 1, 4, 5, 2, 3, 6, 7]),
        ],
    );
    assert(r@.body =~= sym_eqratio().body);
    assert(r@.heads =~= sym_eqratio().heads);
    assert(r@.origin =~= sym_eqratio().origin);
    assert(r@.distinct =~= sym_eqratio().distinct);
    assert(r@.orient =~= sym_eqratio().orient);
    r
}

/// A line through three distinct points is parallel to itself.
///
/// From col(a,b,c), with a, b, c pairwise distinct:
/// para(a,b,a,c).
/// Variables in order: a, b, c.
pub open spec fn col_para() -> RuleView {
    RuleView {
        tag: "col_para"@,
        body: seq![
            atom_v(Pred::Col, seq![0usize, 1, 2]),
        ],
        origin: seq![(0usize, 0usize), (0, 1), (0, 2)],
        distinct: seq![(0usize, 1usize), (0, 2), (1, 2)],
        orient: seq![],
        heads: seq![
            atom_v(Pred::Para, seq![0usize, 1, 0, 2]),
        ],
    }
}

fn build_col_para() -> (r: Rule)
    ensures
        r@ == col_para(),
        r@.wf(),
{
    let r = rule(
        "col_para",
        vec![
            atom(Pred::Col, vec![0, 1, 2]),
        ],
        vec![(0, 0), (0, 1), (0, 2)],
        vec![(0, 1), (0, 2), (1, 2)],
        vec![],
        vec![
            atom(Pred::Para, vec![0, 1, 0, 2]),
        ],
    );
    assert(r@.body =~= col_para().body);
    assert(r@.heads =~= col_para().heads);
    assert(r@.origin =~= col_para().origin);
    assert(r@.distinct =~= col_para().distinct);
    assert(r@.orient =~= col_para().orient);
    r
}

/// Inscribed angles over the same chord are equal.
///
/// From cyclic(a,b,c,d):
/// eqangle(a,d,b,a,c,b), eqangle(d,a,c,d,b,c).
/// Variables in order: a, b, c, d.
pub open spec fn cyclic_eqangle() -> RuleView {
    RuleView {
        tag: "cyclic_eqangle"@,
        body: seq![
            atom_v(Pred::Cyclic, seq![0usize, 1, 2, 3]),
        ],
        origin: seq![(0usize, 0usize), (0, 1), (0, 2), (0, 3)],
        distinct: seq![],
        orient: seq![],
        heads: seq![
            atom_v(Pred::Eqangle, seq![0usize, 3, 1, 0, 2, 1]),
            atom_v(Pred::Eqangle, seq![3usize, 0, 2, 3, 1, 2]),
        ],
    }
}

fn build_cyclic_eqangle() -> (r: Rule)
    ensures
        r@ == cyclic_eqangle(),
        r@.wf(),
{
    let r = rule(
        "cyclic_eqangle",
        vec![
            atom(Pred::Cyclic, vec![0, 1, 2, 3]),
        ],
        vec![(0, 0), (0, 1), (0, 2), (0, 3)],
        vec![],
        vec![],
        vec![
            atom(Pred::Eqangle, vec![0, 3, 1, 0, 2, 1]),
            atom(Pred::Eqangle, vec![3, 0, 2, 3, 1, 2]),
        ],
    );
    assert(r@.body =~= cyclic_eqangle().body);
    assert(r@.heads =~= cyclic_eqangle().heads);
    assert(r@.origin =~= cyclic_eqangle().origin);
    assert(r@.distinct =~= cyclic_eqangle().distinct);
    assert(r@.orient =~= cyclic_eqangle().orient);
    r
}

/// A midpoint halves its segment and lies on it.
///
/// From midp(m,a,b):
/// cong(a,m,m,b), col(a,m,b).
/// Variables in order: m, a, b.
pub open spec fn midp_proj() -> RuleView {
    RuleView {
        tag: "midp_proj"@,
        body: seq![
            atom_v(Pred::Midp, seq![0usize, 1, 2]),
        ],
        origin: seq![(0usize, 0usize), (0, 1), (0, 2)],
        distinct: seq![],
        orient: seq![],
        heads: seq![
            atom_v(Pred::Cong, seq![1usize, 0, 0, 2]),
            atom_v(Pred::Col, seq![1usize, 0, 2]),
        ],
    }
}

fn build_midp_proj() -> (r: Rule)
    ensures
        r@ == midp_proj(),
        r@.wf(),
{
    let r = rule(
        "midp_proj",
        vec![
            atom(Pred::Midp, vec![0, 1, 2]),
        ],
        vec![(0, 0), (0, 1), (0, 2)],
        vec![],
        vec![],
        vec![
            atom(Pred::Cong, vec![1, 0, 0, 2]),
            atom(Pred::Col, vec![1, 0, 2]),
        ],
    );
    assert(r@.body =~= midp_proj().body);
    assert(r@.heads =~= midp_proj().heads);
    assert(r@.origin =~= midp_proj().origin);
    assert(r@.distinct =~= midp_proj().distinct);
    assert(r@.orient =~= midp_proj().orient);
    r
}

/// Directly congruent triangles have equal sides and equal angles.
///
/// From contri1(a,b,c,d,e,f):
/// cong(a,b,d,e), cong(b,c,e,f), cong(c,a,f,d), eqangle(a,b,c,d,e,f), eqangle(b,c,a,e,f,d), eqangle(c,a,b,f,d,e).
/// Variables in order: a, b, c, d, e, f.
pub open spec fn contri1_parts() -> RuleView {
    RuleView {
        tag: "contri1_parts"@,
        body: seq![
            atom_v(Pred::Contri1, seq![0usize, 1, 2, 3, 4, 5]),
        ],
        origin: seq![(0usize, 0usize), (0, 1), (0, 2), (0, 3), (0, 4), (0, 5)],
        distinct: seq![],
        orient: seq![],
        heads: seq![
            atom_v(Pred::Cong, seq![0usize, 1, 3, 4]),
            atom_v(Pred::Cong, seq![1usize, 2, 4, 5]),
            atom_v(Pred::Cong, seq![2usize, 0, 5, 3]),
            atom_v(Pred::Eqangle, seq![0usize, 1, 2, 3, 4, 5]),
            atom_v(Pred::Eqangle, seq![1usize, 2, 0, 4, 5, 3]),
            atom_v(Pred::Eqangle, seq![2usize, 0, 1, 5, 3, 4]),
        ],
    }
}

fn build_contri1_parts() -> (r: Rule)
    ensures
        r@ == contri1_parts(),
        r@.wf(),
{
    let r = rule(
        "contri1_parts",
        vec![
            atom(Pred::Contri1, vec![0, 1, 2, 3, 4, 5]),
        ],
        vec![(0, 0), (0, 1), (0, 2), (0, 3), (0, 4), (0, 5)],
        vec![],
        vec![],
        vec![
            atom(Pred::Cong, vec![0, 1, 3, 4]),
            atom(Pred::Cong, vec![1, 2, 4, 5]),
            atom(Pred::Cong, vec![2, 0, 5, 3]),
            atom(Pred::Eqangle, vec![0, 1, 2, 3, 4, 5]),
            atom(Pred::Eqangle, vec![1, 2, 0, 4, 5, 3]),
            atom(Pred::Eqangle, vec![2, 0, 1, 5, 3, 4]),
        ],
    );
    assert(r@.body =~= contri1_parts().body);
    assert(r@.heads =~= contri1_parts().heads);
    assert(r@.origin =~= contri1_parts().origin);
    assert(r@.distinct =~= contri1_parts().distinct);
    assert(r@.orient =~= contri1_parts().orient);
    r
}

/// Triangles congruent by reflection have equal sides, and equal angles of opposite sense.
///
/// From contri2(a,b,c,d,e,f):
/// cong(a,b,d,e), cong(b,c,e,f), cong(c,a,f,d), eqangle(a,b,c,f,e,d), eqangle(b,c,a,d,f,e), eqangle(c,a,b,e,d,f).
/// Variables in order: a, b, c, d, e, f.
pub open spec fn contri2_parts() -> RuleView {
    RuleView {
        tag: "contri2_parts"@,
        body: seq![
            atom_v(Pred::Contri2, seq![0usize, 1, 2, 3, 4, 5]),
        ],
        origin: seq![(0usize, 0usize), (0, 1), (0, 2), (0, 3), (0, 4), (0, 5)],
        distinct: seq![],
        orient: seq![],
        heads: seq![
            atom_v(Pred::Cong, seq![0usize, 1, 3, 4]),
            atom_v(Pred::Cong, seq![1usize, 2, 4, 5]),
            atom_v(Pred::Cong, seq![2usize, 0, 5, 3]),
            atom_v(Pred::Eqangle, seq![0usize, 1, 2, 5, 4, 3]),
            atom_v(Pred::Eqangle, seq![1usize, 2, 0, 3, 5, 4]),
            atom_v(Pred::Eqangle, seq![2usize, 0, 1, 4, 3, 5]),
        ],
    }
}

fn build_contri2_parts() -> (r: Rule)
    ensures
        r@ == contri2_parts(),
        r@.wf(),
{
    let r = rule(
        "contri2_parts",
        vec![
            atom(Pred::Contri2, vec![0, 1, 2, 3, 4, 5]),
        ],
        vec![(0, 0), (0, 1), (0, 2), (0, 3), (0, 4), (0, 5)],
        vec![],
        vec![],
        vec![
            atom(Pred::Cong, vec![0, 1, 3, 4]),
            atom(Pred::Cong, vec![1, 2, 4, 5]),
            atom(Pred::Cong, vec![2, 0, 5, 3]),
            atom(Pred::Eqangle, vec![0, 1, 2, 5, 4, 3]),
            atom(Pred::Eqangle, vec![1, 2, 0, 3, 5, 4]),
            atom(Pred::Eqangle, vec![2, 0, 1, 4, 3, 5]),
        ],
    );
    assert(r@.body =~= contri2_parts().body);
    assert(r@.heads =~= contri2_parts().heads);
    assert(r@.origin =~= contri2_parts().origin);
    assert(r@.distinct =~= contri2_parts().distinct);
    assert(r@.orient =~= contri2_parts().orient);
    r
}

/// Directly similar triangles have equal angles and sides in equal ratios.
///
/// From simtri1(a,b,c,d,e,f):
/// eqangle(a,b,c,d,e,f), eqangle(b,c,a,e,f,d), eqangle(c,a,b,f,d,e), eqratio(a,b,b,c,d,e,e,f), eqratio(b,c,c,a,e,f,f,d), eqratio(c,a,a,b,f,d,d,e).
/// Variables in order: a, b, c, d, e, f.
pub open spec fn simtri1_parts() -> RuleView {
    RuleView {
        tag: "simtri1_parts"@,
        body: seq![
            atom_v(Pred::Simtri1, seq![0usize, 1, 2, 3, 4, 5]),
        ],
        origin: seq![(0usize, 0usize), (0, 1), (0, 2), (0, 3), (0, 4), (0, 5)],
        distinct: seq![],
        orient: seq![],
        heads: seq![
            atom_v(Pred::Eqangle, seq![0usize, 1, 2, 3, 4, 5]),
            atom_v(Pred::Eqangle, seq![1usize, 2, 0, 4, 5, 3]),
            atom_v(Pred::Eqangle, seq![2usize, 0, 1, 5, 3, 4]),
            atom_v(Pred::Eqratio, seq![0usize, 1, 1, 2, 3, 4, 4, 5]),
            atom_v(Pred::Eqratio, seq![1usize, 2, 2, 0, 4, 5, 5, 3]),
            atom_v(Pred::Eqratio, seq![2usize, 0, 0, 1, 5, 3, 3, 4]),
        ],
    }
}

fn build_simtri1_parts() -> (r: Rule)
    ensures
        r@ == simtri1_parts(),
        r@.wf(),
{
    let r = rule(
        "simtri1_parts",
        vec![
            atom(Pred::Simtri1, vec![0, 1, 2, 3, 4, 5]),
        ],
        vec![(0, 0), (0, 1), (0, 2), (0, 3), (0, 4), (0, 5)],
        vec![],
        vec![],
        vec![
            atom(Pred::Eqangle, vec![0, 1, 2, 3, 4, 5]),
            atom(Pred::Eqangle, vec![1, 2, 0, 4, 5, 3]),
            atom(Pred::Eqangle, vec![2, 0, 1, 5, 3, 4]),
            atom(Pred::Eqratio, vec![0, 1, 1, 2, 3, 4, 4, 5]),
            atom(Pred::Eqratio, vec![1, 2, 2, 0, 4, 5, 5, 3]),
            atom(Pred::Eqratio, vec![2, 0, 0, 1, 5, 3, 3, 4]),
        ],
    );
    assert(r@.body =~= simtri1_parts().body);
    assert(r@.heads =~= simtri1_parts().heads);
    assert(r@.origin =~= simtri1_parts().origin);
    assert(r@.distinct =~= simtri1_parts().distinct);
    assert(r@.orient =~= simtri1_parts().orient);
    r
}

/// Triangles similar by reflection have equal angles of opposite sense and sides in equal ratios.
///
/// From simtri2(a,b,c,d,e,f):
/// eqangle(a,b,c,f,e,d), eqangle(b,c,a,d,f,e), eqangle(c,a,b,e,d,f), eqratio(a,b,b,c,d,e,e,f), eqratio(b,c,c,a,e,f,f,d), eqratio(c,a,a,b,f,d,d,e).
/// Variables in order: a, b, c, d, e, f.
pub open spec fn simtri2_parts() -> RuleView {
    RuleView {
        tag: "simtri2_parts"@,
        body: seq![
            atom_v(Pred::Simtri2, seq![0usize, 1, 2, 3, 4, 5]),
        ],
        origin: seq![(0usize, 0usize), (0, 1), (0, 2), (0, 3), (0, 4), (0, 5)],
        distinct: seq![],
        orient: seq![],
        heads: seq![
            atom_v(Pred::Eqangle, seq![0usize, 1, 2, 5, 4, 3]),
            atom_v(Pred::Eqangle, seq![1usize, 2, 0, 3, 5, 4]),
            atom_v(Pred::Eqangle, seq![2usize, 0, 1, 4, 3, 5]),
            atom_v(Pred::Eqratio, seq![0usize, 1, 1, 2, 3, 4, 4, 5]),
            atom_v(Pred::Eqratio, seq![1usize, 2, 2, 0, 4, 5, 5, 3]),
            atom_v(Pred::Eqratio, seq![2usize, 0, 0, 1, 5, 3, 3, 4]),
        ],
    }
}

fn build_simtri2_parts() -> (r: Rule)
    ensures
        r@ == simtri2_parts(),
        r@.wf(),
{
    let r = rule(
        "simtri2_parts",
        vec![
            atom(Pred::Simtri2, vec![0, 1, 2, 3, 4, 5]),
        ],
        vec![(0, 0), (0, 1), (0, 2), (0, 3), (0, 4), (0, 5)],
        vec![],
        vec![],
        vec![
            atom(Pred::Eqangle, vec![0, 1, 2, 5, 4, 3]),
            atom(Pred::Eqangle, vec![1, 2, 0, 3, 5, 4]),
            atom(Pred::Eqangle, vec![2, 0, 1, 4, 3, 5]),
            atom(Pred::Eqratio, vec![0, 1, 1, 2, 3, 4, 4, 5]),
            atom(Pred::Eqratio, vec![1, 2, 2, 0, 4, 5, 5, 3]),
            atom(Pred::Eqratio, vec![2, 0, 0, 1, 5, 3, 3, 4]),
        ],
    );
    assert(r@.body =~= simtri2_parts().body);
    assert(r@.heads =~= simtri2_parts().heads);
    assert(r@.origin =~= simtri2_parts().origin);
    assert(r@.distinct =~= simtri2_parts().distinct);
    assert(r@.orient =~= simtri2_parts().orient);
    r
}

/// Segments congruent to the same segment are congruent.
///
/// From cong(a,b,c,d) and cong(c,d,e,f):
/// cong(a,b,e,f).
/// Variables in order: a, b, c, d, e, f.
pub open spec fn cong_trans() -> RuleView {
    RuleView {
        tag: "cong_trans"@,
        body: seq![
            atom_v(Pred::Cong, seq![0usize, 1, 2, 3]),
            atom_v(Pred::Cong, seq![2usize, 3, 4, 5]),
        ],
        origin: seq![(0usize, 0usize), (0, 1), (0, 2), (0, 3), (1, 2), (1, 3)],
        distinct: seq![],
        orient: seq![],
        heads: seq![
            atom_v(Pred::Cong, seq![0usize, 1, 4, 5]),
        ],
    }
}

fn build_cong_trans() -> (r: Rule)
    ensures
        r@ == cong_trans(),
        r@.wf(),
{
    let r = rule(
        "cong_trans",
        vec![
            atom(Pred::Cong, vec![0, 1, 2, 3]),
            atom(Pred::Cong, vec![2, 3, 4, 5]),
        ],
        vec![(0, 0), (0, 1), (0, 2), (0, 3), (1, 2), (1, 3)],
        vec![],
        vec![],
        vec![
            atom(Pred::Cong, vec![0, 1, 4, 5]),
        ],
    );
    assert(r@.body =~= cong_trans().body);
    assert(r@.heads =~= cong_trans().heads);
    assert(r@.origin =~= cong_trans().origin);
    assert(r@.distinct =~= cong_trans().distinct);
    assert(r@.orient =~= cong_trans().orient);
    r
}

/// Lines parallel to the same line are parallel.
///
/// From para(a,b,c,d) and para(a,b,e,f):
/// para(c,d,e,f).
/// Variables in order: a, b, c, d, e, f.
pub open spec fn para_trans() -> RuleView {
    RuleView {
        tag: "para_trans"@,
        body: seq![
            atom_v(Pred::Para, seq![0usize, 1, 2, 3]),
            atom_v(Pred::Para, seq![0usize, 1, 4, 5]),
        ],
        origin: seq![(0usize, 0usize), (0, 1), (0, 2), (0, 3), (1, 2), (1, 3)],
        distinct: seq![],
        orient: seq![],
        heads: seq![
            atom_v(Pred::Para, seq![2usize, 3, 4, 5]),
        ],
    }
}

fn build_para_trans() -> (r: Rule)
    ensures
        r@ == para_trans(),
        r@.wf(),
{
    let r = rule(
        "para_trans",
        vec![
            atom(Pred::Para, vec![0, 1, 2, 3]),
            atom(Pred::Para, vec![0, 1, 4, 5]),
        ],
        vec![(0, 0), (0, 1), (0, 2), (0, 3), (1, 2), (1, 3)],
        vec![],
        vec![],
        vec![
            atom(Pred::Para, vec![2, 3, 4, 5]),
        ],
    );
    assert(r@.body =~= para_trans().body);
    assert(r@.heads =~= para_trans().heads);
    assert(r@.origin =~= para_trans().origin);
    assert(r@.distinct =~= para_trans().distinct);
    assert(r@.orient =~= para_trans().orient);
    r
}

/// A transversal meets parallel lines under equal angles.
///
/// From para(a,b,c,d), with a, b, c, d pairwise distinct:
/// eqangle(c,a,b,a,c,d).
/// Variables in order: a, b, c, d.
pub open spec fn para_angle() -> RuleView {
    RuleView {
        tag: "para_angle"@,
        body: seq![
            atom_v(Pred::Para, seq![0usize, 1, 2, 3]),
        ],
        origin: seq![(0usize, 0usize), (0, 1), (0, 2), (0, 3)],
        distinct: seq![(0usize, 1usize), (0, 2), (0, 3), (1, 2), (1, 3), (2, 3)],
        orient: seq![],
        heads: seq![
            atom_v(Pred::Eqangle, seq![2usize, 0, 1, 0, 2, 3]),
        ],
    }
}

fn build_para_angle() -> (r: Rule)
    ensures
        r@ == para_angle(),
        r@.wf(),
{
    let r = rule(
        "para_angle",
        vec![
            atom(Pred::Para, vec![0, 1, 2, 3]),
        ],
        vec![(0, 0), (0, 1), (0, 2), (0, 3)],
        vec![(0, 1), (0, 2), (0, 3), (1, 2), (1, 3), (2, 3)],
        vec![],
        vec![
            atom(Pred::Eqangle, vec![2, 0, 1, 0, 2, 3]),
        ],
    );
    assert(r@.body =~= para_angle().body);
    assert(r@.heads =~= para_angle().heads);
    assert(r@.origin =~= para_angle().origin);
    assert(r@.distinct =~= para_angle().distinct);
    assert(r@.orient =~= para_angle().orient);
    r
}

/// Alternate interior angles at a transversal of parallel lines are equal.
///
/// From para(a,b,c,d) and col(a,e,c):
/// eqangle(b,a,e,d,c,e), eqangle(e,a,b,e,c,d).
/// Variables in order: a, b, c, d, e.
pub open spec fn alt_int() -> RuleView {
    RuleView {
        tag: "alt_int"@,
        body: seq![
            atom_v(Pred::Para, seq![0usize, 1, 2, 3]),
            atom_v(Pred::Col, seq![0usize, 4, 2]),
        ],
        origin: seq![(0usize, 0usize), (0, 1), (0, 2), (0, 3), (1, 1)],
        distinct: seq![],
        orient: seq![],
        heads: seq![
            atom_v(Pred::Eqangle, seq![1usize, 0, 4, 3, 2, 4]),
            atom_v(Pred::Eqangle, seq![4usize, 0, 1, 4, 2, 3]),
        ],
    }
}

fn build_alt_int() -> (r: Rule)
    ensures
        r@ == alt_int(),
        r@.wf(),
{
    let r = rule(
        "alt_int",
        vec![
            atom(Pred::Para, vec![0, 1, 2, 3]),
            atom(Pred::Col, vec![0, 4, 2]),
        ],
        vec![(0, 0), (0, 1), (0, 2), (0, 3), (1, 1)],
        vec![],
        vec![],
        vec![
            atom(Pred::Eqangle, vec![1, 0, 4, 3, 2, 4]),
            atom(Pred::Eqangle, vec![4, 0, 1, 4, 2, 3]),
        ],
    );
    assert(r@.body =~= alt_int().body);
    assert(r@.heads =~= alt_int().heads);
    assert(r@.origin =~= alt_int().origin);
    assert(r@.distinct =~= alt_int().distinct);
    assert(r@.orient =~= alt_int().orient);
    r
}

/// Opposite sides of a parallelogram are congruent.
///
/// From para(a,b,c,d) and para(b,c,d,a):
/// cong(a,b,c,d).
/// Variables in order: a, b, c, d.
pub open spec fn pgram_cong() -> RuleView {
    RuleView {
        tag: "pgram_cong"@,
        body: seq![
            atom_v(Pred::Para, seq![0usize, 1, 2, 3]),
            atom_v(Pred::Para, seq![1usize, 2, 3, 0]),
        ],
        origin: seq![(0usize, 0usize), (0, 1), (0, 2), (0, 3)],
        distinct: seq![],
        orient: seq![],
        heads: seq![
            atom_v(Pred::Cong, seq![0usize, 1, 2, 3]),
        ],
    }
}

fn build_pgram_cong() -> (r: Rule)
    ensures
        r@ == pgram_cong(),
        r@.wf(),
{
    let r = rule(
        "pgram_cong",
        vec![
            atom(Pred::Para, vec![0, 1, 2, 3]),
            atom(Pred::Para, vec![1, 2, 3, 0]),
        ],
        vec![(0, 0), (0, 1), (0, 2), (0, 3)],
        vec![],
        vec![],
        vec![
            atom(Pred::Cong, vec![0, 1, 2, 3]),
        ],
    );
    assert(r@.body =~= pgram_cong().body);
    assert(r@.heads =~= pgram_cong().heads);
    assert(r@.origin =~= pgram_cong().origin);
    assert(r@.distinct =~= pgram_cong().distinct);
    assert(r@.orient =~= pgram_cong().orient);
    r
}

/// Two lines through a point form the same angle whichever points name them.
///
/// From col(e,a,b) and col(e,c,d), with e, a, b, c, d pairwise distinct:
/// eqangle(a,e,c,b,e,d), eqangle(a,e,d,b,e,c), eqangle(a,e,c,a,e,d), eqangle(a,e,c,b,e,c).
/// Variables in order: e, a, b, c, d.
pub open spec fn col_eqangle() -> RuleView {
    RuleView {
        tag: "col_eqangle"@,
        body: seq![
            atom_v(Pred::Col, seq![0usize, 1, 2]),
            atom_v(Pred::Col, seq![0usize, 3, 4]),
        ],
        origin: seq![(0usize, 0usize), (0, 1), (0, 2), (1, 1), (1, 2)],
        distinct: seq![(0usize, 1usize), (0, 2), (0, 3), (0, 4), (1, 2), (1, 3), (1, 4), (2, 3), (2, 4), (3, 4)],
        orient: seq![],
        heads: seq![
            atom_v(Pred::Eqangle, seq![1usize, 0, 3, 2, 0, 4]),
            atom_v(Pred::Eqangle, seq![1usize, 0, 4, 2, 0, 3]),
            atom_v(Pred::Eqangle, seq![1usize, 0, 3, 1, 0, 4]),
            atom_v(Pred::Eqangle, seq![1usize, 0, 3, 2, 0, 3]),
        ],
    }
}

fn build_col_eqangle() -> (r: Rule)
    ensures
        r@ == col_eqangle(),
        r@.wf(),
{
    let r = rule(
        "col_eqangle",
        vec![
            atom(Pred::Col, vec![0, 1, 2]),
            atom(Pred::Col, vec![0, 3, 4]),
        ],
        vec![(0, 0), (0, 1), (0, 2), (1, 1), (1, 2)],
        vec![(0, 1), (0, 2), (0, 3), (0, 4), (1, 2), (1, 3), (1, 4), (2, 3), (2, 4), (3, 4)],
        vec![],
        vec![
            atom(Pred::Eqangle, vec![1, 0, 3, 2, 0, 4]),
            atom(Pred::Eqangle, vec![1, 0, 4, 2, 0, 3]),
            atom(Pred::Eqangle, vec![1, 0, 3, 1, 0, 4]),
            atom(Pred::Eqangle, vec![1, 0, 3, 2, 0, 3]),
        ],
    );
    assert(r@.body =~= col_eqangle().body);
    assert(r@.heads =~= col_eqangle().heads);
    assert(r@.origin =~= col_eqangle().origin);
    assert(r@.distinct =~= col_eqangle().distinct);
    assert(r@.orient =~= col_eqangle().orient);
    r
}

/// Lines perpendicular to the same line are parallel.
///
/// From perp(a,b,c,d) and perp(e,f,c,d):
/// para(a,b,e,f).
/// Variables in order: a, b, c, d, e, f.
pub open spec fn pp_par() -> RuleView {
    RuleView {
        tag: "pp_par"@,
        body: seq![
            atom_v(Pred::Perp, seq![0usize, 1, 2, 3]),
            atom_v(Pred::Perp, seq![4usize, 5, 2, 3]),
        ],
        origin: seq![(0usize, 0usize), (0, 1), (0, 2), (0, 3), (1, 0), (1, 1)],
        distinct: seq![],
        orient: seq![],
        heads: seq![
            atom_v(Pred::Para, seq![0usize, 1, 4, 5]),
        ],
    }
}

fn build_pp_par() -> (r: Rule)
    ensures
        r@ == pp_par(),
        r@.wf(),
{
    let r = rule(
        "pp_par",
        vec![
            atom(Pred::Perp, vec![0, 1, 2, 3]),
            atom(Pred::Perp, vec![4, 5, 2, 3]),
        ],
        vec![(0, 0), (0, 1), (0, 2), (0, 3), (1, 0), (1, 1)],
        vec![],
        vec![],
        vec![
            atom(Pred::Para, vec![0, 1, 4, 5]),
        ],
    );
    assert(r@.body =~= pp_par().body);
    assert(r@.heads =~= pp_par().heads);
    assert(r@.origin =~= pp_par().origin);
    assert(r@.distinct =~= pp_par().distinct);
    assert(r@.orient =~= pp_par().orient);
    r
}

/// A line perpendicular to one of two parallel lines is perpendicular to the other.
///
/// From para(a,b,c,d) and perp(a,b,e,f):
/// perp(c,d,e,f).
/// Variables in order: a, b, c, d, e, f.
pub open spec fn pp_perp() -> RuleView {
    RuleView {
        tag: "pp_perp"@,
        body: seq![
            atom_v(Pred::Para, seq![0usize, 1, 2, 3]),
            atom_v(Pred::Perp, seq![0usize, 1, 4, 5]),
        ],
        origin: seq![(0usize, 0usize), (0, 1), (0, 2), (0, 3), (1, 2), (1, 3)],
        distinct: seq![],
        orient: seq![],
        heads: seq![
            atom_v(Pred::Perp, seq![2usize, 3, 4, 5]),
        ],
    }
}

fn build_pp_perp() -> (r: Rule)
    ensures
        r@ == pp_perp(),
        r@.wf(),
{
    let r = rule(
        "pp_perp",
        vec![
            atom(Pred::Para, vec![0, 1, 2, 3]),
            atom(Pred::Perp, vec![0, 1, 4, 5]),
        ],
        vec![(0, 0), (0, 1), (0, 2), (0, 3), (1, 2), (1, 3)],
        vec![],
        vec![],
        vec![
            atom(Pred::Perp, vec![2, 3, 4, 5]),
        ],
    );
    assert(r@.body =~= pp_perp().body);
    assert(r@.heads =~= pp_perp().heads);
    assert(r@.origin =~= pp_perp().origin);
    assert(r@.distinct =~= pp_perp().distinct);
    assert(r@.orient =~= pp_perp().orient);
    r
}

/// Vertical angles are equal.
///
/// From col(a,b,c) and col(d,b,e):
/// eqangle(a,b,d,c,b,e).
/// Variables in order: a, b, c, d, e.
pub open spec fn vert() -> RuleView {
    RuleView {
        tag: "vert"@,
        body: seq![
            atom_v(Pred::Col, seq![0usize, 1, 2]),
            atom_v(Pred::Col, seq![3usize, 1, 4]),
        ],
        origin: seq![(0usize, 0usize), (0, 1), (0, 2), (1, 0), (1, 2)],
        distinct: seq![],
        orient: seq![],
        heads: seq![
            atom_v(Pred::Eqangle, seq![0usize, 1, 3, 2, 1, 4]),
        ],
    }
}

fn build_vert() -> (r: Rule)
    ensures
        r@ == vert(),
        r@.wf(),
{
    let r = rule(
        "vert",
        vec![
            atom(Pred::Col, vec![0, 1, 2]),
            atom(Pred::Col, vec![3, 1, 4]),
        ],
        vec![(0, 0), (0, 1), (0, 2), (1, 0), (1, 2)],
        vec![],
        vec![],
        vec![
            atom(Pred::Eqangle, vec![0, 1, 3, 2, 1, 4]),
        ],
    );
    assert(r@.body =~= vert().body);
    assert(r@.heads =~= vert().heads);
    assert(r@.origin =~= vert().origin);
    assert(r@.distinct =~= vert().distinct);
    assert(r@.orient =~= vert().orient);
    r
}

/// Right angles are equal.
///
/// From perp(a,b,b,c) and perp(a,e,e,b), with a, b, c, e pairwise distinct:
/// eqangle(c,b,a,b,e,a).
/// Variables in order: a, b, c, e.
pub open spec fn right_angle_eq() -> RuleView {
    RuleView {
        tag: "right_angle_eq"@,
        body: seq![
            atom_v(Pred::Perp, seq![0usize, 1, 1, 2]),
            atom_v(Pred::Perp, seq![0usize, 3, 3, 1]),
        ],
        origin: seq![(0usize, 0usize), (0, 1), (0, 3), (1, 1)],
        distinct: seq![(0usize, 1usize), (0, 2), (0, 3), (1, 2), (1, 3), (2, 3)],
        orient: seq![],
        heads: seq![
            atom_v(Pred::Eqangle, seq![2usize, 1, 0, 1, 3, 0]),
        ],
    }
}

fn build_right_angle_eq() -> (r: Rule)
    ensures
        r@ == right_angle_eq(),
        r@.wf(),
{
    let r = rule(
        "right_angle_eq",
        vec![
            atom(Pred::Perp, vec![0, 1, 1, 2]),
            atom(Pred::Perp, vec![0, 3, 3, 1]),
        ],
        vec![(0, 0), (0, 1), (0, 3), (1, 1)],
        vec![(0, 1), (0, 2), (0, 3), (1, 2), (1, 3), (2, 3)],
        vec![],
        vec![
            atom(Pred::Eqangle, vec![2, 1, 0, 1, 3, 0]),
        ],
    );
    assert(r@.body =~= right_angle_eq().body);
    assert(r@.heads =~= right_angle_eq().heads);
    assert(r@.origin =~= right_angle_eq().origin);
    assert(r@.distinct =~= right_angle_eq().distinct);
    assert(r@.orient =~= right_angle_eq().orient);
    r
}

/// Two equal angles make triangles of the same orientation directly similar.
///
/// From eqangle(b,a,c,e,d,f) and eqangle(b,c,a,e,f,d), with abc and def of the same orientation:
/// simtri1(a,b,c,d,e,f).
/// Variables in order: b, a, c, e, d, f.
pub open spec fn aa_sim_direct() -> RuleView {
    RuleView {
        tag: "aa_sim"@,
        body: seq![
            atom_v(Pred::Eqangle, seq![0usize, 1, 2, 3, 4, 5]),
            atom_v(Pred::Eqangle, seq![0usize, 2, 1, 3, 5, 4]),
        ],
        origin: seq![(0usize, 0usize), (0, 1), (0, 2), (0, 3), (0, 4), (0, 5)],
        distinct: seq![],
        orient: seq![1usize, 0, 2, 4, 3, 5],
        heads: seq![
            atom_v(Pred::Simtri1, seq![1usize, 0, 2, 4, 3, 5]),
        ],
    }
}

fn build_aa_sim_direct() -> (r: Rule)
    ensures
        r@ == aa_sim_direct(),
        r@.wf(),
{
    let r = rule(
        "aa_sim",
        vec![
            atom(Pred::Eqangle, vec![0, 1, 2, 3, 4, 5]),
            atom(Pred::Eqangle, vec![0, 2, 1, 3, 5, 4]),
        ],
        vec![(0, 0), (0, 1), (0, 2), (0, 3), (0, 4), (0, 5)],
        vec![],
        vec![1, 0, 2, 4, 3, 5],
        vec![
            atom(Pred::Simtri1, vec![1, 0, 2, 4, 3, 5]),
        ],
    );
    assert(r@.body =~= aa_sim_direct().body);
    assert(r@.heads =~= aa_sim_direct().heads);
    assert(r@.origin =~= aa_sim_direct().origin);
    assert(r@.distinct =~= aa_sim_direct().distinct);
    assert(r@.orient =~= aa_sim_direct().orient);
    r
}

/// Two equal angles of opposite sense make triangles of opposite orientation similar by reflection.
///
/// From eqangle(b,a,c,f,d,e) and eqangle(b,c,a,d,f,e), with abc and fed of the same orientation:
/// simtri2(a,b,c,d,e,f).
/// Variables in order: b, a, c, f, d, e.
pub open spec fn aa_sim_reflected() -> RuleView {
    RuleView {
        tag: "aa_sim"@,
        body: seq![
            atom_v(Pred::Eqangle, seq![0usize, 1, 2, 3, 4, 5]),
            atom_v(Pred::Eqangle, seq![0usize, 2, 1, 4, 3, 5]),
        ],
        origin: seq![(0usize, 0usize), (0, 1), (0, 2), (0, 3), (0, 4), (0, 5)],
        distinct: seq![],
        orient: seq![1usize, 0, 2, 3, 5, 4],
        heads: seq![
            atom_v(Pred::Simtri2, seq![1usize, 0, 2, 4, 5, 3]),
        ],
    }
}

fn build_aa_sim_reflected() -> (r: Rule)
    ensures
        r@ == aa_sim_reflected(),
        r@.wf(),
{
    let r = rule(
        "aa_sim",
        vec![
            atom(Pred::Eqangle, vec![0, 1, 2, 3, 4, 5]),
            atom(Pred::Eqangle, vec![0, 2, 1, 4, 3, 5]),
        ],
        vec![(0, 0), (0, 1), (0, 2), (0, 3), (0, 4), (0, 5)],
        vec![],
        vec![1, 0, 2, 3, 5, 4],
        vec![
            atom(Pred::Simtri2, vec![1, 0, 2, 4, 5, 3]),
        ],
    );
    assert(r@.body =~= aa_sim_reflected().body);
    assert(r@.heads =~= aa_sim_reflected().heads);
    assert(r@.origin =~= aa_sim_reflected().origin);
    assert(r@.distinct =~= aa_sim_reflected().distinct);
    assert(r@.orient =~= aa_sim_reflected().orient);
    r
}

/// Two equal angles and the side between them: congruent, directly.
///
/// From eqangle(b,a,c,e,d,f) and eqangle(c,b,a,f,e,d) and cong(a,b,d,e), with abc and def of the same orientation:
/// contri1(a,b,c,d,e,f).
/// Variables in order: b, a, c, e, d, f.
pub open spec fn asa_cong_direct() -> RuleView {
    RuleView {
        tag: "asa_cong"@,
        body: seq![
            atom_v(Pred::Eqangle, seq![0usize, 1, 2, 3, 4, 5]),
            atom_v(Pred::Eqangle, seq![2usize, 0, 1, 5, 3, 4]),
            atom_v(Pred::Cong, seq![1usize, 0, 4, 3]),
        ],
        origin: seq![(0usize, 0usize), (0, 1), (0, 2), (0, 3), (0, 4), (0, 5)],
        distinct: seq![],
        orient: seq![1usize, 0, 2, 4, 3, 5],
        heads: seq![
            atom_v(Pred::Contri1, seq![1usize, 0, 2, 4, 3, 5]),
        ],
    }
}

fn build_asa_cong_direct() -> (r: Rule)
    ensures
        r@ == asa_cong_direct(),
        r@.wf(),
{
    let r = rule(
        "asa_cong",
        vec![
            atom(Pred::Eqangle, vec![0, 1, 2, 3, 4, 5]),
            atom(Pred::Eqangle, vec![2, 0, 1, 5, 3, 4]),
            atom(Pred::Cong, vec![1, 0, 4, 3]),
        ],
        vec![(0, 0), (0, 1), (0, 2), (0, 3), (0, 4), (0, 5)],
        vec![],
        vec![1, 0, 2, 4, 3, 5],
        vec![
            atom(Pred::Contri1, vec![1, 0, 2, 4, 3, 5]),
        ],
    );
    assert(r@.body =~= asa_cong_direct().body);
    assert(r@.heads =~= asa_cong_direct().heads);
    assert(r@.origin =~= asa_cong_direct().origin);
    assert(r@.distinct =~= asa_cong_direct().distinct);
    assert(r@.orient =~= asa_cong_direct().orient);
    r
}

/// Two equal angles of opposite sense and the side between them: congruent, by reflection.
///
/// From eqangle(b,a,c,f,d,e) and eqangle(c,b,a,d,e,f) and cong(a,b,d,e), with abc and fed of the same orientation:
/// contri2(a,b,c,d,e,f).
/// Variables in order: b, a, c, f, d, e.
pub open spec fn asa_cong_reflected() -> RuleView {
    RuleView {
        tag: "asa_cong"@,
        body: seq![
            atom_v(Pred::Eqangle, seq![0usize, 1, 2, 3, 4, 5]),
            atom_v(Pred::Eqangle, seq![2usize, 0, 1, 4, 5, 3]),
            atom_v(Pred::Cong, seq![1usize, 0, 4, 5]),
        ],
        origin: seq![(0usize, 0usize), (0, 1), (0, 2), (0, 3), (0, 4), (0, 5)],
        distinct: seq![],
        orient: seq![1usize, 0, 2, 3, 5, 4],
        heads: seq![
            atom_v(Pred::Contri2, seq![1usize, 0, 2, 4, 5, 3]),
        ],
    }
}

fn build_asa_cong_reflected() -> (r: Rule)
    ensures
        r@ == asa_cong_reflected(),
        r@.wf(),
{
    let r = rule(
        "asa_cong",
        vec![
            atom(Pred::Eqangle, vec![0, 1, 2, 3, 4, 5]),
            atom(Pred::Eqangle, vec![2, 0, 1, 4, 5, 3]),
            atom(Pred::Cong, vec![1, 0, 4, 5]),
        ],
        vec![(0, 0), (0, 1), (0, 2), (0, 3), (0, 4), (0, 5)],
        vec![],
        vec![1, 0, 2, 3, 5, 4],
        vec![
            atom(Pred::Contri2, vec![1, 0, 2, 4, 5, 3]),
        ],
    );
    assert(r@.body =~= asa_cong_reflected().body);
    assert(r@.heads =~= asa_cong_reflected().heads);
    assert(r@.origin =~= asa_cong_reflected().origin);
    assert(r@.distinct =~= asa_cong_reflected().distinct);
    assert(r@.orient =~= asa_cong_reflected().orient);
    r
}

/// Two equal sides and the angle between them: congruent, directly.
///
/// From eqangle(b,a,c,e,d,f) and cong(a,c,d,f) and cong(a,b,d,e), with abc and def of the same orientation:
/// contri1(a,b,c,d,e,f).
/// Variables in order: b, a, c, e, d, f.
pub open spec fn sas_cong_direct() -> RuleView {
    RuleView {
        tag: "sas_cong"@,
        body: seq![
            atom_v(Pred::Eqangle, seq![0usize, 1, 2, 3, 4, 5]),
            atom_v(Pred::Cong, seq![1usize, 2, 4, 5]),
            atom_v(Pred::Cong, seq![1usize, 0, 4, 3]),
        ],
        origin: seq![(0usize, 0usize), (0, 1), (0, 2), (0, 3), (0, 4), (0, 5)],
        distinct: seq![],
        orient: seq![1usize, 0, 2, 4, 3, 5],
        heads: seq![
            atom_v(Pred::Contri1, seq![1usize, 0, 2, 4, 3, 5]),
        ],
    }
}

fn build_sas_cong_direct() -> (r: Rule)
    ensures
        r@ == sas_cong_direct(),
        r@.wf(),
{
    let r = rule(
        "sas_cong",
        vec![
            atom(Pred::Eqangle, vec![0, 1, 2, 3, 4, 5]),
            atom(Pred::Cong, vec![1, 2, 4, 5]),
            atom(Pred::Cong, vec![1, 0, 4, 3]),
        ],
        vec![(0, 0), (0, 1), (0, 2), (0, 3), (0, 4), (0, 5)],
        vec![],
        vec![1, 0, 2, 4, 3, 5],
        vec![
            atom(Pred::Contri1, vec![1, 0, 2, 4, 3, 5]),
        ],
    );
    assert(r@.body =~= sas_cong_direct().body);
    assert(r@.heads =~= sas_cong_direct().heads);
    assert(r@.origin =~= sas_cong_direct().origin);
    assert(r@.distinct =~= sas_cong_direct().distinct);
    assert(r@.orient =~= sas_cong_direct().orient);
    r
}

/// Two equal sides and the angle between them, of opposite sense: congruent, by reflection.
///
/// From eqangle(b,a,c,f,d,e) and cong(a,c,d,f) and cong(a,b,d,e), with abc and fed of the same orientation:
/// contri2(a,b,c,d,e,f).
/// Variables in order: b, a, c, f, d, e.
pub open spec fn sas_cong_reflected() -> RuleView {
    RuleView {
        tag: "sas_cong"@,
        body: seq![
            atom_v(Pred::Eqangle, seq![0usize, 1, 2, 3, 4, 5]),
            atom_v(Pred::Cong, seq![1usize, 2, 4, 3]),
            atom_v(Pred::Cong, seq![1usize, 0, 4, 5]),
        ],
        origin: seq![(0usize, 0usize), (0, 1), (0, 2), (0, 3), (0, 4), (0, 5)],
        distinct: seq![],
        orient: seq![1usize, 0, 2, 3, 5, 4],
        heads: seq![
            atom_v(Pred::Contri2, seq![1usize, 0, 2, 4, 5, 3]),
        ],
    }
}

fn build_sas_cong_reflected() -> (r: Rule)
    ensures
        r@ == sas_cong_reflected(),
        r@.wf(),
{
    let r = rule(
        "sas_cong",
        vec![
            atom(Pred::Eqangle, vec![0, 1, 2, 3, 4, 5]),
            atom(Pred::Cong, vec![1, 2, 4, 3]),
            atom(Pred::Cong, vec![1, 0, 4, 5]),
        ],
        vec![(0, 0), (0, 1), (0, 2), (0, 3), (0, 4), (0, 5)],
        vec![],
        vec![1, 0, 2, 3, 5, 4],
        vec![
            atom(Pred::Contri2, vec![1, 0, 2, 4, 5, 3]),
        ],
    );
    assert(r@.body =~= sas_cong_reflected().body);
    assert(r@.heads =~= sas_cong_reflected().heads);
    assert(r@.origin =~= sas_cong_reflected().origin);
    assert(r@.distinct =~= sas_cong_reflected().distinct);
    assert(r@.orient =~= sas_cong_reflected().orient);
    r
}

/// Three equal sides, same orientation: congruent, directly.
///
/// From cong(a,c,d,f) and cong(a,b,d,e) and cong(c,b,f,e), with abc and def of the same orientation:
/// contri1(a,b,c,d,e,f).
/// Variables in order: a, c, d, f, b, e.
pub open spec fn sss_cong_direct() -> RuleView {
    RuleView {
        tag: "sss_cong"@,
        body: seq![
            atom_v(Pred::Cong, seq![0usize, 1, 2, 3]),
            atom_v(Pred::Cong, seq![0usize, 4, 2, 5]),
            atom_v(Pred::Cong, seq![1usize, 4, 3, 5]),
        ],
        origin: seq![(0usize, 0usize), (0, 1), (0, 2), (0, 3), (1, 1), (1, 3)],
        distinct: seq![],
        orient: seq![0usize, 4, 1, 2, 5, 3],
        heads: seq![
            atom_v(Pred::Contri1, seq![0usize, 4, 1, 2, 5, 3]),
        ],
    }
}

fn build_sss_cong_direct() -> (r: Rule)
    ensures
        r@ == sss_cong_direct(),
        r@.wf(),
{
    let r = rule(
        "sss_cong",
        vec![
            atom(Pred::Cong, vec![0, 1, 2, 3]),
            atom(Pred::Cong, vec![0, 4, 2, 5]),
            atom(Pred::Cong, vec![1, 4, 3, 5]),
        ],
        vec![(0, 0), (0, 1), (0, 2), (0, 3), (1, 1), (1, 3)],
        vec![],
        vec![0, 4, 1, 2, 5, 3],
        vec![
            atom(Pred::Contri1, vec![0, 4, 1, 2, 5, 3]),
        ],
    );
    assert(r@.body =~= sss_cong_direct().body);
    assert(r@.heads =~= sss_cong_direct().heads);
    assert(r@.origin =~= sss_cong_direct().origin);
    assert(r@.distinct =~= sss_cong_direct().distinct);
    assert(r@.orient =~= sss_cong_direct().orient);
    r
}

/// Three equal sides, opposite orientation: congruent, by reflection.
///
/// From cong(a,c,d,f) and cong(a,b,d,e) and cong(c,b,f,e), with abc and fed of the same orientation:
/// contri2(a,b,c,d,e,f).
/// Variables in order: a, c, d, f, b, e.
pub open spec fn sss_cong_reflected() -> RuleView {
    RuleView {
        tag: "sss_cong"@,
        body: seq![
            atom_v(Pred::Cong, seq![0usize, 1, 2, 3]),
            atom_v(Pred::Cong, seq![0usize, 4, 2, 5]),
            atom_v(Pred::Cong, seq![1usize, 4, 3, 5]),
        ],
        origin: seq![(0usize, 0usize), (0, 1), (0, 2), (0, 3), (1, 1), (1, 3)],
        distinct: seq![],
        orient: seq![0usize, 4, 1, 3, 5, 2],
        heads: seq![
            atom_v(Pred::Contri2, seq![0usize, 4, 1, 2, 5, 3]),
        ],
    }
}

fn build_sss_cong_reflected() -> (r: Rule)
    ensures
        r@ == sss_cong_reflected(),
        r@.wf(),
{
    let r = rule(
        "sss_cong",
        vec![
            atom(Pred::Cong, vec![0, 1, 2, 3]),
            atom(Pred::Cong, vec![0, 4, 2, 5]),
            atom(Pred::Cong, vec![1, 4, 3, 5]),
        ],
        vec![(0, 0), (0, 1), (0, 2), (0, 3), (1, 1), (1, 3)],
        vec![],
        vec![0, 4, 1, 3, 5, 2],
        vec![
            atom(Pred::Contri2, vec![0, 4, 1, 2, 5, 3]),
        ],
    );
    assert(r@.body =~= sss_cong_reflected().body);
    assert(r@.heads =~= sss_cong_reflected().heads);
    assert(r@.origin =~= sss_cong_reflected().origin);
    assert(r@.distinct =~= sss_cong_reflected().distinct);
    assert(r@.orient =~= sss_cong_reflected().orient);
    r
}

/// Right triangles with an equal leg and an equal hypotenuse: congruent, directly.
///
/// From perp(a,b,a,c) and perp(d,e,d,f) and cong(a,b,d,e) and cong(b,c,e,f), with abc and def of the same orientation:
/// contri1(a,b,c,d,e,f).
/// Variables in order: a, b, c, d, e, f.
pub open spec fn ssa_right_cong_direct() -> RuleView {
    RuleView {
        tag: "ssa_right_cong"@,
        body: seq![
            atom_v(Pred::Perp, seq![0usize, 1, 0, 2]),
            atom_v(Pred::Perp, seq![3usize, 4, 3, 5]),
            atom_v(Pred::Cong, seq![0usize, 1, 3, 4]),
            atom_v(Pred::Cong, seq![1usize, 2, 4, 5]),
        ],
        origin: seq![(0usize, 0usize), (0, 1), (0, 3), (1, 0), (1, 1), (1, 3)],
        distinct: seq![],
        orient: seq![0usize, 1, 2, 3, 4, 5],
        heads: seq![
            atom_v(Pred::Contri1, seq![0usize, 1, 2, 3, 4, 5]),
        ],
    }
}

fn build_ssa_right_cong_direct() -> (r: Rule)
    ensures
        r@ == ssa_right_cong_direct(),
        r@.wf(),
{
    let r = rule(
        "ssa_right_cong",
        vec![
            atom(Pred::Perp, vec![0, 1, 0, 2]),
            atom(Pred::Perp, vec![3, 4, 3, 5]),
            atom(Pred::Cong, vec![0, 1, 3, 4]),
            atom(Pred::Cong, vec![1, 2, 4, 5]),
        ],
        vec![(0, 0), (0, 1), (0, 3), (1, 0), (1, 1), (1, 3)],
        vec![],
        vec![0, 1, 2, 3, 4, 5],
        vec![
            atom(Pred::Contri1, vec![0, 1, 2, 3, 4, 5]),
        ],
    );
    assert(r@.body =~= ssa_right_cong_direct().body);
    assert(r@.heads =~= ssa_right_cong_direct().heads);
    assert(r@.origin =~= ssa_right_cong_direct().origin);
    assert(r@.distinct =~= ssa_right_cong_direct().distinct);
    assert(r@.orient =~= ssa_right_cong_direct().orient);
    r
}

/// Right triangles with an equal leg and an equal hypotenuse, of opposite orientation: congruent, by reflection.
///
/// From perp(a,b,a,c) and perp(d,e,d,f) and cong(a,b,d,e) and cong(b,c,e,f), with abc and fed of the same orientation:
/// contri2(a,b,c,d,e,f).
/// Variables in order: a, b, c, d, e, f.
pub open spec fn ssa_right_cong_reflected() -> RuleView {
    RuleView {
        tag: "ssa_right_cong"@,
        body: seq![
            atom_v(Pred::Perp, seq![0usize, 1, 0, 2]),
            atom_v(Pred::Perp, seq![3usize, 4, 3, 5]),
            atom_v(Pred::Cong, seq![0usize, 1, 3, 4]),
            atom_v(Pred::Cong, seq![1usize, 2, 4, 5]),
        ],
        origin: seq![(0usize, 0usize), (0, 1), (0, 3), (1, 0), (1, 1), (1, 3)],
        distinct: seq![],
        orient: seq![0usize, 1, 2, 5, 4, 3],
        heads: seq![
            atom_v(Pred::Contri2, seq![0usize, 1, 2, 3, 4, 5]),
        ],
    }
}

fn build_ssa_right_cong_reflected() -> (r: Rule)
    ensures
        r@ == ssa_right_cong_reflected(),
        r@.wf(),
{
    let r = rule(
        "ssa_right_cong",
        vec![
            atom(Pred::Perp, vec![0, 1, 0, 2]),
            atom(Pred::Perp, vec![3, 4, 3, 5]),
            atom(Pred::Cong, vec![0, 1, 3, 4]),
            atom(Pred::Cong, vec![1, 2, 4, 5]),
        ],
        vec![(0, 0), (0, 1), (0, 3), (1, 0), (1, 1), (1, 3)],
        vec![],
        vec![0, 1, 2, 5, 4, 3],
        vec![
            atom(Pred::Contri2, vec![0, 1, 2, 3, 4, 5]),
        ],
    );
    assert(r@.body =~= ssa_right_cong_reflected().body);
    assert(r@.heads =~= ssa_right_cong_reflected().heads);
    assert(r@.origin =~= ssa_right_cong_reflected().origin);
    assert(r@.distinct =~= ssa_right_cong_reflected().distinct);
    assert(r@.orient =~= ssa_right_cong_reflected().orient);
    r
}

/// The angle between a chord and the tangent equals the inscribed angle over the chord.
///
/// From cong(o,a,o,b) and cong(o,c,o,b) and cong(o,c,o,a) and perp(o,b,b,d) and eqangle(a,o,c,c,o,b), with a, b, c, d pairwise distinct:
/// eqangle(a,b,c,c,b,d).
/// Variables in order: o, a, b, c, d.
pub open spec fn inscribed_angle() -> RuleView {
    RuleView {
        tag: "inscribed_angle_thm"@,
        body: seq![
            atom_v(Pred::Cong, seq![0usize, 1, 0, 2]),
            atom_v(Pred::Cong, seq![0usize, 3, 0, 2]),
            atom_v(Pred::Cong, seq![0usize, 3, 0, 1]),
            atom_v(Pred::Perp, seq![0usize, 2, 2, 4]),
            atom_v(Pred::Eqangle, seq![1usize, 0, 3, 3, 0, 2]),
        ],
        origin: seq![(0usize, 0usize), (0, 1), (0, 3), (1, 1), (3, 3)],
        distinct: seq![(1usize, 2usize), (1, 3), (1, 4), (2, 3), (2, 4), (3, 4)],
        orient: seq![],
        heads: seq![
            atom_v(Pred::Eqangle, seq![1usize, 2, 3, 3, 2, 4]),
        ],
    }
}

fn build_inscribed_angle() -> (r: Rule)
    ensures
        r@ == inscribed_angle(),
        r@.wf(),
{
    let r = rule(
        "inscribed_angle_thm",
        vec![
            atom(Pred::Cong, vec![0, 1, 0, 2]),
            atom(Pred::Cong, vec![0, 3, 0, 2]),
            atom(Pred::Cong, vec![0, 3, 0, 1]),
            atom(Pred::Perp, vec![0, 2, 2, 4]),
            atom(Pred::Eqangle, vec![1, 0, 3, 3, 0, 2]),
        ],
        vec![(0, 0), (0, 1), (0, 3), (1, 1), (3, 3)],
        vec![(1, 2), (1, 3), (1, 4), (2, 3), (2, 4), (3, 4)],
        vec![],
        vec![
            atom(Pred::Eqangle, vec![1, 2, 3, 3, 2, 4]),
        ],
    );
    assert(r@.body =~= inscribed_angle().body);
    assert(r@.heads =~= inscribed_angle().heads);
    assert(r@.origin =~= inscribed_angle().origin);
    assert(r@.distinct =~= inscribed_angle().distinct);
    assert(r@.orient =~= inscribed_angle().orient);
    r
}

/// An angle inscribed in a half circle is a right angle.
///
/// From cyclic(b,r,y,d) and cong(b,o,r,o) and cong(r,o,d,o) and col(b,o,d), with b, r, y, d pairwise distinct:
/// perp(b,r,r,d).
/// Variables in order: b, r, y, d, o.
pub open spec fn thales() -> RuleView {
    RuleView {
        tag: "thales_thm"@,
        body: seq![
            atom_v(Pred::Cyclic, seq![0usize, 1, 2, 3]),
            atom_v(Pred::Cong, seq![0usize, 4, 1, 4]),
            atom_v(Pred::Cong, seq![1usize, 4, 3, 4]),
            atom_v(Pred::Col, seq![0usize, 4, 3]),
        ],
        origin: seq![(0usize, 0usize), (0, 1), (0, 2), (0, 3), (1, 1)],
        distinct: seq![(0usize, 1usize), (0, 2), (0, 3), (1, 2), (1, 3), (2, 3)],
        orient: seq![],
        heads: seq![
            atom_v(Pred::Perp, seq![0usize, 1, 1, 3]),
        ],
    }
}

fn build_thales() -> (r: Rule)
    ensures
        r@ == thales(),
        r@.wf(),
{
    let r = rule(
        "thales_thm",
        vec![
            atom(Pred::Cyclic, vec![0, 1, 2, 3]),
            atom(Pred::Cong, vec![0, 4, 1, 4]),
            atom(Pred::Cong, vec![1, 4, 3, 4]),
            atom(Pred::Col, vec![0, 4, 3]),
        ],
        vec![(0, 0), (0, 1), (0, 2), (0, 3), (1, 1)],
        vec![(0, 1), (0, 2), (0, 3), (1, 2), (1, 3), (2, 3)],
        vec![],
        vec![
            atom(Pred::Perp, vec![0, 1, 1, 3]),
        ],
    );
    assert(r@.body =~= thales().body);
    assert(r@.heads =~= thales().heads);
    assert(r@.origin =~= thales().origin);
    assert(r@.distinct =~= thales().distinct);
    assert(r@.orient =~= thales().orient);
    r
}

/// Number of rules.
pub const RULE_COUNT: usize = 37;

/// All rules, in the order in which they are fired.
pub open spec fn rule_base_spec() -> Seq<RuleView> {
    seq![
        sym_col(),
        sym_para(),
        sym_perp(),
        sym_cong(),
        sym_eqangle(),
        sym_cyclic(),
        sym_sameclock(),
        sym_eqratio(),
        col_para(),
        cyclic_eqangle(),
        midp_proj(),
        contri1_parts(),
        contri2_parts(),
        simtri1_parts(),
        simtri2_parts(),
        cong_trans(),
        para_trans(),
        para_angle(),
        alt_int(),
        pgram_cong(),
        col_eqangle(),
        pp_par(),
        pp_perp(),
        vert(),
        right_angle_eq(),
        aa_sim_direct(),
        aa_sim_reflected(),
        asa_cong_direct(),
        asa_cong_reflected(),
        sas_cong_direct(),
        sas_cong_reflected(),
        sss_cong_direct(),
        sss_cong_reflected(),
        ssa_right_cong_direct(),
        ssa_right_cong_reflected(),
        inscribed_angle(),
        thales(),
    ]
}

/// Builds the rule base.
pub fn rule_base() -> (rules: Vec<Rule>)
    ensures
        rule_views(rules@) == rule_base_spec(),
        forall|i: int| 0 <= i < rules.len() ==> (#[trigger] rules[i])@.wf(),
{
    let mut rules: Vec<Rule> = Vec::new();
    rules.push(build_sym_col());
    rules.push(build_sym_para());
    rules.push(build_sym_perp());
    rules.push(build_sym_cong());
    rules.push(build_sym_eqangle());
    rules.push(build_sym_cyclic());
    rules.push(build_sym_sameclock());
    rules.push(build_sym_eqratio());
    rules.push(build_col_para());
    rules.push(build_cyclic_eqangle());
    rules.push(build_midp_proj());
    rules.push(build_contri1_parts());
    rules.push(build_contri2_parts());
    rules.push(build_simtri1_parts());
    rules.push(build_simtri2_parts());
    rules.push(build_cong_trans());
    rules.push(build_para_trans());
    rules.push(build_para_angle());
    rules.push(build_alt_int());
    rules.push(build_pgram_cong());
    rules.push(build_col_eqangle());
    rules.push(build_pp_par());
    rules.push(build_pp_perp());
    rules.push(build_vert());
    rules.push(build_right_angle_eq());
    rules.push(build_aa_sim_direct());
    rules.push(build_aa_sim_reflected());
    rules.push(build_asa_cong_direct());
    rules.push(build_asa_cong_reflected());
    rules.push(build_sas_cong_direct());
    rules.push(build_sas_cong_reflected());
    rules.push(build_sss_cong_direct());
    rules.push(build_sss_cong_reflected());
    rules.push(build_ssa_right_cong_direct());
    rules.push(build_ssa_right_cong_reflected());
    rules.push(build_inscribed_angle());
    rules.push(build_thales());
    assert(rule_views(rules@) =~= rule_base_spec());
    rules
}

/// Every rule of the base is well formed.
pub proof fn lemma_rule_base_wf()
    ensures
        rule_base_spec().len() == RULE_COUNT,
        forall|i: int| 0 <= i < RULE_COUNT ==> (#[trigger] rule_base_spec()[i]).wf(),
{
    assert(rule_base_spec()[0] == sym_col());
    assert(sym_col().wf());
    assert(rule_base_spec()[1] == sym_para());
    assert(sym_para().wf());
    assert(rule_base_spec()[2] == sym_perp());
    assert(sym_perp().wf());
    assert(rule_base_spec()[3] == sym_cong());
    assert(sym_cong().wf());
    assert(rule_base_spec()[4] == sym_eqangle());
    assert(sym_eqangle().wf());
    assert(rule_base_spec()[5] == sym_cyclic());
    assert(sym_cyclic().wf());
    assert(rule_base_spec()[6] == sym_sameclock());
    assert(sym_sameclock().wf());
    assert(rule_base_spec()[7] == sym_eqratio());
    assert(sym_eqratio().wf());
    assert(rule_base_spec()[8] == col_para());
    assert(col_para().wf());
    assert(rule_base_spec()[9] == cyclic_eqangle());
    assert(cyclic_eqangle().wf());
    assert(rule_base_spec()[10] == midp_proj());
    assert(midp_proj().wf());
    assert(rule_base_spec()[11] == contri1_parts());
    assert(contri1_parts().wf());
    assert(rule_base_spec()[12] == contri2_parts());
    assert(contri2_parts().wf());
    assert(rule_base_spec()[13] == simtri1_parts());
    assert(simtri1_parts().wf());
    assert(rule_base_spec()[14] == simtri2_parts());
    assert(simtri2_parts().wf());
    assert(rule_base_spec()[15] == cong_trans());
    assert(cong_trans().wf());
    assert(rule_base_spec()[16] == para_trans());
    assert(para_trans().wf());
    assert(rule_base_spec()[17] == para_angle());
    assert(para_angle().wf());
    assert(rule_base_spec()[18] == alt_int());
    assert(alt_int().wf());
    assert(rule_base_spec()[19] == pgram_cong());
    assert(pgram_cong().wf());
    assert(rule_base_spec()[20] == col_eqangle());
    assert(col_eqangle().wf());
    assert(rule_base_spec()[21] == pp_par());
    assert(pp_par().wf());
    assert(rule_base_spec()[22] == pp_perp());
    assert(pp_perp().wf());
    assert(rule_base_spec()[23] == vert());
    assert(vert().wf());
    assert(rule_base_spec()[24] == right_angle_eq());
    assert(right_angle_eq().wf());
    assert(rule_base_spec()[25] == aa_sim_direct());
    assert(aa_sim_direct().wf());
    assert(rule_base_spec()[26] == aa_sim_reflected());
    assert(aa_sim_reflected().wf());
    assert(rule_base_spec()[27] == asa_cong_direct());
    assert(asa_cong_direct().wf());
    assert(rule_base_spec()[28] == asa_cong_reflected());
    assert(asa_cong_reflected().wf());
    assert(rule_base_spec()[29] == sas_cong_direct());
    assert(sas_cong_direct().wf());
    assert(rule_base_spec()[30] == sas_cong_reflected());
    assert(sas_cong_reflected().wf());
    assert(rule_base_spec()[31] == sss_cong_direct());
    assert(sss_cong_direct().wf());
    assert(rule_base_spec()[32] == sss_cong_reflected());
    assert(sss_cong_reflected().wf());
    assert(rule_base_spec()[33] == ssa_right_cong_direct());
    assert(ssa_right_cong_direct().wf());
    assert(rule_base_spec()[34] == ssa_right_cong_reflected());
    assert(ssa_right_cong_reflected().wf());
    assert(rule_base_spec()[35] == inscribed_angle());
    assert(inscribed_angle().wf());
    assert(rule_base_spec()[36] == thales());
    assert(thales().wf());
}

} // verus!
