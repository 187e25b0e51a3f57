//! From names to symbols: the points of a database as a table of names, and
//! over the symbols those of its axioms whose arguments all name points.

use vstd::prelude::*;
use vstd::string::*;
use crate::context::{Context, Ground, ground_set, grounds_ok};
use crate::database::DeductiveDatabase;
use crate::fact::{Fact, FactView};
use crate::order::views;
use crate::orientation::Coord;
use crate::rule_base::{rule_base, rule_base_spec};
use crate::store::tuple_ok;

verus! {

/// Finds the symbol of a name, if it has one.
fn lookup(names: &Vec<String>, s: &String) -> (r: Option<usize>)
    ensures
        match r {
            Some(i) => i < names@.len() && views(names@)[i as int] == s@,
            None => forall|k: int| 0 <= k < names@.len() ==> #[trigger] views(names@)[k] != s@,
        },
{
    let n = names.len();
    let mut i: usize = 0;
    while i < n
        invariant
            n == names@.len(),
            i <= n,
            forall|k: int| 0 <= k < i ==> #[trigger] views(names@)[k] != s@,
        decreases n - i,
    {
        if names[i] == *s {
            return Some(i);
        }
        i += 1;
    }
    None
}

/// One of the names is the given one.
pub open spec fn named(names: Seq<Seq<char>>, name: Seq<char>) -> bool {
    exists|i: int| 0 <= i < names.len() && #[trigger] names[i] == name
}

/// Every argument of the fact is one of the names.
pub open spec fn all_named(names: Seq<Seq<char>>, f: FactView) -> bool {
    forall|q: int| 0 <= q < f.args.len() ==> named(names, #[trigger] f.args[q])
}

/// Writes a fact over symbols, if each of its arguments has a symbol.
fn lookup_fact(names: &Vec<String>, f: &Fact) -> (r: Option<Ground>)
    requires
        f.args.len() == f.pred.spec_arity(),
    ensures
        r is Some <==> all_named(views(names@), f@),
        match r {
            Some(g) => tuple_ok(g.pred.spec_index() as int, g.args@, names@.len() as int) && g.fact(
                views(names@),
            ) == f@,
            None => true,
        },
{
    let ghost table = views(names@);
    let mut args: Vec<usize> = Vec::new();
    let n = f.args.len();
    let mut q: usize = 0;
    while q < n
        invariant
            n == f.args.len(),
            q <= n,
            table == views(names@),
            args@.len() == q,
            forall|k: int| 0 <= k < q ==> #[trigger] args@[k] < names@.len(),
            forall|k: int| 0 <= k < q ==> table[#[trigger] args@[k] as int] == f.args@[k]@,
        decreases n - q,
    {
        match lookup(names, &f.args[q]) {
            Some(i) => {
                args.push(i);
            },
            None => {
                assert(f@.args[q as int] == f.args@[q as int]@);
                assert(!named(table, f@.args[q as int]));
                return None;
            },
        }
        q += 1;
    }
    let g = Ground { pred: f.pred, args };
    assert(g.fact(table).args =~= f@.args);
    assert forall|k: int| 0 <= k < f@.args.len() implies named(table, #[trigger] f@.args[k]) by {
        assert(table[args@[k] as int] == f@.args[k]);
    }
    Some(g)
}

/// The fact is one of the first `k` axioms.
pub open spec fn among_axioms(axioms: Seq<FactView>, k: int, f: FactView) -> bool {
    exists|j: int| 0 <= j < k && j < axioms.len() && #[trigger] axioms[j] == f
}

/// One of the facts over symbols stands for the fact.
pub open spec fn among_grounds(gs: Seq<Ground>, names: Seq<Seq<char>>, f: FactView) -> bool {
    exists|m: int| 0 <= m < gs.len() && (#[trigger] gs[m]).fact(names) == f
}

/// Gives each point a symbol, and writes over the symbols the axioms whose
/// arguments all name points. The other axioms are left out.
pub(crate) fn symbol_table(db: &DeductiveDatabase) -> (r: (Context, Vec<Ground>))
    ensures
        r.0.wf(),
        r.0.rules_view() == rule_base_spec(),
        grounds_ok(r.1@, r.0.names.len() as int),
        r.0.pts() == db@.point_map(),
        ground_set(r.1@, r.0.names_view()) == db@.axiom_set(),
{
    proof {
        use_type_invariant(db);
    }
    let mut names: Vec<String> = Vec::new();
    let mut coords: Vec<Coord> = Vec::new();
    let np = db.points.len();
    let mut i: usize = 0;
    while i < np
        invariant
            db.wf(),
            np == db.points.len(),
            i <= np,
            names@.len() == i,
            coords@.len() == i,
            forall|k: int| 0 <= k < i ==> (#[trigger] names@[k])@ == db.points@[k].2@,
            forall|k: int|
                0 <= k < i ==> #[trigger] coords@[k] == (Coord {
                    x: db.points@[k].0,
                    y: db.points@[k].1,
                }),
        decreases np - i,
    {
        let p = &db.points[i];
        names.push(p.2.clone());
        coords.push(Coord { x: p.0, y: p.1 });
        i += 1;
    }
    let ghost table = views(names@);
    let ghost v = db@;
    proof {
        assert forall|a: int, b: int|
            0 <= a < table.len() && 0 <= b < table.len() && a != b implies #[trigger] table[a]
            != #[trigger] table[b] by {
            if a < b {
                assert(db.points[a].2@ != db.points[b].2@);
            } else {
                assert(db.points[b].2@ != db.points[a].2@);
            }
        }
        assert(table =~= v.point_names());
        assert(coords@ =~= v.point_coords());
        assert forall|nm: Seq<char>| named(table, nm) <==> v.has_point(nm) by {
            if named(table, nm) {
                let a = choose|a: int| 0 <= a < table.len() && #[trigger] table[a] == nm;
                assert(v.points[a].name == nm);
            }
            if v.has_point(nm) {
                let a = choose|a: int| 0 <= a < v.points.len() && (#[trigger] v.points[a]).name == nm;
                assert(table[a] == nm);
            }
        }
        assert forall|f: FactView| all_named(table, f) <==> v.takes(f) by {
            if all_named(table, f) {
                assert forall|q: int| 0 <= q < f.args.len() implies v.has_point(#[trigger] f.args[q]) by {
                    assert(named(table, f.args[q]));
                }
            }
            if v.takes(f) {
                assert forall|q: int| 0 <= q < f.args.len() implies named(table, #[trigger] f.args[q]) by {
                    assert(v.has_point(f.args[q]));
                }
            }
        }
    }
    let mut grounds: Vec<Ground> = Vec::new();
    let na = db.axioms.len();
    let mut k: usize = 0;
    while k < na
        invariant
            db.wf(),
            v == db@,
            table == views(names@),
            na == db.axioms.len(),
            k <= na,
            forall|f: FactView| all_named(table, f) <==> v.takes(f),
            grounds_ok(grounds@, names@.len() as int),
            forall|m: int|
                0 <= m < grounds@.len() ==> among_axioms(v.axioms, k as int, (#[trigger] grounds@[m]).fact(table)),
            forall|j: int|
                0 <= j < k && v.takes(#[trigger] v.axioms[j]) ==> among_grounds(grounds@, table, v.axioms[j]),
        decreases na - k,
    {
        let ghost before = grounds@;
        let f = &db.axioms[k];
        assert(f@ == v.axioms[k as int]);
        match lookup_fact(&names, f) {
            Some(g) => {
                grounds.push(g);
            },
            None => {},
        }
        proof {
            assert forall|m: int| 0 <= m < grounds@.len() implies among_axioms(
                v.axioms,
                k + 1,
                (#[trigger] grounds@[m]).fact(table),
            ) by {
                if m < before.len() {
                    assert(among_axioms(v.axioms, k as int, before[m].fact(table)));
                    let j = choose|j: int|
                        0 <= j < k && j < v.axioms.len() && #[trigger] v.axioms[j] == before[m].fact(table);
                    assert(v.axioms[j] == grounds@[m].fact(table));
                } else {
                    assert(v.axioms[k as int] == grounds@[m].fact(table));
                }
            }
            assert forall|j: int| 0 <= j < k + 1 && v.takes(#[trigger] v.axioms[j]) implies among_grounds(
                grounds@,
                table,
                v.axioms[j],
            ) by {
                if j < k {
                    assert(among_grounds(before, table, v.axioms[j]));
                    let m = choose|m: int| 0 <= m < before.len() && (#[trigger] before[m]).fact(table) == v.axioms[j];
                    assert(grounds@[m].fact(table) == v.axioms[j]);
                } else {
                    assert(all_named(table, f@));
                    assert(grounds@[before.len() as int].fact(table) == v.axioms[j]);
                }
            }
        }
        k += 1;
    }
    let ctx = Context { names, coords, rules: rule_base() };
    proof {
        assert(ctx.rules_view() == rule_base_spec());
        assert(ctx.pts() == v.point_map());
        let gs = ground_set(grounds@, table);
        let want = v.axiom_set();
        assert forall|f: FactView| gs.contains(f) <==> want.contains(f) by {
            if gs.contains(f) {
                let m = choose|m: int| 0 <= m < grounds@.len() && (#[trigger] grounds@[m]).fact(table) == f;
                assert(among_axioms(v.axioms, na as int, grounds@[m].fact(table)));
                let j = choose|j: int| 0 <= j < na && j < v.axioms.len() && #[trigger] v.axioms[j] == f;
                assert(v.axioms.contains(f));
                let g = grounds@[m];
                assert(tuple_ok(g.pred.spec_index() as int, g.args@, table.len() as int));
                assert forall|q: int| 0 <= q < f.args.len() implies named(table, #[trigger] f.args[q]) by {
                    assert(f.args[q] == table[g.args@[q] as int]);
                }
                assert(all_named(table, f));
            }
            if want.contains(f) {
                let j = choose|j: int| 0 <= j < v.axioms.len() && v.axioms[j] == f;
                assert(v.takes(v.axioms[j]));
                assert(among_grounds(grounds@, table, v.axioms[j]));
            }
        }
        assert(gs =~= want);
    }
    (ctx, grounds)
}

} // verus!
