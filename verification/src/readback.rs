//! From the saturated store back to facts over names, in canonical order.

use vstd::prelude::*;
use vstd::string::*;
use crate::context::Context;
use crate::database::{
    Aconst, AconstView, DatabaseView, DeductiveDatabase, DerivedAconst, DerivedFact, RowView,
    aconst_facts, aconst_row_views, aconst_views, row_args, row_views, table_views,
};
use crate::fact::{FactView, PRED_COUNT, Pred};
use crate::firing::names_of;
use crate::order::{
    Order, compare_strs, lemma_strs_order_strict, strictly_sorted, strs_lt, strs_order,
};
use crate::provenance::{Provenance, key_set, keys_canonical};
use crate::rule::axiom_derivation;
use crate::saturation::{Names, lemma_tuple_fact_injective, names_distinct};
use crate::store::{Store, StoreView, tuple_ok};

verus! {

/// The row is the tuple at a place of the store, read back over names, with
/// the derivations that the store holds for it.
pub open spec fn row_of(row: RowView, sv: StoreView, names: Names, p: int, j: int) -> bool {
    &&& row.args == sv.fact_at(p, j, names).args
    &&& row.provenance() == sv.provs[p][j]
}

/// One of the rows is the tuple at place `j`.
pub open spec fn has_row(rows: Seq<RowView>, sv: StoreView, names: Names, p: int, j: int) -> bool {
    exists|k: int| 0 <= k < rows.len() && row_of(#[trigger] rows[k], sv, names, p, j)
}

/// The row is the tuple at one of the first `bound` places.
pub open spec fn from_store(row: RowView, sv: StoreView, names: Names, p: int, bound: int) -> bool {
    exists|j: int| 0 <= j < bound && j < sv.tuples[p].len() && #[trigger] row_of(row, sv, names, p, j)
}

/// The rows are the first `bound` tuples of a relation, in ascending order
/// of their arguments, each with its derivations in canonical order.
pub open spec fn table_of(rows: Seq<RowView>, sv: StoreView, names: Names, p: int, bound: int) -> bool {
    &&& strictly_sorted(row_args(rows), strs_order())
    &&& forall|k: int| 0 <= k < rows.len() ==> (#[trigger] rows[k]).canonical()
    &&& forall|j: int| 0 <= j < bound ==> #[trigger] has_row(rows, sv, names, p, j)
    &&& forall|k: int| 0 <= k < rows.len() ==> from_store(#[trigger] rows[k], sv, names, p, bound)
}

/// A database whose derived tables were read off a saturated store is
/// saturated.
pub proof fn lemma_saturated_view(v: DatabaseView, sv: StoreView, names: Names)
    requires
        sv.wf(names.len() as int),
        names_distinct(names),
        sv.facts(names) == v.closure(),
        forall|p: int, i: int|
            0 <= p < PRED_COUNT && 0 <= i < sv.tuples[p].len() ==> #[trigger] sv.provs[p][i]
                == v.provenance_of(sv.fact_at(p, i, names)),
        v.derived.len() == PRED_COUNT,
        forall|p: int|
            0 <= p < PRED_COUNT ==> table_of(
                #[trigger] v.derived[p],
                sv,
                names,
                p,
                sv.tuples[p].len() as int,
            ),
        aconst_facts(v.derived_aconsts) == v.first_taken(v.aconsts),
        forall|i: int|
            0 <= i < v.derived_aconsts.len() ==> keys_canonical(
                (#[trigger] v.derived_aconsts[i]).derivations,
            ) && key_set(v.derived_aconsts[i].derivations) == set![axiom_derivation()],
    ensures
        v.saturated(),
{
    assert forall|p: int, i: int| 0 <= p < PRED_COUNT && 0 <= i < v.derived[p].len() implies {
        &&& (#[trigger] v.derived[p][i]).args.len() == Pred::spec_from_index(p).spec_arity()
        &&& v.derived[p][i].canonical()
        &&& v.derived[p][i].provenance() == v.provenance_of(v.derived_fact(p, i))
        &&& sv.facts(names).contains(v.derived_fact(p, i))
    } by {
        let rows = v.derived[p];
        assert(table_of(rows, sv, names, p, sv.tuples[p].len() as int));
        assert(from_store(rows[i], sv, names, p, sv.tuples[p].len() as int));
        let j = choose|j: int|
            0 <= j < sv.tuples[p].len() && j < sv.tuples[p].len() && #[trigger] row_of(
                rows[i],
                sv,
                names,
                p,
                j,
            );
        assert(tuple_ok(p, sv.tuples[p][j], names.len() as int));
        assert(v.derived_fact(p, i) == sv.fact_at(p, j, names));
    }
    assert forall|f: FactView| v.closure().contains(f) <==> #[trigger] v.is_derived(f) by {
        if v.closure().contains(f) {
            assert(sv.facts(names).contains(f));
            let (p, j) = choose|p: int, j: int|
                0 <= p < PRED_COUNT && 0 <= j < sv.tuples[p].len() && #[trigger] sv.fact_at(p, j, names)
                    == f;
            let rows = v.derived[p];
            assert(table_of(rows, sv, names, p, sv.tuples[p].len() as int));
            assert(has_row(rows, sv, names, p, j));
            let k = choose|k: int| 0 <= k < rows.len() && row_of(#[trigger] rows[k], sv, names, p, j);
            assert(v.derived_fact(p, k) == f);
        }
        if v.is_derived(f) {
            let (p, i) = choose|p: int, i: int|
                0 <= p < PRED_COUNT && 0 <= i < v.derived[p].len() && #[trigger] v.derived_fact(p, i)
                    == f;
            assert(sv.facts(names).contains(v.derived_fact(p, i)));
        }
    }
}

/// Puts a row at its place among rows in ascending order of their
/// arguments.
fn insert_row(rows: &mut Vec<DerivedFact>, row: DerivedFact)
    requires
        strictly_sorted(row_args(row_views(old(rows)@)), strs_order()),
        forall|i: int| 0 <= i < old(rows).len() ==> (#[trigger] old(rows)[i])@.args != row@.args,
    ensures
        strictly_sorted(row_args(row_views(final(rows)@)), strs_order()),
        exists|k: int| 0 <= k <= old(rows).len() && final(rows)@ == #[trigger] old(rows)@.insert(k, row),
{
    let ghost before = rows@;
    let ghost args = row_args(row_views(before));
    let n = rows.len();
    let mut i: usize = 0;
    let mut found = false;
    while i < n && !found
        invariant
            n == before.len(),
            i <= n,
            rows@ == before,
            args == row_args(row_views(before)),
            forall|k: int| 0 <= k < before.len() ==> (#[trigger] before[k])@.args != row@.args,
            forall|k: int| 0 <= k < i ==> strs_lt(#[trigger] args[k], row@.args),
            found ==> i < n && strs_lt(row@.args, args[i as int]),
        decreases n - i, (if found { 0int } else { 1int }),
    {
        match compare_strs(&row.args, &rows[i].args) {
            Order::Less => {
                found = true;
            },
            Order::Equal => {
                assert(before[i as int]@.args == row@.args);
                i += 1;
            },
            Order::Greater => {
                assert(args[i as int] == before[i as int]@.args);
                i += 1;
            },
        }
    }
    let ghost new_args = row@.args;
    rows.insert(i, row);
    proof {
        lemma_strs_order_strict();
        let after = row_args(row_views(rows@));
        assert(after =~= args.insert(i as int, new_args));
        assert forall|a: int, b: int| 0 <= a < b < after.len() implies strs_order()(
            #[trigger] after[a],
            #[trigger] after[b],
        ) by {
            if b < i {
                assert(strs_order()(args[a], args[b]));
            } else if b == i {
                assert(strs_lt(args[a], new_args));
            } else if a == i {
                assert(strs_order()(new_args, args[i as int]));
                if b - 1 > i {
                    assert(strs_order()(args[i as int], args[b - 1]));
                }
            } else if a < i {
                assert(strs_order()(args[a], args[b - 1]));
            } else {
                assert(strs_order()(args[a - 1], args[b - 1]));
            }
        }
    }
}

/// Reads one relation of the store back as rows over names.
fn read_table(store: &Store, ctx: &Context, p: usize) -> (rows: Vec<DerivedFact>)
    requires
        ctx.wf(),
        store.wf(),
        store.symbols == ctx.names.len(),
        p < PRED_COUNT,
    ensures
        table_of(
            row_views(rows@),
            store@,
            ctx.names_view(),
            p as int,
            store@.tuples[p as int].len() as int,
        ),
{
    let ghost names = ctx.names_view();
    let ghost sv = store@;
    let mut rows: Vec<DerivedFact> = Vec::new();
    let n = store.len(p);
    let mut j: usize = 0;
    while j < n
        invariant
            ctx.wf(),
            store.wf(),
            store.symbols == ctx.names.len(),
            names == ctx.names_view(),
            sv == store@,
            p < PRED_COUNT,
            n == sv.tuples[p as int].len(),
            j <= n,
            table_of(row_views(rows@), sv, names, p as int, j as int),
        decreases n - j,
    {
        let t = &store.rels[p][j];
        assert(t@ == sv.tuples[p as int][j as int]);
        assert(tuple_ok(p as int, sv.tuples[p as int][j as int], store.symbols as int));
        let args = names_of(ctx, t);
        let provenance = store.provs[p][j].clone();
        provenance.canonical();
        let row = DerivedFact { args, provenance };
        let ghost before = rows@;
        let ghost old_views = row_views(before);
        proof {
            assert(row_of(row@, sv, names, p as int, j as int));
            assert forall|k: int| 0 <= k < before.len() implies (#[trigger] before[k])@.args
                != row@.args by {
                assert(from_store(old_views[k], sv, names, p as int, j as int));
                let m = choose|m: int|
                    0 <= m < j && m < sv.tuples[p as int].len() && #[trigger] row_of(
                        old_views[k],
                        sv,
                        names,
                        p as int,
                        m,
                    );
                assert(tuple_ok(p as int, sv.tuples[p as int][m], names.len() as int));
                assert(sv.tuples[p as int][m] != sv.tuples[p as int][j as int]);
                if before[k]@.args == row@.args {
                    assert(sv.fact_at(p as int, m, names) == sv.fact_at(p as int, j as int, names));
                    lemma_tuple_fact_injective(
                        p as int,
                        sv.tuples[p as int][m],
                        sv.tuples[p as int][j as int],
                        names,
                    );
                }
            }
        }
        let ghost new_row = row;
        insert_row(&mut rows, row);
        proof {
            let k0 = choose|k: int| 0 <= k <= before.len() && rows@ == #[trigger] before.insert(k, new_row);
            let new_views = row_views(rows@);
            assert(new_views =~= old_views.insert(k0, new_row@));
            assert forall|k: int| 0 <= k < new_views.len() implies (#[trigger] new_views[k]).canonical()
                && from_store(new_views[k], sv, names, p as int, j + 1) by {
                if k == k0 {
                    assert(row_of(new_views[k], sv, names, p as int, j as int));
                } else {
                    let k1 = if k < k0 {
                        k
                    } else {
                        k - 1
                    };
                    assert(new_views[k] == old_views[k1]);
                    assert(old_views[k1].canonical());
                    assert(from_store(old_views[k1], sv, names, p as int, j as int));
                    let m = choose|m: int|
                        0 <= m < j && m < sv.tuples[p as int].len() && #[trigger] row_of(
                            old_views[k1],
                            sv,
                            names,
                            p as int,
                            m,
                        );
                    assert(row_of(new_views[k], sv, names, p as int, m));
                }
            }
            assert forall|m: int| 0 <= m < j + 1 implies #[trigger] has_row(
                new_views,
                sv,
                names,
                p as int,
                m,
            ) by {
                if m == j {
                    assert(row_of(new_views[k0], sv, names, p as int, m));
                } else {
                    assert(has_row(old_views, sv, names, p as int, m));
                    let k = choose|k: int|
                        0 <= k < old_views.len() && row_of(#[trigger] old_views[k], sv, names, p as int, m);
                    if k < k0 {
                        assert(new_views[k] == old_views[k]);
                        assert(row_of(new_views[k], sv, names, p as int, m));
                    } else {
                        assert(new_views[k + 1] == old_views[k]);
                        assert(row_of(new_views[k + 1], sv, names, p as int, m));
                    }
                }
            }
        }
        j += 1;
    }
    rows
}

/// Reads the store back as facts over names: for each predicate its tuples
/// in ascending order of their arguments.
pub(crate) fn read_back(store: &Store, ctx: &Context) -> (derived: Vec<Vec<DerivedFact>>)
    requires
        ctx.wf(),
        store.wf(),
        store.symbols == ctx.names.len(),
    ensures
        derived@.len() == PRED_COUNT,
        forall|p: int|
            0 <= p < PRED_COUNT ==> table_of(
                #[trigger] table_views(derived@)[p],
                store@,
                ctx.names_view(),
                p,
                store@.tuples[p].len() as int,
            ),
{
    let mut derived: Vec<Vec<DerivedFact>> = Vec::new();
    let mut p: usize = 0;
    while p < PRED_COUNT
        invariant
            ctx.wf(),
            store.wf(),
            store.symbols == ctx.names.len(),
            p <= PRED_COUNT,
            derived@.len() == p,
            forall|q: int|
                0 <= q < p ==> table_of(
                    row_views((#[trigger] derived@[q])@),
                    store@,
                    ctx.names_view(),
                    q,
                    store@.tuples[q].len() as int,
                ),
        decreases PRED_COUNT - p,
    {
        let rows = read_table(store, ctx, p);
        derived.push(rows);
        p += 1;
    }
    proof {
        assert forall|q: int| 0 <= q < PRED_COUNT implies table_of(
            #[trigger] table_views(derived@)[q],
            store@,
            ctx.names_view(),
            q,
            store@.tuples[q].len() as int,
        ) by {
            assert(table_views(derived@)[q] == row_views(derived@[q]@));
        }
    }
    derived
}

/// Tells whether two constant-angle facts are the same.
fn same_aconst(x: &Aconst, y: &Aconst) -> (same: bool)
    ensures
        same == (x@ == y@),
{
    x.a == y.a && x.b == y.b && x.c == y.c && x.m == y.m && x.n == y.n
}

/// Tells whether the fact at place `k` stands in the list earlier.
fn seen_before(given: &Vec<Aconst>, k: usize) -> (seen: bool)
    requires
        k < given.len(),
    ensures
        seen == aconst_views(given@).subrange(0, k + 1).drop_last().contains(given@[k as int]@),
{
    let ghost prefix = aconst_views(given@).subrange(0, k + 1).drop_last();
    let mut i: usize = 0;
    while i < k
        invariant
            k < given.len(),
            i <= k,
            prefix == aconst_views(given@).subrange(0, k + 1).drop_last(),
            forall|m: int| 0 <= m < i ==> #[trigger] prefix[m] != given@[k as int]@,
        decreases k - i,
    {
        if same_aconst(&given[i], &given[k]) {
            assert(prefix[i as int] == given@[k as int]@);
            return true;
        }
        i += 1;
    }
    false
}

/// The constant-angle axioms whose names all name points, each once, in
/// the order in which each was first added, each justified as an axiom: no
/// rule concludes or uses a constant angle.
pub(crate) fn close_aconst(db: &DeductiveDatabase) -> (rows: Vec<DerivedAconst>)
    ensures
        aconst_facts(aconst_row_views(rows@)) == db@.first_taken(db@.aconsts),
        forall|i: int|
            0 <= i < rows.len() ==> keys_canonical((#[trigger] aconst_row_views(rows@)[i]).derivations)
                && key_set(aconst_row_views(rows@)[i].derivations) == set![axiom_derivation()],
{
    let given = &db.aconst_facts;
    let ghost v = db@;
    let ghost all = aconst_views(given@);
    let mut rows: Vec<DerivedAconst> = Vec::new();
    let n = given.len();
    let mut k: usize = 0;
    assert(all.subrange(0, 0) =~= Seq::<AconstView>::empty());
    assert(aconst_facts(aconst_row_views(rows@)) =~= v.first_taken(all.subrange(0, 0)));
    while k < n
        invariant
            given == &db.aconst_facts,
            v == db@,
            n == given.len(),
            k <= n,
            all == aconst_views(given@),
            aconst_facts(aconst_row_views(rows@)) == v.first_taken(all.subrange(0, k as int)),
            forall|i: int|
                0 <= i < rows.len() ==> keys_canonical(
                    (#[trigger] aconst_row_views(rows@)[i]).derivations,
                ) && key_set(aconst_row_views(rows@)[i].derivations) == set![axiom_derivation()],
        decreases n - k,
    {
        let ghost prev = aconst_row_views(rows@);
        let ghost next = all.subrange(0, k + 1);
        assert(next.drop_last() =~= all.subrange(0, k as int));
        assert(next.last() == given@[k as int]@);
        let g = &given[k];
        let taken = db.has_point(&g.a) && db.has_point(&g.b) && db.has_point(&g.c);
        assert(taken == v.takes_aconst(given@[k as int]@));
        if taken && !seen_before(given, k) {
            let provenance = Provenance::of_axiom();
            provenance.canonical();
            rows.push(DerivedAconst { fact: g.clone(), provenance });
            assert(aconst_row_views(rows@) =~= prev.push(rows@[prev.len() as int]@));
            assert(aconst_facts(aconst_row_views(rows@)) =~= aconst_facts(prev).push(given@[k as int]@));
        }
        k += 1;
    }
    assert(all.subrange(0, n as int) =~= all);
    rows
}

} // verus!
