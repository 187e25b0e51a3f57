//! The relation store: for each predicate the tuples known so far, in the
//! order in which they came, each with its provenance.
//!
//! Inside the store a point name is a symbol: its position in a table of
//! names that the owner of the store keeps.
//!
//! Beside each relation stand two indices. One leads from the fingerprint
//! of a tuple to the places of the tuples that have it, so that a tuple is
//! found without looking through the whole relation. The other leads from a
//! column and a symbol to the places of the tuples that hold the symbol in
//! that column, so that a scan that asks for a symbol looks at those only.

use vstd::prelude::*;
use vstd::std_specs::hash::*;
use crate::fact::{MAX_ARITY, PRED_COUNT, Pred};
use crate::provenance::{Derivation, DerivationView, Provenance};
use std::collections::HashMap;

verus! {

/// The relations of all predicates, and beside each tuple its provenance.
#[derive(Debug)]
pub struct Store {
    /// Number of symbols that tuples may use.
    pub symbols: usize,
    pub rels: Vec<Vec<Vec<usize>>>,
    pub provs: Vec<Vec<Provenance>>,
    /// For each relation, the places of its tuples by fingerprint.
    pub index: Vec<HashMap<u64, Vec<usize>>>,
    /// For each relation, the places of its tuples by column and symbol, in
    /// ascending order.
    pub columns: Vec<HashMap<u128, Vec<usize>>>,
}

/// The store as a value: `tuples[p][i]` is the `i`-th tuple of the predicate
/// with index `p`, and `provs[p][i]` the set of its derivations.
pub struct StoreView {
    pub tuples: Seq<Seq<Seq<usize>>>,
    pub provs: Seq<Seq<Set<DerivationView>>>,
}

/// The tuples of a relation as values.
pub open spec fn tuple_views(v: Seq<Vec<usize>>) -> Seq<Seq<usize>> {
    Seq::new(v.len(), |i: int| v[i]@)
}

/// The relations as values.
pub open spec fn rel_views(v: Seq<Vec<Vec<usize>>>) -> Seq<Seq<Seq<usize>>> {
    Seq::new(v.len(), |p: int| tuple_views(v[p]@))
}

/// The provenances of a relation as sets.
pub open spec fn prov_views(v: Seq<Provenance>) -> Seq<Set<DerivationView>> {
    Seq::new(v.len(), |i: int| v[i]@)
}

/// The provenances of all relations as sets.
pub open spec fn prov_rel_views(v: Seq<Vec<Provenance>>) -> Seq<Seq<Set<DerivationView>>> {
    Seq::new(v.len(), |p: int| prov_views(v[p]@))
}

impl View for Store {
    type V = StoreView;

    open spec fn view(&self) -> StoreView {
        StoreView { tuples: rel_views(self.rels@), provs: prov_rel_views(self.provs@) }
    }
}

/// A tuple of the right length for its predicate, over the first `n` symbols.
pub open spec fn tuple_ok(p: int, t: Seq<usize>, n: int) -> bool {
    &&& t.len() == Pred::spec_from_index(p).spec_arity()
    &&& forall|k: int| 0 <= k < t.len() ==> #[trigger] t[k] < n
}

impl StoreView {
    /// One relation per predicate, each tuple with a provenance; tuples are
    /// of the right shape over `n` symbols and none stands twice.
    pub open spec fn wf(self, n: int) -> bool {
        &&& self.tuples.len() == PRED_COUNT
        &&& self.provs.len() == PRED_COUNT
        &&& forall|p: int|
            0 <= p < PRED_COUNT ==> (#[trigger] self.provs[p]).len() == self.tuples[p].len()
        &&& forall|p: int, i: int|
            0 <= p < PRED_COUNT && 0 <= i < self.tuples[p].len() ==> tuple_ok(
                p,
                #[trigger] self.tuples[p][i],
                n,
            )
        &&& forall|p: int, i: int, j: int|
            0 <= p < PRED_COUNT && 0 <= i < j < self.tuples[p].len() ==> #[trigger] self.tuples[p][i]
                != #[trigger] self.tuples[p][j]
    }

    /// The store after a tuple has come with a derivation: a known tuple
    /// gains the derivation; a new one goes to the end of its relation with
    /// that derivation alone.
    pub open spec fn insert(self, p: int, t: Seq<usize>, d: DerivationView) -> StoreView {
        if self.tuples[p].contains(t) {
            let i = self.tuples[p].index_of(t);
            StoreView {
                tuples: self.tuples,
                provs: self.provs.update(p, self.provs[p].update(i, self.provs[p][i].insert(d))),
            }
        } else {
            StoreView {
                tuples: self.tuples.update(p, self.tuples[p].push(t)),
                provs: self.provs.update(p, self.provs[p].push(set![d])),
            }
        }
    }

    /// Whether `insert` changes the store: the tuple is new or did not have
    /// the derivation.
    pub open spec fn grows_by(self, p: int, t: Seq<usize>, d: DerivationView) -> bool {
        !self.tuples[p].contains(t) || !self.provs[p][self.tuples[p].index_of(t)].contains(d)
    }
}

/// The modulus of the fingerprints, a prime.
pub const FINGERPRINT_MODULUS: u64 = 2305843009213693951;

/// The multiplier of the fingerprints.
pub const FINGERPRINT_FACTOR: u64 = 1000003;

/// The fingerprint after one more symbol.
pub open spec fn fingerprint_step(h: u64, x: usize) -> u64 {
    ((h as int * FINGERPRINT_FACTOR as int + x as int) % (FINGERPRINT_MODULUS as int)) as u64
}

/// The fingerprint of a tuple: a number that equal tuples share, by which
/// the index finds them.
pub open spec fn fingerprint_spec(t: Seq<usize>) -> u64
    decreases t.len(),
{
    if t.len() == 0 {
        0
    } else {
        fingerprint_step(fingerprint_spec(t.drop_last()), t.last())
    }
}

/// Computes the fingerprint of a tuple.
pub fn fingerprint(t: &Vec<usize>) -> (h: u64)
    ensures
        h == fingerprint_spec(t@),
{
    let n = t.len();
    let mut h: u64 = 0;
    let mut k: usize = 0;
    assert(t@.subrange(0, 0) =~= Seq::<usize>::empty());
    while k < n
        invariant
            n == t.len(),
            k <= n,
            h == fingerprint_spec(t@.subrange(0, k as int)),
        decreases n - k,
    {
        let ghost prefix = t@.subrange(0, k as int);
        let ghost next = t@.subrange(0, k + 1);
        assert(next.drop_last() =~= prefix);
        assert(next.last() == t@[k as int]);
        let wide: u128 = h as u128 * (FINGERPRINT_FACTOR as u128) + (t[k] as u128);
        h = (wide % (FINGERPRINT_MODULUS as u128)) as u64;
        k += 1;
    }
    assert(t@.subrange(0, n as int) =~= t@);
    h
}

/// The place stands in the bucket.
pub open spec fn bucket_has(bucket: Seq<usize>, i: int) -> bool {
    exists|m: int| 0 <= m < bucket.len() && #[trigger] bucket[m] == i
}

/// The index of a relation holds every place under the fingerprint of its
/// tuple, and holds places of the relation only.
pub open spec fn index_ok(index: Map<u64, Vec<usize>>, tuples: Seq<Seq<usize>>) -> bool {
    &&& forall|i: int|
        0 <= i < tuples.len() ==> index.contains_key(fingerprint_spec(#[trigger] tuples[i]))
            && bucket_has(index[fingerprint_spec(tuples[i])]@, i)
    &&& forall|key: u64, j: int|
        index.contains_key(key) && 0 <= j < index[key]@.len() ==> (#[trigger] index[key]@[j])
            < tuples.len()
}

/// The key of a column and a symbol in the column index.
pub open spec fn column_key(v: usize, c: int) -> u128 {
    (v as int * 8 + c) as u128
}

/// Computes the key of a column and a symbol.
fn key_of(v: usize, c: usize) -> (key: u128)
    requires
        c < MAX_ARITY,
    ensures
        key == column_key(v, c as int),
{
    (v as u128) * 8 + (c as u128)
}

/// The column index holds place `i` under its symbol in column `c`.
pub open spec fn column_entry(
    columns: Map<u128, Vec<usize>>,
    tuples: Seq<Seq<usize>>,
    i: int,
    c: int,
) -> bool {
    &&& columns.contains_key(column_key(tuples[i][c], c))
    &&& bucket_has(columns[column_key(tuples[i][c], c)]@, i)
}

/// The places under a key are places of the relation, in ascending order.
pub open spec fn bucket_ok(bucket: Seq<usize>, n: int) -> bool {
    &&& forall|j: int| 0 <= j < bucket.len() ==> #[trigger] bucket[j] < n
    &&& forall|j: int, k: int| 0 <= j < k < bucket.len() ==> #[trigger] bucket[j] < #[trigger] bucket[k]
}

/// The column index of a relation holds every place under each symbol of
/// its tuple, and under each key places of the relation only, in ascending
/// order.
pub open spec fn columns_ok(columns: Map<u128, Vec<usize>>, tuples: Seq<Seq<usize>>) -> bool {
    &&& forall|i: int, c: int|
        0 <= i < tuples.len() && 0 <= c < tuples[i].len() && c < MAX_ARITY ==> #[trigger] column_entry(
            columns,
            tuples,
            i,
            c,
        )
    &&& forall|key: u128| #[trigger]
        columns.contains_key(key) ==> bucket_ok(columns[key]@, tuples.len() as int)
}

/// The key is that of one of the first `c` columns of the tuple.
pub open spec fn key_among(t: Seq<usize>, c: int, key: u128) -> bool {
    exists|col: int| 0 <= col < c && col < t.len() && key == column_key(#[trigger] t[col], col)
}

/// Enters the place of a new tuple into the column index, under each of its
/// symbols.
fn index_columns(
    columns: &mut HashMap<u128, Vec<usize>>,
    t: &Vec<usize>,
    place: usize,
    Ghost(tuples): Ghost<Seq<Seq<usize>>>,
)
    requires
        columns_ok(old(columns)@, tuples),
        place == tuples.len(),
        t.len() <= MAX_ARITY,
    ensures
        columns_ok(final(columns)@, tuples.push(t@)),
{
    broadcast use group_hash_axioms;

    let n = t.len();
    let mut c: usize = 0;
    while c < n
        invariant
            n == t.len(),
            n <= MAX_ARITY,
            c <= n,
            place == tuples.len(),
            forall|i: int, col: int|
                0 <= i < tuples.len() && 0 <= col < tuples[i].len() && col < MAX_ARITY
                    ==> #[trigger] column_entry(columns@, tuples, i, col),
            forall|col: int|
                0 <= col < c ==> columns@.contains_key(column_key(#[trigger] t@[col], col))
                    && bucket_has(columns@[column_key(t@[col], col)]@, place as int),
            forall|key: u128| #[trigger]
                columns@.contains_key(key) ==> bucket_ok(columns@[key]@, place + 1),
            forall|key: u128| #[trigger]
                columns@.contains_key(key) && bucket_has(columns@[key]@, place as int)
                    ==> key_among(t@, c as int, key),
        decreases n - c,
    {
        let ghost before = columns@;
        let key = key_of(t[c], c);
        let mut bucket = match columns.remove(&key) {
            Some(b) => b,
            None => Vec::new(),
        };
        let ghost old_bucket = bucket@;
        proof {
            assert(before.contains_key(key) ==> old_bucket == before[key]@);
            assert forall|j: int| 0 <= j < old_bucket.len() implies #[trigger] old_bucket[j]
                < place by {
                assert(bucket_ok(before[key]@, place + 1));
                if old_bucket[j] == place {
                    assert(bucket_has(before[key]@, place as int));
                    assert(key_among(t@, c as int, key));
                    let col = choose|col: int|
                        0 <= col < c && col < t@.len() && key == column_key(#[trigger] t@[col], col);
                    assert(false);
                }
            }
        }
        bucket.push(place);
        columns.insert(key, bucket);
        proof {
            let after = columns@;
            assert(after[key]@ == old_bucket.push(place));
            assert(after[key]@[old_bucket.len() as int] == place);
            assert forall|k: u128| k != key implies (after.contains_key(k) == before.contains_key(k)
                && after[k] == before[k]) by {}
            assert forall|i: int, col: int|
                0 <= i < tuples.len() && 0 <= col < tuples[i].len() && col < MAX_ARITY implies #[trigger] column_entry(
                after,
                tuples,
                i,
                col,
            ) by {
                assert(column_entry(before, tuples, i, col));
                let k = column_key(tuples[i][col], col);
                if k == key {
                    let m = choose|m: int| 0 <= m < old_bucket.len() && #[trigger] old_bucket[m] == i;
                    assert(after[key]@[m] == i);
                }
            }
            assert forall|col: int| 0 <= col < c + 1 implies after.contains_key(
                column_key(#[trigger] t@[col], col),
            ) && bucket_has(after[column_key(t@[col], col)]@, place as int) by {
                let k = column_key(t@[col], col);
                if k == key {
                } else {
                    assert(before.contains_key(k) && bucket_has(before[k]@, place as int));
                }
            }
            assert forall|k: u128| #[trigger] after.contains_key(k) implies bucket_ok(
                after[k]@,
                place + 1,
            ) by {
                if k == key {
                    assert forall|j: int, m: int| 0 <= j < m < after[k]@.len() implies #[trigger] after[k]@[j]
                        < #[trigger] after[k]@[m] by {
                        if m < old_bucket.len() {
                            assert(bucket_ok(before[key]@, place + 1));
                            assert(old_bucket[j] < old_bucket[m]);
                        } else {
                            assert(old_bucket[j] < place);
                        }
                    }
                    assert forall|j: int| 0 <= j < after[k]@.len() implies #[trigger] after[k]@[j]
                        < place + 1 by {
                        if j < old_bucket.len() {
                            assert(old_bucket[j] < place);
                        }
                    }
                } else {
                    assert(before.contains_key(k));
                }
            }
            assert forall|k: u128| #[trigger]
                after.contains_key(k) && bucket_has(after[k]@, place as int) implies key_among(
                t@,
                c + 1,
                k,
            ) by {
                if k == key {
                    assert(key == column_key(t@[c as int], c as int));
                } else {
                    assert(key_among(t@, c as int, k));
                    let col = choose|col: int|
                        0 <= col < c && col < t@.len() && k == column_key(#[trigger] t@[col], col);
                    assert(k == column_key(t@[col], col));
                }
            }
        }
        c += 1;
    }
    proof {
        let after = columns@;
        let all = tuples.push(t@);
        assert forall|i: int, col: int|
            0 <= i < all.len() && 0 <= col < all[i].len() && col < MAX_ARITY implies #[trigger] column_entry(
            after,
            all,
            i,
            col,
        ) by {
            if i < tuples.len() {
                assert(all[i] == tuples[i]);
                assert(column_entry(after, tuples, i, col));
            } else {
                assert(all[i] == t@);
                assert(after.contains_key(column_key(t@[col], col)));
            }
        }
    }
}

/// What a scan asks of one column of a tuple.
#[derive(Clone, Copy, Debug, PartialEq, Eq, Structural)]
pub enum Column {
    /// Nothing.
    Any,
    /// To hold this symbol.
    Is(usize),
    /// To hold the same symbol as another column, given by its position.
    Same(usize),
}

/// The tuple has what the pattern asks for, column by column.
pub open spec fn tuple_fits(t: Seq<usize>, pattern: Seq<Column>) -> bool {
    forall|q: int|
        0 <= q < pattern.len() && q < t.len() ==> match #[trigger] pattern[q] {
            Column::Any => true,
            Column::Is(v) => t[q] == v,
            Column::Same(k) => k < t.len() && t[q] == t[k as int],
        }
}

/// Tells whether a tuple has what the pattern asks for.
pub fn fits(t: &Vec<usize>, pattern: &Vec<Column>) -> (ok: bool)
    ensures
        ok == tuple_fits(t@, pattern@),
{
    let n = if pattern.len() < t.len() {
        pattern.len()
    } else {
        t.len()
    };
    let mut q: usize = 0;
    while q < n
        invariant
            n <= pattern.len(),
            n <= t.len(),
            n == pattern.len() || n == t.len(),
            q <= n,
            forall|k: int|
                0 <= k < q ==> match #[trigger] pattern@[k] {
                    Column::Any => true,
                    Column::Is(v) => t@[k] == v,
                    Column::Same(j) => j < t@.len() && t@[k] == t@[j as int],
                },
        decreases n - q,
    {
        match pattern[q] {
            Column::Any => {},
            Column::Is(v) => {
                if t[q] != v {
                    return false;
                }
            },
            Column::Same(j) => {
                if j >= t.len() {
                    return false;
                }
                if t[q] != t[j] {
                    return false;
                }
            },
        }
        q += 1;
    }
    true
}

/// Tells whether two tuples are equal.
pub fn tuple_eq(a: &Vec<usize>, b: &Vec<usize>) -> (e: bool)
    ensures
        e == (a@ == b@),
{
    if a.len() != b.len() {
        return false;
    }
    let n = a.len();
    let mut k: usize = 0;
    while k < n
        invariant
            n == a@.len(),
            n == b@.len(),
            k <= n,
            forall|m: int| 0 <= m < k ==> a@[m] == b@[m],
        decreases n - k,
    {
        if a[k] != b[k] {
            return false;
        }
        k += 1;
    }
    assert(a@ =~= b@);
    true
}

impl Store {
    /// The value is well formed over the store's symbols, there is a table
    /// of provenance and there are two indices for each relation, and each
    /// index holds the places of the tuples of its relation.
    pub open spec fn wf(&self) -> bool {
        &&& self@.wf(self.symbols as int)
        &&& self.rels.len() == PRED_COUNT
        &&& self.provs.len() == PRED_COUNT
        &&& self.index.len() == PRED_COUNT
        &&& forall|p: int|
            0 <= p < PRED_COUNT ==> index_ok((#[trigger] self.index[p])@, self@.tuples[p])
        &&& self.columns.len() == PRED_COUNT
        &&& forall|p: int|
            0 <= p < PRED_COUNT ==> columns_ok((#[trigger] self.columns[p])@, self@.tuples[p])
        &&& forall|p: int|
            0 <= p < PRED_COUNT ==> (#[trigger] self.provs[p]).len() == self.rels[p].len()
    }

    /// A store with no tuples, for tuples over `symbols` symbols.
    pub fn new(symbols: usize) -> (s: Store)
        ensures
            s.wf(),
            s.symbols == symbols,
            forall|p: int| 0 <= p < PRED_COUNT ==> (#[trigger] s@.tuples[p]).len() == 0,
    {
        let mut rels: Vec<Vec<Vec<usize>>> = Vec::new();
        let mut provs: Vec<Vec<Provenance>> = Vec::new();
        let mut index: Vec<HashMap<u64, Vec<usize>>> = Vec::new();
        let mut columns: Vec<HashMap<u128, Vec<usize>>> = Vec::new();
        let mut p: usize = 0;
        while p < PRED_COUNT
            invariant
                p <= PRED_COUNT,
                rels@.len() == p,
                provs@.len() == p,
                index@.len() == p,
                columns@.len() == p,
                forall|q: int| 0 <= q < p ==> (#[trigger] columns@[q])@ == Map::<u128, Vec<usize>>::empty(),
                forall|q: int| 0 <= q < p ==> (#[trigger] rels@[q])@.len() == 0,
                forall|q: int| 0 <= q < p ==> (#[trigger] provs@[q])@.len() == 0,
                forall|q: int| 0 <= q < p ==> (#[trigger] index@[q])@ == Map::<u64, Vec<usize>>::empty(),
            decreases PRED_COUNT - p,
        {
            rels.push(Vec::new());
            provs.push(Vec::new());
            index.push(HashMap::new());
            columns.push(HashMap::new());
            p += 1;
        }
        Store { symbols, rels, provs, index, columns }
    }

    /// Number of tuples of a predicate.
    pub fn len(&self, p: usize) -> (n: usize)
        requires
            self.wf(),
            p < PRED_COUNT,
        ensures
            n == self@.tuples[p as int].len(),
    {
        self.rels[p].len()
    }

    /// Position of a tuple in the relation of a predicate, if it is there.
    /// Only the tuples with the fingerprint of `t` are looked at.
    pub fn find(&self, p: usize, t: &Vec<usize>) -> (r: Option<usize>)
        requires
            self.wf(),
            p < PRED_COUNT,
        ensures
            match r {
                Some(i) => i < self@.tuples[p as int].len() && self@.tuples[p as int][i as int] == t@,
                None => !self@.tuples[p as int].contains(t@),
            },
    {
        broadcast use group_hash_axioms;

        let ghost tuples = self@.tuples[p as int];
        let key = fingerprint(t);
        assert(index_ok(self.index[p as int]@, tuples));
        match self.index[p].get(&key) {
            None => {
                assert forall|i: int| 0 <= i < tuples.len() implies tuples[i] != t@ by {
                    if tuples[i] == t@ {
                        assert(self.index[p as int]@.contains_key(fingerprint_spec(tuples[i])));
                    }
                }
                None
            },
            Some(bucket) => {
                let n = bucket.len();
                let mut j: usize = 0;
                while j < n
                    invariant
                        self.wf(),
                        p < PRED_COUNT,
                        tuples == self@.tuples[p as int],
                        index_ok(self.index[p as int]@, tuples),
                        self.index[p as int]@.contains_key(key),
                        *bucket == self.index[p as int]@[key],
                        n == bucket@.len(),
                        j <= n,
                        forall|k: int| 0 <= k < j ==> tuples[#[trigger] bucket@[k] as int] != t@,
                    decreases n - j,
                {
                    let i = bucket[j];
                    assert(i < tuples.len());
                    if tuple_eq(&self.rels[p][i], t) {
                        return Some(i);
                    }
                    j += 1;
                }
                assert forall|i: int| 0 <= i < tuples.len() implies tuples[i] != t@ by {
                    if tuples[i] == t@ {
                        assert(bucket_has(self.index[p as int]@[fingerprint_spec(tuples[i])]@, i));
                        let k = choose|k: int| 0 <= k < bucket@.len() && #[trigger] bucket@[k] == i;
                        assert(tuples[bucket@[k] as int] != t@);
                    }
                }
                None
            },
        }
    }

    /// The places from `from` up to `to` in the relation of a predicate at
    /// which the tuple has what the pattern asks for, in ascending order.
    /// Where the pattern asks for a symbol in a column, only the tuples that
    /// the column index gives for it are looked at.
    pub fn scan(&self, p: usize, pattern: &Vec<Column>, from: usize, to: usize) -> (hits: Vec<usize>)
        requires
            self.wf(),
            p < PRED_COUNT,
            from <= to <= self@.tuples[p as int].len(),
        ensures
            forall|k: int|
                0 <= k < hits@.len() ==> from <= #[trigger] hits@[k] < to && tuple_fits(
                    self@.tuples[p as int][hits@[k] as int],
                    pattern@,
                ),
            forall|k: int, m: int| 0 <= k < m < hits@.len() ==> #[trigger] hits@[k] < #[trigger] hits@[m],
            forall|i: int|
                from <= i < to && tuple_fits(#[trigger] self@.tuples[p as int][i], pattern@)
                    ==> hits@.contains(i as usize),
    {
        let arity = Pred::from_index(p).arity();
        let n = if pattern.len() < arity {
            pattern.len()
        } else {
            arity
        };
        let mut c: usize = 0;
        while c < n
            invariant
                self.wf(),
                p < PRED_COUNT,
                from <= to <= self@.tuples[p as int].len(),
                arity == Pred::spec_from_index(p as int).spec_arity(),
                n <= pattern.len(),
                n <= arity,
                c <= n,
            decreases n - c,
        {
            match pattern[c] {
                Column::Is(v) => {
                    return self.scan_column(p, pattern, from, to, c, v);
                },
                _ => {},
            }
            c += 1;
        }
        self.scan_range(p, pattern, from, to)
    }

    /// The scan for a pattern that asks for symbol `v` in column `c`: the
    /// tuples that the column index gives for it are looked at.
    fn scan_column(
        &self,
        p: usize,
        pattern: &Vec<Column>,
        from: usize,
        to: usize,
        c: usize,
        v: usize,
    ) -> (hits: Vec<usize>)
        requires
            self.wf(),
            p < PRED_COUNT,
            from <= to <= self@.tuples[p as int].len(),
            c < pattern.len(),
            c < Pred::spec_from_index(p as int).spec_arity(),
            pattern[c as int] == Column::Is(v),
        ensures
            forall|k: int|
                0 <= k < hits@.len() ==> from <= #[trigger] hits@[k] < to && tuple_fits(
                    self@.tuples[p as int][hits@[k] as int],
                    pattern@,
                ),
            forall|k: int, m: int| 0 <= k < m < hits@.len() ==> #[trigger] hits@[k] < #[trigger] hits@[m],
            forall|i: int|
                from <= i < to && tuple_fits(#[trigger] self@.tuples[p as int][i], pattern@)
                    ==> hits@.contains(i as usize),
    {
        broadcast use group_hash_axioms;

        let ghost tuples = self@.tuples[p as int];
        let ghost columns = self.columns[p as int]@;
        assert(columns_ok(columns, tuples));
        let key = key_of(v, c);
        let mut hits: Vec<usize> = Vec::new();
        proof {
            // Every tuple that fits stands under the key.
            assert forall|i: int|
                0 <= i < tuples.len() && tuple_fits(tuples[i], pattern@) implies #[trigger] column_entry(
                columns,
                tuples,
                i,
                c as int,
            ) && column_key(tuples[i][c as int], c as int) == key by {
                assert(tuple_ok(p as int, self@.tuples[p as int][i], self.symbols as int));
                assert(pattern@[c as int] == Column::Is(v));
                assert(tuples[i][c as int] == v);
            }
        }
        match self.columns[p].get(&key) {
            None => {
                assert forall|i: int| from <= i < to && tuple_fits(#[trigger] tuples[i], pattern@) implies hits@.contains(
                    i as usize,
                ) by {
                    assert(column_entry(columns, tuples, i, c as int));
                }
                hits
            },
            Some(bucket) => {
                assert(bucket_ok(columns[key]@, tuples.len() as int));
                let n = bucket.len();
                let mut j: usize = 0;
                while j < n
                    invariant
                        self.wf(),
                        p < PRED_COUNT,
                        tuples == self@.tuples[p as int],
                        from <= to <= tuples.len(),
                        bucket_ok(bucket@, tuples.len() as int),
                        n == bucket@.len(),
                        j <= n,
                        forall|k: int|
                            0 <= k < hits@.len() ==> from <= #[trigger] hits@[k] < to && tuple_fits(
                                tuples[hits@[k] as int],
                                pattern@,
                            ),
                        forall|k: int, m: int|
                            0 <= k < m < hits@.len() ==> #[trigger] hits@[k] < #[trigger] hits@[m],
                        forall|k: int| 0 <= k < hits@.len() && j < n ==> #[trigger] hits@[k] < bucket@[j as int],
                        forall|m: int|
                            0 <= m < j && from <= #[trigger] bucket@[m] < to && tuple_fits(
                                tuples[bucket@[m] as int],
                                pattern@,
                            ) ==> hits@.contains(bucket@[m]),
                    decreases n - j,
                {
                    let ghost prev = hits@;
                    let i = bucket[j];
                    if i >= from && i < to && fits(&self.rels[p][i], pattern) {
                        hits.push(i);
                        assert(hits@[prev.len() as int] == i);
                    }
                    proof {
                        assert forall|m: int|
                            0 <= m < j + 1 && from <= #[trigger] bucket@[m] < to && tuple_fits(
                                tuples[bucket@[m] as int],
                                pattern@,
                            ) implies hits@.contains(bucket@[m]) by {
                            if m < j {
                                assert(prev.contains(bucket@[m]));
                                let k = choose|k: int| 0 <= k < prev.len() && prev[k] == bucket@[m];
                                assert(hits@[k] == bucket@[m]);
                            }
                        }
                        assert forall|k: int| 0 <= k < hits@.len() && j + 1 < n implies #[trigger] hits@[k]
                            < bucket@[j + 1] by {
                            assert(bucket@[j as int] < bucket@[j + 1]);
                        }
                    }
                    j += 1;
                }
                assert forall|i: int| from <= i < to && tuple_fits(#[trigger] tuples[i], pattern@) implies hits@.contains(
                    i as usize,
                ) by {
                    assert(column_entry(columns, tuples, i, c as int));
                    let m = choose|m: int| 0 <= m < bucket@.len() && #[trigger] bucket@[m] == i;
                    assert(hits@.contains(bucket@[m]));
                }
                hits
            },
        }
    }

    /// The scan for a pattern that asks for no symbol: every tuple in the
    /// range is looked at.
    fn scan_range(&self, p: usize, pattern: &Vec<Column>, from: usize, to: usize) -> (hits: Vec<usize>)
        requires
            self.wf(),
            p < PRED_COUNT,
            from <= to <= self@.tuples[p as int].len(),
        ensures
            forall|k: int|
                0 <= k < hits@.len() ==> from <= #[trigger] hits@[k] < to && tuple_fits(
                    self@.tuples[p as int][hits@[k] as int],
                    pattern@,
                ),
            forall|k: int, m: int| 0 <= k < m < hits@.len() ==> #[trigger] hits@[k] < #[trigger] hits@[m],
            forall|i: int|
                from <= i < to && tuple_fits(#[trigger] self@.tuples[p as int][i], pattern@)
                    ==> hits@.contains(i as usize),
    {
        let mut hits: Vec<usize> = Vec::new();
        let mut i: usize = from;
        while i < to
            invariant
                self.wf(),
                p < PRED_COUNT,
                from <= i <= to,
                to <= self@.tuples[p as int].len(),
                forall|k: int|
                    0 <= k < hits@.len() ==> from <= #[trigger] hits@[k] < i && tuple_fits(
                        self@.tuples[p as int][hits@[k] as int],
                        pattern@,
                    ),
                forall|k: int, m: int|
                    0 <= k < m < hits@.len() ==> #[trigger] hits@[k] < #[trigger] hits@[m],
                forall|j: int|
                    from <= j < i && tuple_fits(#[trigger] self@.tuples[p as int][j], pattern@)
                        ==> hits@.contains(j as usize),
            decreases to - i,
        {
            let ghost prev = hits@;
            if fits(&self.rels[p][i], pattern) {
                hits.push(i);
                assert(hits@[prev.len() as int] == i);
            }
            proof {
                assert forall|j: int|
                    from <= j < i + 1 && tuple_fits(
                        #[trigger] self@.tuples[p as int][j],
                        pattern@,
                    ) implies hits@.contains(j as usize) by {
                    if j < i {
                        assert(prev.contains(j as usize));
                        let k = choose|k: int| 0 <= k < prev.len() && prev[k] == j as usize;
                        assert(hits@[k] == j as usize);
                    }
                }
            }
            i += 1;
        }
        hits
    }

    /// Records that tuple `t` of predicate `p` has derivation `d`. A new
    /// tuple is installed with that derivation alone; a known one gains it.
    /// Tells whether anything changed: whether the tuple was new or its
    /// provenance grew.
    pub fn insert(&mut self, p: usize, t: Vec<usize>, d: Derivation) -> (changed: bool)
        requires
            old(self).wf(),
            p < PRED_COUNT,
            tuple_ok(p as int, t@, old(self).symbols as int),
        ensures
            final(self).wf(),
            final(self).symbols == old(self).symbols,
            final(self)@ == old(self)@.insert(p as int, t@, d@),
            changed == old(self)@.grows_by(p as int, t@, d@),
    {
        let ghost before = self@;
        match self.find(p, &t) {
            Some(i) => {
                let changed = self.provs[p][i].insert(d);
                proof {
                    let after = self@;
                    let want = before.insert(p as int, t@, d@);
                    assert(before.tuples[p as int][i as int] == t@);
                    assert(before.tuples[p as int].contains(t@));
                    let j = before.tuples[p as int].index_of(t@);
                    assert(j == i);
                    assert(after.tuples =~~= want.tuples);
                    assert(after.provs =~~= want.provs);
                }
                changed
            },
            None => {
                let mut prov = Provenance::empty();
                prov.insert(d);
                let key = fingerprint(&t);
                let place = self.rels[p].len();
                let ghost old_index = self.index[p as int]@;
                assert(index_ok(old_index, before.tuples[p as int]));
                assert(columns_ok(self.columns[p as int]@, before.tuples[p as int]));
                index_columns(&mut self.columns[p], &t, place, Ghost(before.tuples[p as int]));
                self.rels[p].push(t);
                self.provs[p].push(prov);
                let mut bucket = match self.index[p].remove(&key) {
                    Some(b) => b,
                    None => Vec::new(),
                };
                let ghost old_bucket = bucket@;
                bucket.push(place);
                self.index[p].insert(key, bucket);
                proof {
                    let after = self@;
                    let new_index = self.index[p as int]@;
                    let tuples = after.tuples[p as int];
                    assert(tuples =~= before.tuples[p as int].push(t@));
                    assert(new_index.contains_key(key));
                    assert(new_index[key]@ == old_bucket.push(place));
                    assert(old_index.contains_key(key) ==> old_bucket == old_index[key]@);
                    assert forall|i: int| 0 <= i < tuples.len() implies new_index.contains_key(
                        fingerprint_spec(#[trigger] tuples[i]),
                    ) && bucket_has(new_index[fingerprint_spec(tuples[i])]@, i) by {
                        let k = fingerprint_spec(tuples[i]);
                        if i < place {
                            assert(tuples[i] == before.tuples[p as int][i]);
                            assert(old_index.contains_key(k) && bucket_has(old_index[k]@, i));
                            if k == key {
                                let m = choose|m: int|
                                    0 <= m < old_bucket.len() && #[trigger] old_bucket[m] == i;
                                assert(new_index[key]@[m] == i);
                            } else {
                                assert(new_index[k] == old_index[k]);
                            }
                        } else {
                            assert(new_index[key]@[old_bucket.len() as int] == place);
                        }
                    }
                    assert forall|k: u64, j: int|
                        new_index.contains_key(k) && 0 <= j < new_index[k]@.len() implies (#[trigger] new_index[k]@[j])
                        < tuples.len() by {
                        if k == key {
                            if j < old_bucket.len() {
                                assert(old_index.contains_key(key));
                                assert(old_index[key]@[j] < before.tuples[p as int].len());
                            }
                        } else {
                            assert(old_index.contains_key(k));
                            assert(new_index[k] == old_index[k]);
                            assert(old_index[k]@[j] < before.tuples[p as int].len());
                        }
                    }
                    assert(index_ok(new_index, tuples));
                    assert forall|q: int| 0 <= q < PRED_COUNT && q != p implies index_ok(
                        (#[trigger] self.index[q])@,
                        after.tuples[q],
                    ) by {
                        assert(self.index[q] == old(self).index[q]);
                        assert(after.tuples[q] == before.tuples[q]);
                    }
                    assert forall|q: int| 0 <= q < PRED_COUNT implies columns_ok(
                        (#[trigger] self.columns[q])@,
                        after.tuples[q],
                    ) by {
                        if q != p {
                            assert(self.columns[q] == old(self).columns[q]);
                            assert(after.tuples[q] == before.tuples[q]);
                        }
                    }
                    let want = before.insert(p as int, t@, d@);
                    assert(prov@ =~= set![d@]);
                    assert(after.tuples =~~= want.tuples);
                    assert(after.provs =~~= want.provs);
                    assert forall|q: int, i: int, j: int|
                        0 <= q < PRED_COUNT && 0 <= i < j < after.tuples[q].len() implies #[trigger] after.tuples[q][i]
                        != #[trigger] after.tuples[q][j] by {
                        if q == p && j == before.tuples[q].len() {
                            assert(before.tuples[q][i] == after.tuples[q][i]);
                            assert(before.tuples[q].contains(before.tuples[q][i]));
                        }
                    }
                }
                true
            },
        }
    }
}

} // verus!
