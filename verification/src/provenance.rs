//! Derivations and the provenance lattice: for each fact, the set of ways in
//! which it was justified. The join is set union and reports growth.

use vstd::prelude::*;
use vstd::string::*;
use crate::order::{
    Order, compare_str, compare_strs, irreflexive, lemma_lex_exclusive, lemma_lex_irreflexive,
    lemma_lex_transitive, lemma_sorted_canonical, lemma_str_order_strict, lex_lt, lex_lt_at,
    str_lt, str_order, strictly_sorted, strs_lt, transitive, views,
};

verus! {

/// One justification of a fact: the rule that produced it and the identifiers
/// of the facts the rule was applied to. The parents are kept in ascending
/// order without repetition, so that equal sets have equal lists.
#[derive(Debug)]
pub struct Derivation {
    pub(crate) rule: String,
    pub(crate) parents: Vec<String>,
}

/// A derivation as a value: the parents form an unordered set.
pub struct DerivationView {
    pub rule: Seq<char>,
    pub parents: Set<Seq<char>>,
}

/// The rule name and the parent list of a derivation, by which derivations
/// are ordered.
pub type DerivationKey = (Seq<char>, Seq<Seq<char>>);

/// Derivations are ordered by rule name, then by parent list.
pub open spec fn derivation_lt(a: DerivationKey, b: DerivationKey) -> bool {
    str_lt(a.0, b.0) || (a.0 == b.0 && strs_lt(a.1, b.1))
}

/// The order of derivations as a function.
pub open spec fn derivation_order() -> spec_fn(DerivationKey, DerivationKey) -> bool {
    |a: DerivationKey, b: DerivationKey| derivation_lt(a, b)
}

/// The order of derivations is strict.
pub proof fn lemma_derivation_order_strict()
    ensures
        irreflexive(derivation_order()),
        transitive(derivation_order()),
{
    lemma_str_order_strict();
    assert forall|x: DerivationKey| !#[trigger] derivation_order()(x, x) by {
        lemma_lex_irreflexive(x.1, str_order());
        assert(!str_order()(x.0, x.0));
    }
    assert forall|x: DerivationKey, y: DerivationKey, z: DerivationKey| #[trigger]
        derivation_order()(x, y) && #[trigger] derivation_order()(y, z) implies derivation_order()(
        x,
        z,
    ) by {
        if str_lt(x.0, y.0) && str_lt(y.0, z.0) {
            assert(str_order()(x.0, y.0) && str_order()(y.0, z.0));
            assert(str_order()(x.0, z.0));
        } else if x.0 == y.0 && y.0 == z.0 {
            lemma_lex_transitive(x.1, y.1, z.1, str_order());
        }
    }
}

impl View for Derivation {
    type V = DerivationView;

    open(crate) spec fn view(&self) -> DerivationView {
        DerivationView { rule: self.rule@, parents: views(self.parents@).to_set() }
    }
}

/// Inserts a string into an ascending list unless it is there already.
pub fn insert_sorted(v: &mut Vec<String>, s: String)
    requires
        strictly_sorted(views(old(v)@), str_order()),
    ensures
        strictly_sorted(views(final(v)@), str_order()),
        views(final(v)@).to_set() == views(old(v)@).to_set().insert(s@),
{
    let ghost before = views(v@);
    let n = v.len();
    let mut i: usize = 0;
    let mut found = false;
    while i < n && !found
        invariant
            n == v@.len(),
            i <= n,
            views(v@) == before,
            strictly_sorted(before, str_order()),
            forall|k: int| 0 <= k < i ==> str_lt(#[trigger] before[k], s@),
            found ==> i < n && str_lt(s@, before[i as int]),
        decreases n - i, (if found { 0int } else { 1int }),
    {
        match compare_str(s.as_str(), v[i].as_str()) {
            Order::Less => {
                found = true;
            },
            Order::Equal => {
                assert(before[i as int] == s@);
                assert(before.contains(s@));
                assert(before.to_set().insert(s@) =~= before.to_set());
                return ;
            },
            Order::Greater => {
                i += 1;
            },
        }
    }
    v.insert(i, s);
    proof {
        lemma_str_order_strict();
        let after = views(v@);
        assert(after =~= before.insert(i as int, s@));
        assert forall|p: int, q: int| 0 <= p < q < after.len() implies str_order()(
            #[trigger] after[p],
            #[trigger] after[q],
        ) by {
            if q < i {
                assert(str_order()(before[p], before[q]));
            } else if q == i {
                assert(str_lt(before[p], s@));
            } else if p == i {
                assert(str_order()(s@, before[i as int]));
                if q - 1 > i {
                    assert(str_order()(before[i as int], before[q - 1]));
                }
            } else if p < i {
                assert(str_order()(before[p], before[q - 1]));
            } else {
                assert(str_order()(before[p - 1], before[q - 1]));
            }
        }
        assert forall|x: Seq<char>| after.to_set().contains(x) <==> before.to_set().insert(
            s@,
        ).contains(x) by {
            if after.contains(x) {
                let p = choose|p: int| 0 <= p < after.len() && after[p] == x;
                if p < i {
                    assert(before[p] == x);
                } else if p > i {
                    assert(before[p - 1] == x);
                }
            }
            if before.contains(x) {
                let p = choose|p: int| 0 <= p < before.len() && before[p] == x;
                if p < i {
                    assert(after[p] == x);
                } else {
                    assert(after[p + 1] == x);
                }
            }
            if x == s@ {
                assert(after[i as int] == x);
            }
        }
        assert(after.to_set() =~= before.to_set().insert(s@));
    }
}

/// Tells whether a list of strings is in strictly ascending order.
pub fn is_ascending(v: &Vec<String>) -> (ok: bool)
    ensures
        ok == strictly_sorted(views(v@), str_order()),
{
    let ghost w = views(v@);
    let n = v.len();
    if n == 0 {
        return true;
    }
    let mut i: usize = 1;
    while i < n
        invariant
            n == v.len(),
            w == views(v@),
            1 <= i <= n,
            forall|a: int, b: int| 0 <= a < b < i ==> str_order()(#[trigger] w[a], #[trigger] w[b]),
        decreases n - i,
    {
        match compare_str(v[i - 1].as_str(), v[i].as_str()) {
            Order::Less => {},
            _ => {
                assert(!str_order()(w[i - 1], w[i as int]));
                return false;
            },
        }
        proof {
            lemma_str_order_strict();
            assert forall|a: int, b: int| 0 <= a < b < i + 1 implies str_order()(
                #[trigger] w[a],
                #[trigger] w[b],
            ) by {
                if b == i && a < i - 1 {
                    assert(str_order()(w[a], w[i - 1]));
                    assert(str_order()(w[i - 1], w[i as int]));
                }
            }
        }
        i += 1;
    }
    true
}

impl Derivation {
    /// The parents are in strictly ascending order.
    #[verifier::type_invariant]
    pub open(crate) spec fn wf(&self) -> bool {
        strictly_sorted(views(self.parents@), str_order())
    }

    /// The rule name and the list of parents.
    pub open(crate) spec fn key(&self) -> DerivationKey {
        (self.rule@, views(self.parents@))
    }

    /// The key stands for the derivation, and its parents are in strictly
    /// ascending order.
    pub fn canonical(&self)
        ensures
            key_view(self.key()) == self@,
            strictly_sorted(self.key().1, str_order()),
    {
        proof {
            use_type_invariant(self);
        }
    }

    /// The name of the rule.
    pub fn rule(&self) -> (rule: &String)
        ensures
            rule@ == self@.rule,
            rule@ == self.key().0,
    {
        &self.rule
    }

    /// The identifiers of the parents, in strictly ascending order.
    pub fn parents(&self) -> (parents: &Vec<String>)
        ensures
            views(parents@) == self.key().1,
            views(parents@).to_set() == self@.parents,
            strictly_sorted(views(parents@), str_order()),
    {
        proof {
            use_type_invariant(self);
        }
        &self.parents
    }

    /// Among well-formed derivations the value determines the key.
    pub proof fn lemma_key_determined(&self, other: &Derivation)
        requires
            self.wf(),
            other.wf(),
            self@ == other@,
        ensures
            self.key() == other.key(),
    {
        lemma_str_order_strict();
        let a = views(self.parents@);
        let b = views(other.parents@);
        assert forall|x: Seq<char>| a.contains(x) <==> b.contains(x) by {
            assert(a.to_set().contains(x) <==> a.contains(x));
            assert(b.to_set().contains(x) <==> b.contains(x));
        }
        lemma_sorted_canonical(a, b, str_order());
    }

    /// The justification of an initial fact: rule `axiom`, no parents.
    pub fn of_axiom() -> (d: Derivation)
        ensures
            d@ == (DerivationView { rule: "axiom"@, parents: Set::empty() }),
    {
        let d = Derivation { rule: String::from_str("axiom"), parents: Vec::new() };
        assert(views(d.parents@).to_set() =~= Set::empty());
        d
    }

    /// A justification by `rule` from the facts named in `parents`, which may
    /// come in any order and with repetitions.
    pub fn new(rule: &str, parents: Vec<String>) -> (d: Derivation)
        ensures
            d@ == (DerivationView { rule: rule@, parents: views(parents@).to_set() }),
    {
        let mut sorted: Vec<String> = Vec::new();
        let n = parents.len();
        let mut i: usize = 0;
        assert(views(sorted@).to_set() =~= views(parents@.subrange(0, 0)).to_set());
        while i < n
            invariant
                n == parents@.len(),
                i <= n,
                strictly_sorted(views(sorted@), str_order()),
                views(sorted@).to_set() == views(parents@.subrange(0, i as int)).to_set(),
            decreases n - i,
        {
            let ghost prev = views(parents@.subrange(0, i as int));
            insert_sorted(&mut sorted, parents[i].clone());
            proof {
                let next = views(parents@.subrange(0, i + 1));
                assert(next =~= prev.push(parents@[i as int]@));
                assert(next.to_set() =~= prev.to_set().insert(parents@[i as int]@)) by {
                    assert forall|x: Seq<char>| next.contains(x) <==> (prev.contains(x) || x
                        == parents@[i as int]@) by {
                        if next.contains(x) {
                            let p = choose|p: int| 0 <= p < next.len() && next[p] == x;
                            if p < i {
                                assert(prev[p] == x);
                            }
                        }
                        if prev.contains(x) {
                            let p = choose|p: int| 0 <= p < prev.len() && prev[p] == x;
                            assert(next[p] == x);
                        }
                        if x == parents@[i as int]@ {
                            assert(next[i as int] == x);
                        }
                    }
                }
            }
            i += 1;
        }
        assert(parents@.subrange(0, n as int) =~= parents@);
        Derivation { rule: String::from_str(rule), parents: sorted }
    }

    /// Compares two derivations by rule name, then by parent list.
    pub fn compare(&self, other: &Derivation) -> (o: Order)
        ensures
            (o == Order::Less) == derivation_lt(self.key(), other.key()),
            (o == Order::Equal) == (self.key() == other.key()),
            (o == Order::Greater) == derivation_lt(other.key(), self.key()),
    {
        proof {
            lemma_derivation_order_strict();
            let a = self.key();
            let b = other.key();
            assert(!derivation_order()(a, a));
            assert(!derivation_order()(b, b));
            if derivation_order()(a, b) && derivation_order()(b, a) {
                assert(derivation_order()(a, a));
            }
        }
        match compare_str(self.rule.as_str(), other.rule.as_str()) {
            Order::Less => Order::Less,
            Order::Greater => Order::Greater,
            Order::Equal => compare_strs(&self.parents, &other.parents),
        }
    }
}

impl Clone for Derivation {
    fn clone(&self) -> (d: Derivation)
        ensures
            d.key() == self.key(),
            d@ == self@,
    {
        proof {
            use_type_invariant(self);
        }
        let mut parents: Vec<String> = Vec::new();
        let n = self.parents.len();
        let mut i: usize = 0;
        while i < n
            invariant
                n == self.parents@.len(),
                i <= n,
                parents@.len() == i,
                forall|k: int| 0 <= k < i ==> (#[trigger] parents@[k])@ == self.parents@[k]@,
            decreases n - i,
        {
            parents.push(self.parents[i].clone());
            i += 1;
        }
        assert(views(parents@) =~= views(self.parents@));
        Derivation { rule: self.rule.clone(), parents }
    }
}

/// The set of justifications known for one fact, in ascending order without
/// repetition.
#[derive(Debug)]
pub struct Provenance {
    pub(crate) derivations: Vec<Derivation>,
}

/// The keys of a list of derivations.
pub open spec fn keys(v: Seq<Derivation>) -> Seq<DerivationKey> {
    Seq::new(v.len(), |i: int| v[i].key())
}

/// The set of values of a list of derivations.
pub open spec fn values(v: Seq<Derivation>) -> Set<DerivationView> {
    Set::new(|d: DerivationView| exists|i: int| 0 <= i < v.len() && #[trigger] v[i]@ == d)
}

impl View for Provenance {
    type V = Set<DerivationView>;

    open(crate) spec fn view(&self) -> Set<DerivationView> {
        values(self.derivations@)
    }
}

impl Provenance {
    /// Every derivation is well formed, and they stand in strictly ascending
    /// order.
    #[verifier::type_invariant]
    pub open(crate) spec fn wf(&self) -> bool {
        &&& forall|i: int| 0 <= i < self.derivations.len() ==> #[trigger] self.derivations[i].wf()
        &&& strictly_sorted(keys(self.derivations@), derivation_order())
    }

    /// The bottom of the lattice, which no present fact carries.
    pub fn empty() -> (p: Provenance)
        ensures
            p@ == Set::<DerivationView>::empty(),
    {
        let p = Provenance { derivations: Vec::new() };
        assert(p@ =~= Set::<DerivationView>::empty());
        p
    }

    /// The provenance of an initial fact.
    pub fn of_axiom() -> (p: Provenance)
        ensures
            p@ == set![DerivationView { rule: "axiom"@, parents: Set::empty() }],
    {
        let mut p = Provenance::empty();
        p.insert(Derivation::of_axiom());
        p
    }

    /// The provenance of a fact justified once, by `rule` from `parents`.
    pub fn from_rule(rule: &str, parents: Vec<String>) -> (p: Provenance)
        ensures
            p@ == set![DerivationView { rule: rule@, parents: views(parents@).to_set() }],
    {
        let mut p = Provenance::empty();
        p.insert(Derivation::new(rule, parents));
        p
    }

    /// Adds one derivation. Tells whether the set grew.
    pub fn insert(&mut self, d: Derivation) -> (added: bool)
        ensures
            final(self)@ == old(self)@.insert(d@),
            added == !old(self)@.contains(d@),
    {
        proof {
            use_type_invariant(&*self);
            use_type_invariant(&d);
        }
        let ghost before = self.derivations@;
        let n = self.derivations.len();
        let mut i: usize = 0;
        let mut found = false;
        while i < n && !found
            invariant
                n == before.len(),
                i <= n,
                self.derivations@ == before,
                *self == *old(self),
                self.wf(),
                forall|k: int| 0 <= k < i ==> derivation_lt(#[trigger] before[k].key(), d.key()),
                found ==> i < n && derivation_lt(d.key(), before[i as int].key()),
            decreases n - i, (if found { 0int } else { 1int }),
        {
            match d.compare(&self.derivations[i]) {
                Order::Less => {
                    found = true;
                },
                Order::Equal => {
                    assert(before[i as int]@ == d@);
                    assert(self@ =~= old(self)@.insert(d@));
                    return false;
                },
                Order::Greater => {
                    i += 1;
                },
            }
        }
        let ghost after = before.insert(i as int, d);
        proof {
            lemma_derivation_order_strict();
            let kb = keys(before);
            let ka = keys(after);
            assert(ka =~= kb.insert(i as int, d.key()));
            assert forall|p: int, q: int| 0 <= p < q < ka.len() implies derivation_order()(
                #[trigger] ka[p],
                #[trigger] ka[q],
            ) by {
                if q < i {
                    assert(derivation_order()(kb[p], kb[q]));
                } else if q == i {
                    assert(derivation_lt(before[p].key(), d.key()));
                } else if p == i {
                    assert(derivation_order()(d.key(), kb[i as int]));
                    if q - 1 > i {
                        assert(derivation_order()(kb[i as int], kb[q - 1]));
                    }
                } else if p < i {
                    assert(derivation_order()(kb[p], kb[q - 1]));
                } else {
                    assert(derivation_order()(kb[p - 1], kb[q - 1]));
                }
            }
            assert forall|k: int| 0 <= k < after.len() implies #[trigger] after[k].wf() by {
                if k < i {
                    assert(before[k].wf());
                } else if k > i {
                    assert(before[k - 1].wf());
                }
            }
            assert forall|x: DerivationView| values(after).contains(x) <==> old(self)@.insert(
                d@,
            ).contains(x) by {
                if values(after).contains(x) {
                    let p = choose|p: int| 0 <= p < after.len() && #[trigger] after[p]@ == x;
                    if p < i {
                        assert(before[p]@ == x);
                    } else if p > i {
                        assert(before[p - 1]@ == x);
                    }
                }
                if old(self)@.contains(x) {
                    let p = choose|p: int| 0 <= p < before.len() && #[trigger] before[p]@ == x;
                    if p < i {
                        assert(after[p]@ == x);
                    } else {
                        assert(after[p + 1]@ == x);
                    }
                }
                if x == d@ {
                    assert(after[i as int]@ == x);
                }
            }
            assert(values(after) =~= old(self)@.insert(d@));
            if old(self)@.contains(d@) {
                let p = choose|p: int| 0 <= p < before.len() && #[trigger] before[p]@ == d@;
                before[p].lemma_key_determined(&d);
                assert(kb[p] == d.key());
                if p < i {
                    assert(derivation_order()(kb[p], d.key()));
                } else {
                    assert(derivation_order()(d.key(), kb[i as int]));
                    if p > i {
                        assert(derivation_order()(kb[i as int], kb[p]));
                    }
                    assert(derivation_order()(d.key(), kb[p]));
                }
                assert(false);
            }
        }
        let mut list: Vec<Derivation> = Vec::new();
        std::mem::swap(&mut list, &mut self.derivations);
        list.insert(i, d);
        self.derivations = list;
        true
    }

    /// Folds `other` into `self`: afterwards `self` is the union of the two.
    /// Tells whether `self` grew, that is, whether `other` held a derivation
    /// that `self` lacked.
    pub fn meet_mut(&mut self, other: Provenance) -> (changed: bool)
        ensures
            final(self)@ == old(self)@.union(other@),
            changed == !other@.subset_of(old(self)@),
    {
        let ghost all = other.derivations@;
        let mut rest = other.derivations;
        let mut changed = false;
        while rest.len() > 0
            invariant
                rest@ == all.subrange(0, rest@.len() as int),
                rest@.len() <= all.len(),
                self@ == old(self)@.union(values(all.subrange(rest@.len() as int, all.len() as int))),
                changed == !values(all.subrange(rest@.len() as int, all.len() as int)).subset_of(
                    old(self)@,
                ),
            decreases rest@.len(),
        {
            let ghost m = rest@.len() as int;
            let ghost done = values(all.subrange(m, all.len() as int));
            let d = rest.pop().unwrap();
            assert(d == all[m - 1]);
            let added = self.insert(d);
            if added {
                changed = true;
            }
            proof {
                let done2 = values(all.subrange(m - 1, all.len() as int));
                assert(done2 =~= done.insert(d@)) by {
                    let s1 = all.subrange(m, all.len() as int);
                    let s2 = all.subrange(m - 1, all.len() as int);
                    assert forall|x: DerivationView| done2.contains(x) <==> (done.contains(x) || x
                        == d@) by {
                        if done2.contains(x) {
                            let p = choose|p: int| 0 <= p < s2.len() && #[trigger] s2[p]@ == x;
                            if p > 0 {
                                assert(s1[p - 1]@ == x);
                            }
                        }
                        if done.contains(x) {
                            let p = choose|p: int| 0 <= p < s1.len() && #[trigger] s1[p]@ == x;
                            assert(s2[p + 1]@ == x);
                        }
                        if x == d@ {
                            assert(s2[0]@ == x);
                        }
                    }
                }
                assert(self@ =~= old(self)@.union(done2));
                assert(rest@ =~= all.subrange(0, m - 1));
            }
        }
        assert(all.subrange(0, all.len() as int) =~= all);
        changed
    }

    /// The same operation as `meet_mut`: in this lattice both fold a second
    /// set of derivations into the first.
    pub fn join_mut(&mut self, other: Provenance) -> (changed: bool)
        ensures
            final(self)@ == old(self)@.union(other@),
            changed == !other@.subset_of(old(self)@),
    {
        self.meet_mut(other)
    }

    /// The union of two provenances.
    pub fn meet(self, other: Provenance) -> (p: Provenance)
        ensures
            p@ == self@.union(other@),
    {
        let mut p = self;
        p.meet_mut(other);
        p
    }

    /// The union of two provenances.
    pub fn join(self, other: Provenance) -> (p: Provenance)
        ensures
            p@ == self@.union(other@),
    {
        self.meet(other)
    }
}

/// Sets of derivations in dictionary order of their ascending lists.
pub open spec fn provenance_lt(a: Seq<DerivationKey>, b: Seq<DerivationKey>) -> bool {
    lex_lt(a, b, derivation_order())
}

impl Provenance {
    /// The rule names and parent lists of the derivations, in order.
    pub open(crate) spec fn key_list(&self) -> Seq<DerivationKey> {
        keys(self.derivations@)
    }

    /// The list of keys is canonical and stands for the set.
    pub fn canonical(&self)
        ensures
            keys_canonical(self.key_list()),
            key_set(self.key_list()) == self@,
    {
        proof {
            use_type_invariant(self);
            lemma_key_set(*self);
        }
    }

    /// The derivations, in strictly ascending order.
    pub fn derivations(&self) -> (list: &Vec<Derivation>)
        ensures
            keys(list@) == self.key_list(),
            values(list@) == self@,
            keys_canonical(keys(list@)),
    {
        proof {
            use_type_invariant(self);
            lemma_key_set(*self);
        }
        &self.derivations
    }

    /// Compares two provenances as lists of derivations in ascending order,
    /// item by item.
    pub fn compare(&self, other: &Provenance) -> (o: Order)
        ensures
            (o == Order::Less) == provenance_lt(self.key_list(), other.key_list()),
            (o == Order::Equal) == (self.key_list() == other.key_list()),
            (o == Order::Greater) == provenance_lt(other.key_list(), self.key_list()),
    {
        let ghost a = keys(self.derivations@);
        let ghost b = keys(other.derivations@);
        proof {
            lemma_derivation_order_strict();
            lemma_lex_exclusive(a, b, derivation_order());
        }
        let la = self.derivations.len();
        let lb = other.derivations.len();
        let mut i: usize = 0;
        while i < la && i < lb
            invariant
                a == keys(self.derivations@),
                b == keys(other.derivations@),
                la == a.len(),
                lb == b.len(),
                i <= la,
                i <= lb,
                forall|k: int| 0 <= k < i ==> a[k] == b[k],
                !(provenance_lt(a, b) && provenance_lt(b, a)),
                provenance_lt(a, b) ==> a != b,
                provenance_lt(b, a) ==> a != b,
            decreases la - i,
        {
            match self.derivations[i].compare(&other.derivations[i]) {
                Order::Less => {
                    assert(lex_lt_at(a, b, derivation_order(), i as int));
                    return Order::Less;
                },
                Order::Greater => {
                    assert(lex_lt_at(b, a, derivation_order(), i as int));
                    return Order::Greater;
                },
                Order::Equal => {},
            }
            i += 1;
        }
        if la < lb {
            assert(lex_lt_at(a, b, derivation_order(), i as int));
            Order::Less
        } else if lb < la {
            assert(lex_lt_at(b, a, derivation_order(), i as int));
            Order::Greater
        } else {
            assert(a =~= b);
            Order::Equal
        }
    }
}

/// The derivation that a rule name and a list of parents stand for.
pub open spec fn key_view(k: DerivationKey) -> DerivationView {
    DerivationView { rule: k.0, parents: k.1.to_set() }
}

/// A list of derivations as a set, each with its parents as a set.
pub open spec fn key_set(ks: Seq<DerivationKey>) -> Set<DerivationView> {
    Set::new(|d: DerivationView| exists|i: int| 0 <= i < ks.len() && d == key_view(#[trigger] ks[i]))
}

/// The list is in strictly ascending order, and so is each list of parents
/// in it: it is the one list that stands for its set.
pub open spec fn keys_canonical(ks: Seq<DerivationKey>) -> bool {
    &&& strictly_sorted(ks, derivation_order())
    &&& forall|i: int| 0 <= i < ks.len() ==> strictly_sorted((#[trigger] ks[i]).1, str_order())
}

/// The set of a provenance is the set of its list of derivations, and the
/// list of a well-formed provenance is canonical.
pub proof fn lemma_key_set(p: Provenance)
    ensures
        key_set(p.key_list()) == p@,
        p.wf() ==> keys_canonical(p.key_list()),
{
    let ks = keys(p.derivations@);
    assert forall|d: DerivationView| key_set(ks).contains(d) <==> p@.contains(d) by {
        if key_set(ks).contains(d) {
            let i = choose|i: int| 0 <= i < ks.len() && d == key_view(#[trigger] ks[i]);
            assert(p.derivations@[i]@ == d);
        }
        if p@.contains(d) {
            let i = choose|i: int| 0 <= i < p.derivations@.len() && #[trigger] p.derivations@[i]@ == d;
            assert(ks[i] == p.derivations@[i].key());
        }
    }
    assert(key_set(ks) =~= p@);
    if p.wf() {
        assert forall|i: int| 0 <= i < ks.len() implies strictly_sorted(
            (#[trigger] ks[i]).1,
            str_order(),
        ) by {
            assert(p.derivations[i].wf());
        }
    }
}

/// Canonical lists that stand for the same set are the same list.
pub proof fn lemma_keys_canonical(a: Seq<DerivationKey>, b: Seq<DerivationKey>)
    requires
        keys_canonical(a),
        keys_canonical(b),
        key_set(a) == key_set(b),
    ensures
        a == b,
{
    lemma_derivation_order_strict();
    lemma_str_order_strict();
    assert forall|x: DerivationKey| a.contains(x) <==> b.contains(x) by {
        if a.contains(x) {
            let i = choose|i: int| 0 <= i < a.len() && a[i] == x;
            assert(key_set(a).contains(key_view(a[i])));
            assert(key_set(b).contains(key_view(x)));
            let j = choose|j: int| 0 <= j < b.len() && key_view(x) == key_view(#[trigger] b[j]);
            assert forall|y: Seq<char>| x.1.contains(y) <==> b[j].1.contains(y) by {
                assert(x.1.to_set().contains(y) <==> x.1.contains(y));
                assert(b[j].1.to_set().contains(y) <==> b[j].1.contains(y));
            }
            lemma_sorted_canonical(x.1, b[j].1, str_order());
            assert(b[j] == x);
        }
        if b.contains(x) {
            let i = choose|i: int| 0 <= i < b.len() && b[i] == x;
            assert(key_set(b).contains(key_view(b[i])));
            assert(key_set(a).contains(key_view(x)));
            let j = choose|j: int| 0 <= j < a.len() && key_view(x) == key_view(#[trigger] a[j]);
            assert forall|y: Seq<char>| x.1.contains(y) <==> a[j].1.contains(y) by {
                assert(x.1.to_set().contains(y) <==> x.1.contains(y));
                assert(a[j].1.to_set().contains(y) <==> a[j].1.contains(y));
            }
            lemma_sorted_canonical(x.1, a[j].1, str_order());
            assert(a[j] == x);
        }
    }
    lemma_sorted_canonical(a, b, derivation_order());
}

impl Clone for Provenance {
    fn clone(&self) -> (p: Provenance)
        ensures
            p.key_list() == self.key_list(),
            p@ == self@,
    {
        proof {
            use_type_invariant(self);
        }
        let mut derivations: Vec<Derivation> = Vec::new();
        let n = self.derivations.len();
        let mut i: usize = 0;
        while i < n
            invariant
                n == self.derivations@.len(),
                i <= n,
                derivations@.len() == i,
                forall|k: int|
                    0 <= k < i ==> (#[trigger] derivations@[k]).key() == self.derivations@[k].key(),
                forall|k: int| 0 <= k < i ==> (#[trigger] derivations@[k])@ == self.derivations@[k]@,
                forall|k: int| 0 <= k < i ==> (#[trigger] derivations@[k]).wf(),
                self.wf(),
            decreases n - i,
        {
            assert(self.derivations[i as int].wf());
            derivations.push(self.derivations[i].clone());
            i += 1;
        }
        proof {
            assert(keys(derivations@) =~= keys(self.derivations@));
        }
        let p = Provenance { derivations };
        proof {
            assert(keys(p.derivations@) =~= keys(self.derivations@));
            assert forall|x: DerivationView| p@.contains(x) <==> self@.contains(x) by {
                if p@.contains(x) {
                    let k = choose|k: int|
                        0 <= k < p.derivations@.len() && #[trigger] p.derivations@[k]@ == x;
                    assert(self.derivations@[k]@ == x);
                }
                if self@.contains(x) {
                    let k = choose|k: int|
                        0 <= k < self.derivations@.len() && #[trigger] self.derivations@[k]@ == x;
                    assert(p.derivations@[k]@ == x);
                }
            }
            assert(p@ =~= self@);
        }
        p
    }
}

} // verus!
