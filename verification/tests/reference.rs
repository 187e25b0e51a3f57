use geodeduce::database::DeductiveDatabase;
use geodeduce::fact::{fact_id, Fact, Pred};
use geodeduce::orientation::{same_orientation, Coord, Triangle};
use geodeduce::rule::{Atom, Rule};
use geodeduce::rule_base::rule_base;
use std::collections::{BTreeMap, BTreeSet};

type Key = (usize, Vec<String>);
type Justification = (String, Vec<String>);
type Closure = BTreeMap<Key, BTreeSet<Justification>>;

fn instance(a: &Atom, b: &[String]) -> Key {
    (a.pred.index(), a.vars.iter().map(|v| b[*v].clone()).collect())
}

fn id_of(k: &Key) -> String {
    fact_id(Pred::from_index(k.0).name(), &k.1)
}

fn fires(r: &Rule, b: &[String], points: &BTreeMap<String, (i64, i64)>, facts: &Closure) -> bool {
    if !r.body.iter().all(|a| facts.contains_key(&instance(a, b))) {
        return false;
    }
    if !r.distinct.iter().all(|(x, y)| b[*x] != b[*y]) {
        return false;
    }
    if r.orient.len() == 6 {
        let mut c = Vec::new();
        for v in r.orient.iter() {
            match points.get(&b[*v]) {
                Some((x, y)) => c.push(Coord { x: *x, y: *y }),
                None => return false,
            }
        }
        let t1 = Triangle { a: c[0], b: c[1], c: c[2] };
        let t2 = Triangle { a: c[3], b: c[4], c: c[5] };
        if !same_orientation(&t1, &t2) {
            return false;
        }
    }
    true
}

fn record(facts: &mut Closure, k: Key, j: Justification) -> bool {
    facts.entry(k).or_default().insert(j)
}

/// The closure by the definition: every rule under every binding of its
/// variables to names, again and again until nothing is new.
fn by_definition(points: &[(i64, i64, &str)], axioms: &[(Pred, Vec<&str>)]) -> Closure {
    let mut pts: BTreeMap<String, (i64, i64)> = BTreeMap::new();
    for (x, y, n) in points.iter() {
        pts.entry(n.to_string()).or_insert((*x, *y));
    }
    let mut facts = Closure::new();
    for (p, args) in axioms.iter() {
        let args: Vec<String> = args.iter().map(|a| a.to_string()).collect();
        if args.iter().all(|a| pts.contains_key(a)) {
            record(&mut facts, (p.index(), args), ("axiom".to_string(), vec![]));
        }
    }
    let names: Vec<String> = pts.keys().cloned().collect();
    let point_names: Vec<String> = pts.keys().cloned().collect();
    for a in point_names.iter() {
        for b in point_names.iter() {
            if a == b {
                continue;
            }
            let pair = vec![a.clone(), b.clone(), a.clone(), b.clone()];
            record(&mut facts, (Pred::Cong.index(), pair.clone()), ("rfl".to_string(), vec![]));
            record(&mut facts, (Pred::Para.index(), pair), ("rfl".to_string(), vec![]));
            for c in point_names.iter() {
                if c == a || c == b {
                    continue;
                }
                let t = vec![a.clone(), b.clone(), c.clone(), a.clone(), b.clone(), c.clone()];
                record(&mut facts, (Pred::Eqangle.index(), t), ("rfl".to_string(), vec![]));
            }
        }
    }
    let rules = rule_base();
    loop {
        let mut changed = false;
        for r in rules.iter() {
            let nv = r.origin.len();
            let mut digits = vec![0usize; nv];
            if names.is_empty() {
                break;
            }
            loop {
                let b: Vec<String> = digits.iter().map(|d| names[*d].clone()).collect();
                if fires(r, &b, &pts, &facts) {
                    let parents: BTreeSet<String> =
                        r.body.iter().map(|a| id_of(&instance(a, &b))).collect();
                    let j = (r.tag.clone(), parents.into_iter().collect::<Vec<_>>());
                    for h in r.heads.iter() {
                        if record(&mut facts, instance(h, &b), j.clone()) {
                            changed = true;
                        }
                    }
                }
                let mut k = 0;
                while k < nv {
                    digits[k] += 1;
                    if digits[k] < names.len() {
                        break;
                    }
                    digits[k] = 0;
                    k += 1;
                }
                if k == nv {
                    break;
                }
            }
        }
        if !changed {
            return facts;
        }
    }
}

fn by_library(points: &[(i64, i64, &str)], axioms: &[(Pred, Vec<&str>)]) -> Closure {
    let mut db = DeductiveDatabase::new();
    for (x, y, n) in points.iter() {
        db.add_point(*x, *y, n.to_string());
    }
    for (p, args) in axioms.iter() {
        db.add_axiom(Fact { pred: *p, args: args.iter().map(|a| a.to_string()).collect() });
    }
    db.run();
    let mut facts = Closure::new();
    for p in 0..13 {
        for row in db.get_derived(Pred::from_index(p)).iter() {
            let js: BTreeSet<Justification> = row
                .provenance
                .derivations()
                .iter()
                .map(|d| (d.rule().clone(), d.parents().clone()))
                .collect();
            assert_eq!(js.len(), row.provenance.derivations().len());
            assert!(facts.insert((p, row.args.clone()), js).is_none());
        }
    }
    facts
}

fn agree(points: &[(i64, i64, &str)], axioms: &[(Pred, Vec<&str>)]) -> usize {
    let want = by_definition(points, axioms);
    let got = by_library(points, axioms);
    assert_eq!(got.len(), want.len());
    assert!(got == want);
    got.len()
}

/// A small generator of numbers, the same on every run.
struct Stream(u64);

impl Stream {
    fn next(&mut self, bound: usize) -> usize {
        self.0 = self.0.wrapping_mul(6364136223846793005).wrapping_add(1442695040888963407);
        ((self.0 >> 33) as usize) % bound
    }
}

fn drawn(seed: u64, count: usize) -> Vec<(Pred, Vec<&'static str>)> {
    let names = ["A", "B", "C", "D"];
    let mut s = Stream(seed);
    let mut axioms = Vec::new();
    for _ in 0..count {
        let p = Pred::from_index(s.next(13));
        let args: Vec<&'static str> = (0..p.arity()).map(|_| names[s.next(4)]).collect();
        axioms.push((p, args));
    }
    axioms
}

const SQUARE: [(i64, i64, &str); 4] = [(0, 0, "A"), (2, 0, "B"), (2, 2, "C"), (0, 2, "D")];

const LINE: [(i64, i64, &str); 4] = [(0, 0, "A"), (1, 0, "B"), (2, 0, "C"), (5, 0, "D")];

#[test]
fn agrees_with_the_definition_on_points_alone() {
    assert_eq!(agree(&[], &[]), 0);
    assert!(agree(&SQUARE[..3], &[]) > 0);
    assert!(agree(&SQUARE, &[]) > 0);
}

#[test]
fn agrees_with_the_definition_on_a_square() {
    let axioms = vec![
        (Pred::Para, vec!["A", "B", "D", "C"]),
        (Pred::Para, vec!["B", "C", "A", "D"]),
        (Pred::Perp, vec!["A", "B", "B", "C"]),
        (Pred::Cong, vec!["A", "B", "B", "C"]),
        (Pred::Col, vec!["A", "E", "C"]),
        (Pred::Midp, vec!["E", "A", "C"]),
    ];
    // D and E are no points here: the axioms over them give nothing.
    let n = agree(&SQUARE[..3], &axioms);
    assert!(n > 50);
    let with_e = [(0, 0, "A"), (2, 0, "B"), (2, 2, "C"), (1, 1, "E")];
    assert!(agree(&with_e, &axioms) > n);
}

#[test]
fn agrees_with_the_definition_without_points() {
    for seed in 0..8 {
        assert_eq!(agree(&[], &drawn(seed, 3)), 0);
    }
}

#[test]
fn agrees_with_the_definition_on_drawn_axioms_over_a_line() {
    for seed in 0..5 {
        agree(&LINE, &drawn(seed, 4));
    }
}

#[test]
fn agrees_with_the_definition_on_drawn_axioms_over_three_points() {
    for seed in 100..106 {
        agree(&SQUARE[..3], &drawn(seed, 5));
    }
}

#[test]
fn agrees_with_the_definition_on_drawn_axioms_over_four_points() {
    for seed in 200..203 {
        agree(&SQUARE, &drawn(seed, 4));
    }
}
