use geodeduce::context::{Context, Ground};
use geodeduce::engine::saturate;
use geodeduce::fact::Pred;
use geodeduce::orientation::Coord;
use geodeduce::provenance::Derivation;
use geodeduce::rule_base::rule_base;
use geodeduce::store::{fingerprint, fits, tuple_eq, Column, Store};

fn strs(xs: &[&str]) -> Vec<String> {
    xs.iter().map(|x| x.to_string()).collect()
}

#[test]
fn tuples_are_equal_item_by_item() {
    assert!(tuple_eq(&vec![1, 2, 3], &vec![1, 2, 3]));
    assert!(!tuple_eq(&vec![1, 2, 3], &vec![1, 2, 4]));
    assert!(!tuple_eq(&vec![1, 2, 3], &vec![1, 2]));
    assert!(tuple_eq(&vec![], &vec![]));
}

#[test]
fn a_new_store_is_empty() {
    let store = Store::new(4);
    for p in 0..13 {
        assert_eq!(store.len(p), 0);
    }
    assert_eq!(store.find(0, &vec![0, 1, 2]), None);
}

#[test]
fn insert_installs_a_new_tuple() {
    let mut store = Store::new(4);
    let col = Pred::Col.index();
    assert!(store.insert(col, vec![0, 1, 2], Derivation::of_axiom()));
    assert_eq!(store.len(col), 1);
    assert_eq!(store.find(col, &vec![0, 1, 2]), Some(0));
    assert_eq!(store.find(col, &vec![2, 1, 0]), None);
    assert_eq!(store.find(Pred::Midp.index(), &vec![0, 1, 2]), None);
    assert_eq!(store.provs[col][0].derivations().len(), 1);
    assert_eq!(store.provs[col][0].derivations()[0].rule(), "axiom");
}

#[test]
fn insert_folds_a_derivation_into_a_known_tuple() {
    let mut store = Store::new(4);
    let col = Pred::Col.index();
    assert!(store.insert(col, vec![0, 1, 2], Derivation::of_axiom()));
    assert!(store.insert(col, vec![2, 1, 0], Derivation::new("sym", strs(&["col(A,B,C)"]))));
    assert!(!store.insert(col, vec![0, 1, 2], Derivation::of_axiom()));
    assert!(store.insert(col, vec![0, 1, 2], Derivation::new("sym", strs(&["col(C,B,A)"]))));
    assert!(!store.insert(col, vec![0, 1, 2], Derivation::new("sym", strs(&["col(C,B,A)"]))));
    assert_eq!(store.len(col), 2);
    assert_eq!(store.rels[col], vec![vec![0, 1, 2], vec![2, 1, 0]]);
    assert_eq!(store.provs[col][0].derivations().len(), 2);
    assert_eq!(store.provs[col][1].derivations().len(), 1);
}

#[test]
fn saturate_over_symbols() {
    let ctx = Context {
        names: strs(&["A", "B", "C"]),
        coords: vec![Coord { x: 0, y: 0 }, Coord { x: 1, y: 0 }, Coord { x: 2, y: 0 }],
        rules: rule_base(),
    };
    let axioms = vec![Ground { pred: Pred::Sameclock, args: vec![0, 1, 2, 0, 1, 2] }];
    let store = saturate(&ctx, &axioms);
    assert_eq!(store.symbols, 3);
    let sameclock = Pred::Sameclock.index();
    assert_eq!(store.find(sameclock, &vec![0, 1, 2, 0, 1, 2]), Some(0));
    assert!(store.find(sameclock, &vec![0, 1, 2, 2, 0, 1]).is_some());
    assert!(store.find(sameclock, &vec![2, 1, 0, 2, 1, 0]).is_some());
    assert!(store.find(sameclock, &vec![0, 1, 2, 1, 2, 0]).is_some());
    assert!(store.find(sameclock, &vec![0, 1, 2, 0, 2, 1]).is_none());
    // Three points on a line: each segment with itself, four forms, and
    // each angle with itself.
    assert_eq!(store.len(Pred::Cong.index()), 12);
    assert_eq!(store.len(Pred::Para.index()), 12);
    assert!(store.find(Pred::Para.index(), &vec![0, 1, 0, 1]).is_some());
    assert!(store.find(Pred::Para.index(), &vec![1, 0, 0, 1]).is_some());
    assert!(store.find(Pred::Para.index(), &vec![0, 1, 1, 2]).is_none());
    assert_eq!(store.len(Pred::Eqangle.index()), 6);
    assert_eq!(store.len(Pred::Col.index()), 0);
    assert_eq!(store.len(Pred::Simtri1.index()), 0);
}

#[test]
fn saturate_without_rules_keeps_the_seeds() {
    let ctx = Context {
        names: strs(&["A", "B"]),
        coords: vec![Coord { x: 0, y: 0 }, Coord { x: 1, y: 0 }],
        rules: Vec::new(),
    };
    let axioms = vec![
        Ground { pred: Pred::Col, args: vec![0, 1, 0] },
        Ground { pred: Pred::Col, args: vec![0, 1, 0] },
    ];
    let store = saturate(&ctx, &axioms);
    assert_eq!(store.len(Pred::Col.index()), 1);
    assert_eq!(store.len(Pred::Cong.index()), 2);
    assert_eq!(store.len(Pred::Para.index()), 2);
    assert_eq!(store.rels[Pred::Cong.index()], vec![vec![0, 1, 0, 1], vec![1, 0, 1, 0]]);
}

#[test]
fn a_pattern_asks_column_by_column() {
    let t = vec![4, 7, 7, 2];
    assert!(fits(&t, &vec![Column::Any, Column::Any, Column::Any, Column::Any]));
    assert!(fits(&t, &vec![Column::Is(4), Column::Any, Column::Same(1), Column::Is(2)]));
    assert!(!fits(&t, &vec![Column::Is(5), Column::Any, Column::Any, Column::Any]));
    assert!(!fits(&t, &vec![Column::Any, Column::Any, Column::Any, Column::Same(0)]));
    assert!(!fits(&t, &vec![Column::Any, Column::Any, Column::Any, Column::Same(9)]));
    assert!(fits(&t, &vec![]));
    assert!(fits(&t, &vec![Column::Is(4)]));
}

#[test]
fn scan_finds_the_fitting_tuples_in_order() {
    let mut store = Store::new(5);
    let cong = Pred::Cong.index();
    for t in [[0, 1, 2, 3], [0, 2, 0, 2], [1, 1, 2, 3], [0, 1, 4, 4], [0, 1, 0, 1]].iter() {
        assert!(store.insert(cong, t.to_vec(), Derivation::of_axiom()));
    }
    let any = vec![Column::Any, Column::Any, Column::Any, Column::Any];
    assert_eq!(store.scan(cong, &any, 0, 5), vec![0, 1, 2, 3, 4]);
    assert_eq!(store.scan(cong, &any, 2, 4), vec![2, 3]);
    assert_eq!(store.scan(cong, &any, 3, 3), Vec::<usize>::new());
    let first = vec![Column::Is(0), Column::Is(1), Column::Any, Column::Any];
    assert_eq!(store.scan(cong, &first, 0, 5), vec![0, 3, 4]);
    assert_eq!(store.scan(cong, &first, 1, 4), vec![3]);
    let twice = vec![Column::Any, Column::Any, Column::Same(0), Column::Same(1)];
    assert_eq!(store.scan(cong, &twice, 0, 5), vec![1, 4]);
    let none = vec![Column::Is(3), Column::Any, Column::Any, Column::Any];
    assert_eq!(store.scan(cong, &none, 0, 5), Vec::<usize>::new());
    assert_eq!(store.scan(Pred::Para.index(), &any, 0, 0), Vec::<usize>::new());
}

#[test]
fn fingerprints_of_tuples() {
    assert_eq!(fingerprint(&vec![]), 0);
    assert_eq!(fingerprint(&vec![5]), 5);
    assert_eq!(fingerprint(&vec![1, 2]), 1000005);
    assert_eq!(fingerprint(&vec![1, 2, 3]), 1000005 * 1000003 + 3);
    // 2^61 - 1 is the modulus: the step wraps around it.
    assert_eq!(fingerprint(&vec![2305843009213693951]), 0);
    assert_eq!(fingerprint(&vec![2305843009213693952, 7]), 1000010);
    assert_eq!(fingerprint(&vec![3, 1, 2]), fingerprint(&vec![3, 1, 2]));
    assert!(fingerprint(&vec![3, 1, 2]) != fingerprint(&vec![1, 3, 2]));
}

#[test]
fn scan_by_a_symbol_in_any_column() {
    let mut store = Store::new(6);
    let cong = Pred::Cong.index();
    for t in [[0, 1, 2, 3], [5, 1, 0, 3], [0, 2, 2, 3], [4, 1, 2, 5], [0, 1, 2, 3], [3, 3, 3, 3]].iter() {
        store.insert(cong, t.to_vec(), Derivation::of_axiom());
    }
    // The fifth tuple is the first again: five places.
    assert_eq!(store.len(cong), 5);
    let third = vec![Column::Any, Column::Any, Column::Is(2), Column::Any];
    assert_eq!(store.scan(cong, &third, 0, 5), vec![0, 2, 3]);
    assert_eq!(store.scan(cong, &third, 1, 3), vec![2]);
    assert_eq!(store.scan(cong, &third, 3, 3), Vec::<usize>::new());
    let two = vec![Column::Any, Column::Is(1), Column::Any, Column::Is(3)];
    assert_eq!(store.scan(cong, &two, 0, 5), vec![0, 1]);
    let mixed = vec![Column::Is(3), Column::Same(0), Column::Same(1), Column::Same(2)];
    assert_eq!(store.scan(cong, &mixed, 0, 5), vec![4]);
    let absent = vec![Column::Any, Column::Any, Column::Any, Column::Is(4)];
    assert_eq!(store.scan(cong, &absent, 0, 5), Vec::<usize>::new());
    let short = vec![Column::Is(0)];
    assert_eq!(store.scan(cong, &short, 0, 5), vec![0, 2]);
    let long = vec![Column::Any, Column::Any, Column::Any, Column::Any, Column::Is(9)];
    assert_eq!(store.scan(cong, &long, 0, 5), vec![0, 1, 2, 3, 4]);
    for v in 0..6 {
        for c in 0..4 {
            let mut pattern = vec![Column::Any; 4];
            pattern[c] = Column::Is(v);
            let any = vec![Column::Any; 4];
            let want: Vec<usize> = store
                .scan(cong, &any, 0, 5)
                .into_iter()
                .filter(|i| store.rels[cong][*i][c] == v)
                .collect();
            assert_eq!(store.scan(cong, &pattern, 0, 5), want);
        }
    }
}
