use geodeduce::database::{DeductiveDatabase, DerivedFact};
use geodeduce::fact::{fact_id, Pred};

fn s(x: &str) -> String {
    x.to_string()
}

fn all_preds() -> Vec<Pred> {
    (0..13).map(Pred::from_index).collect()
}

fn tuple_set(db: &DeductiveDatabase) -> Vec<String> {
    let mut out: Vec<String> = Vec::new();
    for p in all_preds() {
        for row in db.get_derived(p).iter() {
            out.push(fact_id(p.name(), &row.args));
        }
    }
    out.sort();
    out
}

fn with_provenance(db: &DeductiveDatabase) -> Vec<(String, Vec<(String, Vec<String>)>)> {
    let mut out = Vec::new();
    for p in all_preds() {
        for row in db.get_derived(p).iter() {
            let ds: Vec<(String, Vec<String>)> = row
                .provenance
                .derivations()
                .iter()
                .map(|d| (d.rule().clone(), d.parents().clone()))
                .collect();
            out.push((fact_id(p.name(), &row.args), ds));
        }
    }
    out.sort();
    out
}

fn thales_points(db: &mut DeductiveDatabase) {
    db.add_point(-1, 0, s("B"));
    db.add_point(0, 1, s("R"));
    db.add_point(0, -1, s("Y"));
    db.add_point(1, 0, s("D"));
    db.add_point(0, 0, s("O"));
}

fn thales_axioms(db: &mut DeductiveDatabase) {
    db.add_cyclic(s("B"), s("R"), s("Y"), s("D"));
    db.add_cong(s("B"), s("O"), s("R"), s("O"));
    db.add_cong(s("R"), s("O"), s("D"), s("O"));
    db.add_col(s("B"), s("O"), s("D"));
}

/// Points on one line: no triangle among them has an orientation.
fn on_a_line(db: &mut DeductiveDatabase, names: &[&str]) {
    for (i, n) in names.iter().enumerate() {
        db.add_point(i as i64, 0, s(n));
    }
}

fn has(rows: &[DerivedFact], args: &[String]) -> bool {
    rows.iter().any(|r| r.args == args)
}

fn pick(a: &[String], idx: &[usize]) -> Vec<String> {
    idx.iter().map(|i| a[*i].clone()).collect()
}

#[test]
fn derived_facts_are_closed_under_symmetry() {
    let mut db = DeductiveDatabase::new();
    thales_points(&mut db);
    thales_axioms(&mut db);
    db.add_sameclock(s("B"), s("R"), s("Y"), s("D"), s("O"), s("B"));
    db.add_eqratio(s("B"), s("R"), s("Y"), s("D"), s("O"), s("B"), s("R"), s("Y"));
    db.run();
    let col = db.get_col();
    assert!(!col.is_empty());
    for r in col.iter() {
        assert!(has(&col, &pick(&r.args, &[2, 1, 0])));
        assert!(has(&col, &pick(&r.args, &[0, 2, 1])));
    }
    for rows in [db.get_para(), db.get_perp(), db.get_cong()].iter() {
        assert!(!rows.is_empty());
        for r in rows.iter() {
            assert!(has(rows, &pick(&r.args, &[2, 3, 0, 1])));
            assert!(has(rows, &pick(&r.args, &[1, 0, 2, 3])));
            assert!(has(rows, &pick(&r.args, &[0, 1, 3, 2])));
        }
    }
    let eqangle = db.get_eqangle();
    assert!(!eqangle.is_empty());
    for r in eqangle.iter() {
        assert!(has(&eqangle, &pick(&r.args, &[3, 4, 5, 0, 1, 2])));
        assert!(has(&eqangle, &pick(&r.args, &[2, 1, 0, 5, 4, 3])));
    }
    let cyclic = db.get_cyclic();
    assert_eq!(cyclic.len(), 24);
    for r in cyclic.iter() {
        assert!(has(&cyclic, &pick(&r.args, &[1, 2, 3, 0])));
        assert!(has(&cyclic, &pick(&r.args, &[0, 2, 1, 3])));
    }
    let sameclock = db.get_sameclock();
    assert!(!sameclock.is_empty());
    for r in sameclock.iter() {
        assert!(has(&sameclock, &pick(&r.args, &[3, 4, 5, 0, 1, 2])));
        assert!(has(&sameclock, &pick(&r.args, &[0, 1, 2, 5, 3, 4])));
        assert!(has(&sameclock, &pick(&r.args, &[2, 1, 0, 5, 4, 3])));
    }
    let eqratio = db.get_eqratio();
    assert!(!eqratio.is_empty());
    for r in eqratio.iter() {
        assert!(has(&eqratio, &pick(&r.args, &[4, 5, 6, 7, 0, 1, 2, 3])));
        assert!(has(&eqratio, &pick(&r.args, &[2, 3, 0, 1, 6, 7, 4, 5])));
        assert!(has(&eqratio, &pick(&r.args, &[0, 1, 4, 5, 2, 3, 6, 7])));
    }
}

#[test]
fn more_axioms_give_more_facts() {
    let mut small = DeductiveDatabase::new();
    thales_points(&mut small);
    small.add_cyclic(s("B"), s("R"), s("Y"), s("D"));
    small.add_cong(s("B"), s("O"), s("R"), s("O"));
    small.run();
    let mut large = DeductiveDatabase::new();
    thales_points(&mut large);
    thales_axioms(&mut large);
    large.run();
    let a = tuple_set(&small);
    let b = tuple_set(&large);
    assert!(a.len() < b.len());
    for f in a.iter() {
        assert!(b.binary_search(f).is_ok(), "{}", f);
    }
    assert!(b.binary_search(&s("perp(B,R,R,D)")).is_ok());
    assert!(a.binary_search(&s("perp(B,R,R,D)")).is_err());
}

#[test]
fn every_parent_names_a_derived_fact() {
    let mut db = DeductiveDatabase::new();
    thales_points(&mut db);
    thales_axioms(&mut db);
    db.run();
    let facts = tuple_set(&db);
    let mut seen = 0;
    for (_, derivations) in with_provenance(&db).iter() {
        assert!(!derivations.is_empty());
        for (rule, parents) in derivations.iter() {
            if rule == "axiom" || rule == "rfl" {
                assert!(parents.is_empty());
            } else {
                assert!(!parents.is_empty());
            }
            for parent in parents.iter() {
                assert!(facts.binary_search(parent).is_ok(), "{}", parent);
                seen += 1;
            }
        }
    }
    assert!(seen > 0);
}

#[test]
fn derivations_and_parents_are_in_ascending_order() {
    let mut db = DeductiveDatabase::new();
    thales_points(&mut db);
    thales_axioms(&mut db);
    db.run();
    for (_, derivations) in with_provenance(&db).iter() {
        for w in derivations.windows(2) {
            assert!(w[0] < w[1]);
        }
        for (_, parents) in derivations.iter() {
            for w in parents.windows(2) {
                assert!(w[0] < w[1]);
            }
        }
    }
}

#[test]
fn no_fact_is_derived_twice() {
    let mut db = DeductiveDatabase::new();
    thales_points(&mut db);
    thales_axioms(&mut db);
    db.add_col(s("B"), s("O"), s("D"));
    db.run();
    let facts = tuple_set(&db);
    for w in facts.windows(2) {
        assert!(w[0] != w[1]);
    }
}

#[test]
fn derived_facts_as_axioms_give_the_same_facts() {
    let mut db = DeductiveDatabase::new();
    thales_points(&mut db);
    thales_axioms(&mut db);
    db.run();
    let first = tuple_set(&db);
    let mut again = DeductiveDatabase::new();
    thales_points(&mut again);
    for p in all_preds() {
        for row in db.get_derived(p).iter() {
            again.add_axiom(geodeduce::fact::Fact { pred: p, args: row.args.clone() });
        }
    }
    again.run();
    assert_eq!(tuple_set(&again), first);
    for (_, derivations) in with_provenance(&again).iter() {
        assert!(derivations.iter().any(|(rule, parents)| rule == "axiom" && parents.is_empty()));
    }
}

#[test]
fn a_second_run_changes_nothing() {
    let mut db = DeductiveDatabase::new();
    thales_points(&mut db);
    thales_axioms(&mut db);
    db.run();
    let first = with_provenance(&db);
    db.run();
    assert_eq!(with_provenance(&db), first);
}

#[test]
fn a_run_after_more_axioms_is_a_run_over_all() {
    let mut db = DeductiveDatabase::new();
    thales_points(&mut db);
    db.add_cyclic(s("B"), s("R"), s("Y"), s("D"));
    db.add_cong(s("B"), s("O"), s("R"), s("O"));
    db.run();
    db.add_cong(s("R"), s("O"), s("D"), s("O"));
    db.add_col(s("B"), s("O"), s("D"));
    db.run();
    let mut all = DeductiveDatabase::new();
    thales_points(&mut all);
    thales_axioms(&mut all);
    all.run();
    assert_eq!(with_provenance(&db), with_provenance(&all));
}

#[test]
fn order_and_repetition_of_axioms_do_not_matter() {
    let mut one = DeductiveDatabase::new();
    thales_points(&mut one);
    thales_axioms(&mut one);
    one.run();
    let mut two = DeductiveDatabase::new();
    two.add_col(s("B"), s("O"), s("D"));
    two.add_point(0, 0, s("O"));
    two.add_cong(s("R"), s("O"), s("D"), s("O"));
    two.add_point(1, 0, s("D"));
    two.add_point(0, -1, s("Y"));
    two.add_cong(s("B"), s("O"), s("R"), s("O"));
    two.add_cong(s("R"), s("O"), s("D"), s("O"));
    two.add_point(0, 1, s("R"));
    two.add_cyclic(s("B"), s("R"), s("Y"), s("D"));
    two.add_point(-1, 0, s("B"));
    two.run();
    assert_eq!(tuple_set(&one), tuple_set(&two));
    assert_eq!(with_provenance(&one), with_provenance(&two));
}

#[test]
fn an_empty_database_derives_nothing() {
    let mut db = DeductiveDatabase::new();
    db.run();
    assert!(tuple_set(&db).is_empty());
    assert!(db.get_aconst().is_empty());
    assert!(db.get_points().is_empty());
}

#[test]
fn nothing_is_derived_before_a_run() {
    let mut db = DeductiveDatabase::new();
    thales_points(&mut db);
    thales_axioms(&mut db);
    assert!(tuple_set(&db).is_empty());
    assert_eq!(db.get_points().len(), 5);
}

#[test]
fn a_point_is_added_once() {
    let mut db = DeductiveDatabase::new();
    db.add_point(1, 2, s("A"));
    db.add_point(3, 4, s("B"));
    db.add_point(5, 6, s("A"));
    assert_eq!(db.get_points(), vec![(1, 2, s("A")), (3, 4, s("B"))]);
    assert!(db.has_point(&s("A")));
    assert!(!db.has_point(&s("C")));
}

#[test]
fn constant_angles_pass_through_once() {
    let mut db = DeductiveDatabase::new();
    on_a_line(&mut db, &["A", "B", "C"]);
    db.add_aconst(s("A"), s("B"), s("C"), 1, 2);
    db.add_aconst(s("A"), s("B"), s("C"), 1, 3);
    db.add_aconst(s("A"), s("B"), s("C"), 1, 2);
    db.add_aconst(s("C"), s("B"), s("A"), -1, 2);
    assert!(db.get_aconst().is_empty());
    db.run();
    let rows = db.get_aconst();
    assert_eq!(rows.len(), 3);
    let got: Vec<(&str, &str, &str, i32, i32)> = rows
        .iter()
        .map(|r| (r.fact.a.as_str(), r.fact.b.as_str(), r.fact.c.as_str(), r.fact.m, r.fact.n))
        .collect();
    assert_eq!(got, vec![("A", "B", "C", 1, 2), ("A", "B", "C", 1, 3), ("C", "B", "A", -1, 2)]);
    for r in rows.iter() {
        assert_eq!(r.provenance.derivations().len(), 1);
        assert_eq!(r.provenance.derivations()[0].rule(), "axiom");
        assert!(r.provenance.derivations()[0].parents().is_empty());
    }
    // Nothing follows from a constant angle: only the trivial statements
    // about the three points are there.
    assert_eq!(tuple_set(&db).len(), 12 + 12 + 6);
}

#[test]
fn an_axiom_added_twice_is_one_fact() {
    let mut db = DeductiveDatabase::new();
    on_a_line(&mut db, &["M", "A", "B"]);
    db.add_midp(s("M"), s("A"), s("B"));
    db.add_midp(s("M"), s("A"), s("B"));
    db.run();
    let midp = db.get_midp();
    assert_eq!(midp.len(), 1);
    assert_eq!(midp[0].provenance.derivations().len(), 1);
}

#[test]
fn equal_ratios_have_eight_forms() {
    let mut db = DeductiveDatabase::new();
    on_a_line(&mut db, &["a", "b", "c", "d", "e", "f", "g", "h"]);
    db.add_eqratio(s("a"), s("b"), s("c"), s("d"), s("e"), s("f"), s("g"), s("h"));
    db.run();
    let mut got: Vec<String> = db.get_eqratio().iter().map(|r| r.args.concat()).collect();
    got.sort();
    assert_eq!(
        got,
        vec!["abcdefgh", "abefcdgh", "cdabghef", "cdghabef", "efabghcd", "efghabcd", "ghcdefab", "ghefcdab"]
    );
}

#[test]
fn an_axiom_of_the_wrong_length_is_not_taken() {
    let mut db = DeductiveDatabase::new();
    on_a_line(&mut db, &["M", "A", "B", "C", "D"]);
    db.add_axiom(geodeduce::fact::Fact { pred: Pred::Col, args: vec![s("A"), s("B")] });
    db.add_axiom(geodeduce::fact::Fact { pred: Pred::Midp, args: vec![s("M"), s("A"), s("B")] });
    db.add_axiom(geodeduce::fact::Fact {
        pred: Pred::Col,
        args: vec![s("A"), s("B"), s("C"), s("D")],
    });
    db.run();
    assert_eq!(db.get_midp().len(), 1);
    // Only what follows from the midpoint: the segment through it.
    assert_eq!(db.get_col().len(), 6);
    assert!(db.get_col().iter().all(|r| r.args.len() == 3 && r.args.contains(&s("M"))));
}

#[test]
fn every_derived_name_is_a_point() {
    let mut db = DeductiveDatabase::new();
    thales_points(&mut db);
    thales_axioms(&mut db);
    db.add_para(s("P"), s("Q"), s("B"), s("R"));
    db.add_aconst(s("B"), s("R"), s("D"), 1, 2);
    db.add_aconst(s("B"), s("P"), s("D"), 1, 2);
    db.run();
    let points: Vec<String> = db.get_points().iter().map(|p| p.2.clone()).collect();
    assert_eq!(points, vec![s("B"), s("R"), s("Y"), s("D"), s("O")]);
    let mut seen = 0;
    for p in all_preds() {
        for row in db.get_derived(p).iter() {
            assert_eq!(row.args.len(), p.arity());
            for a in row.args.iter() {
                assert!(points.contains(a), "{}", a);
                seen += 1;
            }
        }
    }
    assert!(seen > 0);
    assert!(!has(&db.get_para(), &[s("P"), s("Q"), s("B"), s("R")]));
    let angles = db.get_aconst();
    assert_eq!(angles.len(), 1);
    assert_eq!(angles[0].fact.b, "R");
}

#[test]
fn an_axiom_over_a_name_that_is_no_point_gives_nothing() {
    let mut db = DeductiveDatabase::new();
    db.add_col(s("A"), s("B"), s("C"));
    db.add_midp(s("M"), s("A"), s("B"));
    db.add_aconst(s("A"), s("B"), s("C"), 1, 2);
    db.run();
    assert!(db.get_points().is_empty());
    assert!(tuple_set(&db).is_empty());
    assert!(db.get_aconst().is_empty());
    // Two of the three names are points: still nothing of the axiom.
    db.add_point(0, 0, s("A"));
    db.add_point(1, 0, s("B"));
    db.run();
    assert!(db.get_col().is_empty());
    assert!(db.get_midp().is_empty());
    assert!(db.get_aconst().is_empty());
    assert_eq!(tuple_set(&db).len(), 4 + 4);
}

#[test]
fn an_axiom_is_taken_once_its_names_are_points() {
    let mut db = DeductiveDatabase::new();
    db.add_col(s("A"), s("B"), s("C"));
    db.add_aconst(s("A"), s("B"), s("C"), 1, 2);
    db.add_point(0, 0, s("A"));
    db.add_point(1, 1, s("B"));
    db.run();
    assert!(db.get_col().is_empty());
    db.add_point(2, 2, s("C"));
    db.run();
    assert_eq!(db.get_col().len(), 6);
    assert_eq!(db.get_aconst().len(), 1);
    let mut all = DeductiveDatabase::new();
    all.add_point(0, 0, s("A"));
    all.add_point(1, 1, s("B"));
    all.add_point(2, 2, s("C"));
    all.add_col(s("A"), s("B"), s("C"));
    all.run();
    assert_eq!(with_provenance(&db), with_provenance(&all));
}

#[test]
fn rows_come_in_ascending_order_of_their_arguments() {
    let mut db = DeductiveDatabase::new();
    thales_points(&mut db);
    thales_axioms(&mut db);
    db.run();
    let mut rows = 0;
    for p in all_preds() {
        let table = db.get_derived(p);
        for w in table.windows(2) {
            assert!(w[0].args < w[1].args);
        }
        rows += table.len();
    }
    assert!(rows > 100);
    let col: Vec<String> = db.get_col().iter().map(|r| r.args.concat()).collect();
    assert_eq!(col, vec!["BDO", "BOD", "DBO", "DOB", "OBD", "ODB"]);
}

#[test]
fn the_tables_do_not_depend_on_the_order_of_the_axioms() {
    let mut one = DeductiveDatabase::new();
    one.add_point(0, 0, s("A"));
    one.add_point(4, 0, s("B"));
    one.add_point(0, 3, s("C"));
    one.add_cong(s("A"), s("B"), s("B"), s("C"));
    one.add_col(s("A"), s("B"), s("C"));
    one.add_perp(s("A"), s("B"), s("A"), s("C"));
    one.run();
    let mut two = DeductiveDatabase::new();
    two.add_perp(s("A"), s("B"), s("A"), s("C"));
    two.add_point(0, 3, s("C"));
    two.add_col(s("A"), s("B"), s("C"));
    two.add_point(4, 0, s("B"));
    two.add_cong(s("A"), s("B"), s("B"), s("C"));
    two.add_col(s("A"), s("B"), s("C"));
    two.add_point(0, 0, s("A"));
    two.run();
    for p in all_preds() {
        let a = one.get_derived(p);
        let b = two.get_derived(p);
        assert_eq!(a.len(), b.len());
        for (x, y) in a.iter().zip(b.iter()) {
            assert_eq!(x.args, y.args);
            assert_eq!(x.provenance.derivations().len(), y.provenance.derivations().len());
            for (d, e) in x.provenance.derivations().iter().zip(y.provenance.derivations().iter()) {
                assert_eq!(d.rule(), e.rule());
                assert_eq!(d.parents(), e.parents());
            }
        }
    }
}
