use geodeduce::database::{DeductiveDatabase, DerivedFact};

fn s(x: &str) -> String {
    x.to_string()
}

fn find<'a>(rows: &'a [DerivedFact], args: &[&str]) -> Option<&'a DerivedFact> {
    rows.iter().find(|r| r.args.iter().map(|a| a.as_str()).collect::<Vec<_>>() == args)
}

fn has(rows: &[DerivedFact], args: &[&str]) -> bool {
    find(rows, args).is_some()
}

fn has_rule(row: &DerivedFact, rule: &str) -> bool {
    row.provenance.derivations().iter().any(|d| d.rule() == rule)
}

fn has_derivation(row: &DerivedFact, rule: &str, parents: &[&str]) -> bool {
    row.provenance.derivations().iter().any(|d| {
        d.rule() == rule && d.parents().iter().map(|p| p.as_str()).collect::<Vec<_>>() == parents
    })
}

#[test]
fn triangle_path_transitivity() {
    let mut db = DeductiveDatabase::new();
    db.add_point(0, 0, s("A"));
    db.add_point(10, 0, s("B"));
    db.add_point(5, 5, s("C"));
    db.add_para(s("A"), s("B"), s("A"), s("B"));
    db.add_cong(s("A"), s("B"), s("B"), s("C"));
    db.add_cong(s("B"), s("C"), s("C"), s("A"));
    db.run();
    let cong = db.get_cong();
    let row = find(&cong, &["A", "B", "C", "A"]).expect("cong(A,B,C,A)");
    assert!(has_derivation(row, "cong_trans", &["cong(A,B,B,C)", "cong(B,C,C,A)"]));
    assert!(has(&cong, &["C", "A", "A", "B"]));
    let para = db.get_para();
    let row = find(&para, &["A", "B", "A", "B"]).expect("para(A,B,A,B)");
    assert!(has_derivation(row, "axiom", &[]));
    assert!(has_derivation(row, "rfl", &[]));
}

#[test]
fn collinearity_symmetry() {
    let mut db = DeductiveDatabase::new();
    db.add_point(0, 0, s("A"));
    db.add_point(1, 1, s("B"));
    db.add_point(2, 2, s("C"));
    db.add_col(s("A"), s("B"), s("C"));
    db.run();
    let col = db.get_col();
    assert_eq!(col.len(), 6);
    let perms = [
        ["A", "B", "C"],
        ["A", "C", "B"],
        ["B", "A", "C"],
        ["B", "C", "A"],
        ["C", "A", "B"],
        ["C", "B", "A"],
    ];
    for perm in perms.iter() {
        let row = find(&col, perm).expect("permutation of col");
        assert!(has_rule(row, "sym"));
    }
    let given = find(&col, &["A", "B", "C"]).unwrap();
    assert!(has_derivation(given, "axiom", &[]));
    let para = db.get_para();
    let row = find(&para, &["A", "B", "A", "C"]).expect("para(A,B,A,C)");
    assert!(has_derivation(row, "col_para", &["col(A,B,C)"]));
}

fn six_points(db: &mut DeductiveDatabase, fy: i64) {
    db.add_point(0, 0, s("A"));
    db.add_point(3, 0, s("B"));
    db.add_point(0, 4, s("C"));
    db.add_point(10, 0, s("D"));
    db.add_point(13, 0, s("E"));
    db.add_point(10, fy, s("F"));
    db.add_cong(s("A"), s("B"), s("D"), s("E"));
    db.add_cong(s("B"), s("C"), s("E"), s("F"));
    db.add_cong(s("A"), s("C"), s("D"), s("F"));
}

#[test]
fn sss_congruence_and_parts() {
    let mut db = DeductiveDatabase::new();
    six_points(&mut db, 4);
    db.run();
    let contri1 = db.get_contri1();
    let row = find(&contri1, &["A", "B", "C", "D", "E", "F"]).expect("contri1(A,B,C,D,E,F)");
    assert!(has_derivation(row, "sss_cong", &["cong(A,B,D,E)", "cong(A,C,D,F)", "cong(C,B,F,E)"]));
    let eqangle = db.get_eqangle();
    for args in [
        ["A", "B", "C", "D", "E", "F"],
        ["B", "C", "A", "E", "F", "D"],
        ["C", "A", "B", "F", "D", "E"],
    ]
    .iter()
    {
        let row = find(&eqangle, args).expect("eqangle from congruent triangles");
        assert!(has_derivation(row, "contri1_parts", &["contri1(A,B,C,D,E,F)"]));
    }
    assert!(!has(&db.get_contri2(), &["A", "B", "C", "D", "E", "F"]));
}

#[test]
fn thales() {
    let mut db = DeductiveDatabase::new();
    db.add_point(-1, 0, s("B"));
    db.add_point(0, 1, s("R"));
    db.add_point(0, -1, s("Y"));
    db.add_point(1, 0, s("D"));
    db.add_point(0, 0, s("O"));
    db.add_cyclic(s("B"), s("R"), s("Y"), s("D"));
    db.add_cong(s("B"), s("O"), s("R"), s("O"));
    db.add_cong(s("R"), s("O"), s("D"), s("O"));
    db.add_col(s("B"), s("O"), s("D"));
    db.run();
    let perp = db.get_perp();
    let row = find(&perp, &["B", "R", "R", "D"]).expect("perp(B,R,R,D)");
    assert!(has_derivation(
        row,
        "thales_thm",
        &["col(B,O,D)", "cong(B,O,R,O)", "cong(R,O,D,O)", "cyclic(B,R,Y,D)"]
    ));
    assert!(has(&perp, &["R", "D", "B", "R"]));
    assert!(has(&perp, &["R", "B", "R", "D"]));
    assert!(has(&perp, &["B", "R", "D", "R"]));
}

#[test]
fn parallel_transitivity_and_perpendicular_propagation() {
    let mut db = DeductiveDatabase::new();
    for (i, n) in ["A", "B", "C", "D", "E", "F", "G", "H"].iter().enumerate() {
        db.add_point(i as i64, (i * i) as i64, s(n));
    }
    db.add_para(s("A"), s("B"), s("C"), s("D"));
    db.add_para(s("A"), s("B"), s("E"), s("F"));
    db.add_perp(s("A"), s("B"), s("G"), s("H"));
    db.run();
    let para = db.get_para();
    let row = find(&para, &["C", "D", "E", "F"]).expect("para(C,D,E,F)");
    assert!(has_derivation(row, "para_trans", &["para(A,B,C,D)", "para(A,B,E,F)"]));
    let perp = db.get_perp();
    let row = find(&perp, &["C", "D", "G", "H"]).expect("perp(C,D,G,H)");
    assert!(has_derivation(row, "pp_perp", &["para(A,B,C,D)", "perp(A,B,G,H)"]));
    let row = find(&perp, &["E", "F", "G", "H"]).expect("perp(E,F,G,H)");
    assert!(has_derivation(row, "pp_perp", &["para(A,B,E,F)", "perp(A,B,G,H)"]));
}

#[test]
fn no_similarity_under_opposite_orientation() {
    let mut db = DeductiveDatabase::new();
    six_points(&mut db, -4);
    db.run();
    let contri2 = db.get_contri2();
    let row = find(&contri2, &["A", "B", "C", "D", "E", "F"]).expect("contri2(A,B,C,D,E,F)");
    assert!(has_rule(row, "sss_cong"));
    assert!(!has(&db.get_contri1(), &["A", "B", "C", "D", "E", "F"]));
}
