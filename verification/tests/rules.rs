use geodeduce::database::{DeductiveDatabase, DerivedFact};
use geodeduce::rule_base::{rule_base, RULE_COUNT};

fn s(x: &str) -> String {
    x.to_string()
}

fn find<'a>(rows: &'a [DerivedFact], args: &[&str]) -> Option<&'a DerivedFact> {
    rows.iter().find(|r| r.args.iter().map(|a| a.as_str()).collect::<Vec<_>>() == args)
}

fn has(rows: &[DerivedFact], args: &[&str]) -> bool {
    find(rows, args).is_some()
}

fn derived_by(rows: &[DerivedFact], args: &[&str], rule: &str, parents: &[&str]) -> bool {
    match find(rows, args) {
        Some(row) => row.provenance.derivations().iter().any(|d| {
            d.rule() == rule && d.parents().iter().map(|p| p.as_str()).collect::<Vec<_>>() == parents
        }),
        None => false,
    }
}

/// Points on one line: no triangle among them has an orientation.
fn on_a_line(db: &mut DeductiveDatabase, names: &[&str]) {
    for (i, n) in names.iter().enumerate() {
        db.add_point(i as i64, 0, s(n));
    }
}

fn no_row_by(rows: &[DerivedFact], rule: &str) -> bool {
    rows.iter().all(|r| r.provenance.derivations().iter().all(|d| d.rule() != rule))
}

fn right_triangles(db: &mut DeductiveDatabase, fy: i64) {
    db.add_point(0, 0, s("A"));
    db.add_point(4, 0, s("B"));
    db.add_point(0, 3, s("C"));
    db.add_point(10, 0, s("D"));
    db.add_point(14, 0, s("E"));
    db.add_point(10, fy, s("F"));
}

#[test]
fn rule_base_has_every_rule_once() {
    let rules = rule_base();
    assert_eq!(rules.len(), RULE_COUNT);
    assert_eq!(rules.len(), 37);
    let tags: Vec<&str> = rules.iter().map(|r| r.tag.as_str()).collect();
    assert_eq!(tags.iter().filter(|t| **t == "sym").count(), 8);
    for tag in [
        "col_para",
        "cyclic_eqangle",
        "midp_proj",
        "contri1_parts",
        "contri2_parts",
        "simtri1_parts",
        "simtri2_parts",
        "cong_trans",
        "para_trans",
        "para_angle",
        "alt_int",
        "pgram_cong",
        "col_eqangle",
        "pp_par",
        "pp_perp",
        "vert",
        "right_angle_eq",
        "inscribed_angle_thm",
        "thales_thm",
    ]
    .iter()
    {
        assert_eq!(tags.iter().filter(|t| *t == tag).count(), 1, "{}", tag);
    }
    for tag in ["aa_sim", "asa_cong", "sas_cong", "sss_cong", "ssa_right_cong"].iter() {
        assert_eq!(tags.iter().filter(|t| *t == tag).count(), 2, "{}", tag);
    }
    for r in rules.iter() {
        assert!(!r.body.is_empty());
        assert!(!r.heads.is_empty());
        assert!(r.orient.is_empty() || r.orient.len() == 6);
        for (v, o) in r.origin.iter().enumerate() {
            assert_eq!(r.body[o.0].vars[o.1], v);
        }
    }
}

#[test]
fn midpoint_gives_congruence_and_collinearity() {
    let mut db = DeductiveDatabase::new();
    on_a_line(&mut db, &["M", "A", "B"]);
    db.add_midp(s("M"), s("A"), s("B"));
    db.run();
    assert!(derived_by(&db.get_cong(), &["A", "M", "M", "B"], "midp_proj", &["midp(M,A,B)"]));
    assert!(derived_by(&db.get_col(), &["A", "M", "B"], "midp_proj", &["midp(M,A,B)"]));
    assert!(derived_by(&db.get_col(), &["B", "M", "A"], "sym", &["col(A,M,B)"]));
    let midp = db.get_midp();
    assert_eq!(midp.len(), 1);
    assert!(derived_by(&midp, &["M", "A", "B"], "axiom", &[]));
}

#[test]
fn concyclic_points_give_equal_inscribed_angles() {
    let mut db = DeductiveDatabase::new();
    on_a_line(&mut db, &["A", "B", "C", "D"]);
    db.add_cyclic(s("A"), s("B"), s("C"), s("D"));
    db.run();
    let eqangle = db.get_eqangle();
    assert!(derived_by(
        &eqangle,
        &["A", "D", "B", "A", "C", "B"],
        "cyclic_eqangle",
        &["cyclic(A,B,C,D)"]
    ));
    assert!(derived_by(
        &eqangle,
        &["D", "A", "C", "D", "B", "C"],
        "cyclic_eqangle",
        &["cyclic(A,B,C,D)"]
    ));
    assert_eq!(db.get_cyclic().len(), 24);
}

#[test]
fn parallel_lines_and_a_transversal() {
    let mut db = DeductiveDatabase::new();
    on_a_line(&mut db, &["A", "B", "C", "D"]);
    db.add_para(s("A"), s("B"), s("C"), s("D"));
    db.run();
    assert!(derived_by(
        &db.get_eqangle(),
        &["C", "A", "B", "A", "C", "D"],
        "para_angle",
        &["para(A,B,C,D)"]
    ));
}

#[test]
fn transversal_rule_needs_four_distinct_points() {
    let mut db = DeductiveDatabase::new();
    on_a_line(&mut db, &["A", "B", "C"]);
    db.add_para(s("A"), s("B"), s("A"), s("C"));
    db.run();
    assert!(has(&db.get_para(), &["A", "B", "A", "C"]));
    let eqangle = db.get_eqangle();
    assert!(no_row_by(&eqangle, "para_angle"));
    assert!(!has(&eqangle, &["A", "A", "B", "A", "A", "C"]));
}

#[test]
fn alternate_interior_angles() {
    let mut db = DeductiveDatabase::new();
    on_a_line(&mut db, &["A", "B", "C", "D", "E"]);
    db.add_para(s("A"), s("B"), s("C"), s("D"));
    db.add_col(s("A"), s("E"), s("C"));
    db.run();
    let eqangle = db.get_eqangle();
    assert!(derived_by(
        &eqangle,
        &["B", "A", "E", "D", "C", "E"],
        "alt_int",
        &["col(A,E,C)", "para(A,B,C,D)"]
    ));
    assert!(derived_by(
        &eqangle,
        &["E", "A", "B", "E", "C", "D"],
        "alt_int",
        &["col(A,E,C)", "para(A,B,C,D)"]
    ));
}

#[test]
fn parallelogram_has_congruent_sides() {
    let mut db = DeductiveDatabase::new();
    on_a_line(&mut db, &["A", "B", "C", "D"]);
    db.add_para(s("A"), s("B"), s("C"), s("D"));
    db.add_para(s("B"), s("C"), s("D"), s("A"));
    db.run();
    assert!(derived_by(
        &db.get_cong(),
        &["A", "B", "C", "D"],
        "pgram_cong",
        &["para(A,B,C,D)", "para(B,C,D,A)"]
    ));
}

#[test]
fn two_lines_through_a_point() {
    let mut db = DeductiveDatabase::new();
    on_a_line(&mut db, &["E", "A", "B", "C", "D"]);
    db.add_col(s("E"), s("A"), s("B"));
    db.add_col(s("E"), s("C"), s("D"));
    db.run();
    let eqangle = db.get_eqangle();
    let parents = ["col(E,A,B)", "col(E,C,D)"];
    assert!(derived_by(&eqangle, &["A", "E", "C", "B", "E", "D"], "col_eqangle", &parents));
    assert!(derived_by(&eqangle, &["A", "E", "D", "B", "E", "C"], "col_eqangle", &parents));
    assert!(derived_by(&eqangle, &["A", "E", "C", "A", "E", "D"], "col_eqangle", &parents));
    assert!(derived_by(&eqangle, &["A", "E", "C", "B", "E", "C"], "col_eqangle", &parents));
    assert!(derived_by(&eqangle, &["A", "E", "C", "B", "E", "D"], "vert", &["col(A,E,B)", "col(C,E,D)"]));
}

#[test]
fn two_lines_through_a_point_need_five_distinct_points() {
    let mut db = DeductiveDatabase::new();
    on_a_line(&mut db, &["E", "A", "B"]);
    db.add_col(s("E"), s("A"), s("B"));
    db.run();
    let eqangle = db.get_eqangle();
    for row in eqangle.iter() {
        for d in row.provenance.derivations().iter() {
            assert!(d.rule() != "col_eqangle");
        }
    }
}

#[test]
fn perpendiculars_to_one_line_are_parallel() {
    let mut db = DeductiveDatabase::new();
    on_a_line(&mut db, &["A", "B", "C", "D", "E", "F"]);
    db.add_perp(s("A"), s("B"), s("C"), s("D"));
    db.add_perp(s("E"), s("F"), s("C"), s("D"));
    db.run();
    assert!(derived_by(
        &db.get_para(),
        &["A", "B", "E", "F"],
        "pp_par",
        &["perp(A,B,C,D)", "perp(E,F,C,D)"]
    ));
}

#[test]
fn vertical_angles() {
    let mut db = DeductiveDatabase::new();
    on_a_line(&mut db, &["A", "B", "C", "D", "E"]);
    db.add_col(s("A"), s("B"), s("C"));
    db.add_col(s("D"), s("B"), s("E"));
    db.run();
    assert!(derived_by(
        &db.get_eqangle(),
        &["A", "B", "D", "C", "B", "E"],
        "vert",
        &["col(A,B,C)", "col(D,B,E)"]
    ));
}

#[test]
fn right_angles_are_equal() {
    let mut db = DeductiveDatabase::new();
    on_a_line(&mut db, &["A", "B", "C", "E"]);
    db.add_perp(s("A"), s("B"), s("B"), s("C"));
    db.add_perp(s("A"), s("E"), s("E"), s("B"));
    db.run();
    assert!(derived_by(
        &db.get_eqangle(),
        &["C", "B", "A", "B", "E", "A"],
        "right_angle_eq",
        &["perp(A,B,B,C)", "perp(A,E,E,B)"]
    ));
}

#[test]
fn right_angle_rule_needs_the_shared_vertex() {
    let mut db = DeductiveDatabase::new();
    on_a_line(&mut db, &["A", "B", "C", "E", "X", "Y"]);
    db.add_perp(s("A"), s("B"), s("X"), s("C"));
    db.add_perp(s("A"), s("E"), s("Y"), s("B"));
    db.run();
    let eqangle = db.get_eqangle();
    assert!(no_row_by(&eqangle, "right_angle_eq"));
    assert!(!has(&eqangle, &["C", "B", "A", "B", "E", "A"]));
}

#[test]
fn two_angles_give_direct_similarity() {
    let mut db = DeductiveDatabase::new();
    right_triangles(&mut db, 3);
    db.add_eqangle(s("B"), s("A"), s("C"), s("E"), s("D"), s("F"));
    db.add_eqangle(s("B"), s("C"), s("A"), s("E"), s("F"), s("D"));
    db.run();
    assert!(derived_by(
        &db.get_simtri1(),
        &["A", "B", "C", "D", "E", "F"],
        "aa_sim",
        &["eqangle(B,A,C,E,D,F)", "eqangle(B,C,A,E,F,D)"]
    ));
    assert!(!has(&db.get_simtri2(), &["A", "B", "C", "D", "E", "F"]));
    assert!(derived_by(
        &db.get_eqratio(),
        &["A", "B", "B", "C", "D", "E", "E", "F"],
        "simtri1_parts",
        &["simtri1(A,B,C,D,E,F)"]
    ));
    assert!(derived_by(
        &db.get_eqangle(),
        &["C", "A", "B", "F", "D", "E"],
        "simtri1_parts",
        &["simtri1(A,B,C,D,E,F)"]
    ));
}

#[test]
fn two_angles_give_reflected_similarity() {
    let mut db = DeductiveDatabase::new();
    right_triangles(&mut db, -3);
    db.add_eqangle(s("B"), s("A"), s("C"), s("F"), s("D"), s("E"));
    db.add_eqangle(s("B"), s("C"), s("A"), s("D"), s("F"), s("E"));
    db.run();
    assert!(derived_by(
        &db.get_simtri2(),
        &["A", "B", "C", "D", "E", "F"],
        "aa_sim",
        &["eqangle(B,A,C,F,D,E)", "eqangle(B,C,A,D,F,E)"]
    ));
    assert!(!has(&db.get_simtri1(), &["A", "B", "C", "D", "E", "F"]));
    assert!(derived_by(
        &db.get_eqangle(),
        &["A", "B", "C", "F", "E", "D"],
        "simtri2_parts",
        &["simtri2(A,B,C,D,E,F)"]
    ));
}

#[test]
fn angle_side_angle() {
    let mut db = DeductiveDatabase::new();
    right_triangles(&mut db, 3);
    db.add_eqangle(s("B"), s("A"), s("C"), s("E"), s("D"), s("F"));
    db.add_eqangle(s("C"), s("B"), s("A"), s("F"), s("E"), s("D"));
    db.add_cong(s("A"), s("B"), s("D"), s("E"));
    db.run();
    assert!(derived_by(
        &db.get_contri1(),
        &["A", "B", "C", "D", "E", "F"],
        "asa_cong",
        &["cong(A,B,D,E)", "eqangle(B,A,C,E,D,F)", "eqangle(C,B,A,F,E,D)"]
    ));
}

#[test]
fn angle_side_angle_reflected() {
    let mut db = DeductiveDatabase::new();
    right_triangles(&mut db, -3);
    db.add_eqangle(s("B"), s("A"), s("C"), s("F"), s("D"), s("E"));
    db.add_eqangle(s("C"), s("B"), s("A"), s("D"), s("E"), s("F"));
    db.add_cong(s("A"), s("B"), s("D"), s("E"));
    db.run();
    assert!(derived_by(
        &db.get_contri2(),
        &["A", "B", "C", "D", "E", "F"],
        "asa_cong",
        &["cong(A,B,D,E)", "eqangle(B,A,C,F,D,E)", "eqangle(C,B,A,D,E,F)"]
    ));
    assert!(!has(&db.get_contri1(), &["A", "B", "C", "D", "E", "F"]));
}

#[test]
fn side_angle_side() {
    let mut db = DeductiveDatabase::new();
    right_triangles(&mut db, 3);
    db.add_eqangle(s("B"), s("A"), s("C"), s("E"), s("D"), s("F"));
    db.add_cong(s("A"), s("C"), s("D"), s("F"));
    db.add_cong(s("A"), s("B"), s("D"), s("E"));
    db.run();
    assert!(derived_by(
        &db.get_contri1(),
        &["A", "B", "C", "D", "E", "F"],
        "sas_cong",
        &["cong(A,B,D,E)", "cong(A,C,D,F)", "eqangle(B,A,C,E,D,F)"]
    ));
    assert!(derived_by(
        &db.get_cong(),
        &["B", "C", "E", "F"],
        "contri1_parts",
        &["contri1(A,B,C,D,E,F)"]
    ));
}

#[test]
fn right_triangles_with_leg_and_hypotenuse() {
    let mut db = DeductiveDatabase::new();
    right_triangles(&mut db, 3);
    db.add_perp(s("A"), s("B"), s("A"), s("C"));
    db.add_perp(s("D"), s("E"), s("D"), s("F"));
    db.add_cong(s("A"), s("B"), s("D"), s("E"));
    db.add_cong(s("B"), s("C"), s("E"), s("F"));
    db.run();
    assert!(derived_by(
        &db.get_contri1(),
        &["A", "B", "C", "D", "E", "F"],
        "ssa_right_cong",
        &["cong(A,B,D,E)", "cong(B,C,E,F)", "perp(A,B,A,C)", "perp(D,E,D,F)"]
    ));
}

#[test]
fn inscribed_angle_theorem() {
    let mut db = DeductiveDatabase::new();
    on_a_line(&mut db, &["O", "A", "B", "C", "D"]);
    db.add_cong(s("O"), s("A"), s("O"), s("B"));
    db.add_cong(s("O"), s("C"), s("O"), s("B"));
    db.add_cong(s("O"), s("C"), s("O"), s("A"));
    db.add_perp(s("O"), s("B"), s("B"), s("D"));
    db.add_eqangle(s("A"), s("O"), s("C"), s("C"), s("O"), s("B"));
    db.run();
    assert!(derived_by(
        &db.get_eqangle(),
        &["A", "B", "C", "C", "B", "D"],
        "inscribed_angle_thm",
        &[
            "cong(O,A,O,B)",
            "cong(O,C,O,A)",
            "cong(O,C,O,B)",
            "eqangle(A,O,C,C,O,B)",
            "perp(O,B,B,D)"
        ]
    ));
}

#[test]
fn reflected_congruence_gives_parts() {
    let mut db = DeductiveDatabase::new();
    on_a_line(&mut db, &["A", "B", "C", "D", "E", "F"]);
    db.add_contri2(s("A"), s("B"), s("C"), s("D"), s("E"), s("F"));
    db.run();
    let parent = ["contri2(A,B,C,D,E,F)"];
    let cong = db.get_cong();
    assert!(derived_by(&cong, &["A", "B", "D", "E"], "contri2_parts", &parent));
    assert!(derived_by(&cong, &["B", "C", "E", "F"], "contri2_parts", &parent));
    assert!(derived_by(&cong, &["C", "A", "F", "D"], "contri2_parts", &parent));
    let eqangle = db.get_eqangle();
    assert!(derived_by(&eqangle, &["A", "B", "C", "F", "E", "D"], "contri2_parts", &parent));
    assert!(derived_by(&eqangle, &["B", "C", "A", "D", "F", "E"], "contri2_parts", &parent));
    assert!(derived_by(&eqangle, &["C", "A", "B", "E", "D", "F"], "contri2_parts", &parent));
}

#[test]
fn congruence_needs_an_orientation() {
    let mut db = DeductiveDatabase::new();
    on_a_line(&mut db, &["A", "B", "C", "D", "E", "F"]);
    db.add_cong(s("A"), s("B"), s("D"), s("E"));
    db.add_cong(s("B"), s("C"), s("E"), s("F"));
    db.add_cong(s("A"), s("C"), s("D"), s("F"));
    db.run();
    assert!(db.get_contri1().is_empty());
    assert!(db.get_contri2().is_empty());
    // Four forms of each of the fifteen segments with itself, and eight of
    // each axiom.
    assert_eq!(db.get_cong().len(), 60 + 24);
}

#[test]
fn congruence_needs_proper_triangles() {
    let mut db = DeductiveDatabase::new();
    db.add_point(0, 0, s("A"));
    db.add_point(1, 0, s("B"));
    db.add_point(2, 0, s("C"));
    db.run();
    assert!(db.get_contri1().is_empty());
    assert!(db.get_simtri1().is_empty());
    assert_eq!(db.get_cong().len(), 12);
    assert_eq!(db.get_para().len(), 12);
    assert_eq!(db.get_eqangle().len(), 6);
}

#[test]
fn trivial_statements_of_two_points() {
    let mut db = DeductiveDatabase::new();
    db.add_point(0, 0, s("A"));
    db.add_point(1, 0, s("B"));
    db.run();
    let cong = db.get_cong();
    assert_eq!(cong.len(), 4);
    assert!(derived_by(&cong, &["A", "B", "A", "B"], "rfl", &[]));
    assert!(derived_by(&cong, &["B", "A", "B", "A"], "rfl", &[]));
    assert!(derived_by(&cong, &["A", "B", "B", "A"], "sym", &["cong(A,B,A,B)"]));
    assert!(derived_by(&cong, &["A", "B", "A", "B"], "sym", &["cong(A,B,A,B)"]));
    assert!(derived_by(&cong, &["A", "B", "A", "B"], "cong_trans", &["cong(A,B,A,B)"]));
    assert!(!has(&cong, &["A", "A", "A", "A"]));
    let para = db.get_para();
    assert!(derived_by(&para, &["A", "B", "A", "B"], "rfl", &[]));
    assert!(db.get_eqangle().is_empty());
}

#[test]
fn trivial_angle_of_three_points() {
    let mut db = DeductiveDatabase::new();
    db.add_point(0, 0, s("A"));
    db.add_point(1, 0, s("B"));
    db.add_point(0, 1, s("C"));
    db.run();
    let eqangle = db.get_eqangle();
    assert_eq!(eqangle.len(), 6);
    assert!(derived_by(&eqangle, &["A", "B", "C", "A", "B", "C"], "rfl", &[]));
    assert!(derived_by(&eqangle, &["C", "B", "A", "C", "B", "A"], "rfl", &[]));
    assert!(!has(&eqangle, &["A", "B", "A", "A", "B", "A"]));
}

#[test]
fn side_angle_side_reflected() {
    let mut db = DeductiveDatabase::new();
    right_triangles(&mut db, -3);
    db.add_eqangle(s("B"), s("A"), s("C"), s("F"), s("D"), s("E"));
    db.add_cong(s("A"), s("C"), s("D"), s("F"));
    db.add_cong(s("A"), s("B"), s("D"), s("E"));
    db.run();
    assert!(derived_by(
        &db.get_contri2(),
        &["A", "B", "C", "D", "E", "F"],
        "sas_cong",
        &["cong(A,B,D,E)", "cong(A,C,D,F)", "eqangle(B,A,C,F,D,E)"]
    ));
    assert!(!has(&db.get_contri1(), &["A", "B", "C", "D", "E", "F"]));
}

#[test]
fn right_triangles_with_leg_and_hypotenuse_reflected() {
    let mut db = DeductiveDatabase::new();
    right_triangles(&mut db, -3);
    db.add_perp(s("A"), s("B"), s("A"), s("C"));
    db.add_perp(s("D"), s("E"), s("D"), s("F"));
    db.add_cong(s("A"), s("B"), s("D"), s("E"));
    db.add_cong(s("B"), s("C"), s("E"), s("F"));
    db.run();
    assert!(derived_by(
        &db.get_contri2(),
        &["A", "B", "C", "D", "E", "F"],
        "ssa_right_cong",
        &["cong(A,B,D,E)", "cong(B,C,E,F)", "perp(A,B,A,C)", "perp(D,E,D,F)"]
    ));
    assert!(!has(&db.get_contri1(), &["A", "B", "C", "D", "E", "F"]));
}

#[test]
fn right_triangle_rule_needs_the_right_angle_at_the_first_vertex() {
    let mut db = DeductiveDatabase::new();
    right_triangles(&mut db, 3);
    db.add_point(7, 7, s("X"));
    db.add_perp(s("A"), s("B"), s("X"), s("C"));
    db.add_perp(s("D"), s("E"), s("D"), s("F"));
    db.add_cong(s("A"), s("B"), s("D"), s("E"));
    db.add_cong(s("B"), s("C"), s("E"), s("F"));
    db.run();
    let contri1 = db.get_contri1();
    assert!(!has(&contri1, &["A", "B", "C", "D", "E", "F"]));
    // The second triangle has its right angle in place: it is congruent to
    // itself by the rule.
    assert!(derived_by(
        &contri1,
        &["D", "E", "F", "D", "E", "F"],
        "ssa_right_cong",
        &["cong(D,E,D,E)", "cong(E,F,E,F)", "perp(D,E,D,F)"]
    ));
}

#[test]
fn direct_congruence_gives_parts() {
    let mut db = DeductiveDatabase::new();
    on_a_line(&mut db, &["A", "B", "C", "D", "E", "F"]);
    db.add_contri1(s("A"), s("B"), s("C"), s("D"), s("E"), s("F"));
    db.run();
    let parent = ["contri1(A,B,C,D,E,F)"];
    let cong = db.get_cong();
    assert!(derived_by(&cong, &["A", "B", "D", "E"], "contri1_parts", &parent));
    assert!(derived_by(&cong, &["B", "C", "E", "F"], "contri1_parts", &parent));
    assert!(derived_by(&cong, &["C", "A", "F", "D"], "contri1_parts", &parent));
    let eqangle = db.get_eqangle();
    assert!(derived_by(&eqangle, &["A", "B", "C", "D", "E", "F"], "contri1_parts", &parent));
    assert!(derived_by(&eqangle, &["B", "C", "A", "E", "F", "D"], "contri1_parts", &parent));
    assert!(derived_by(&eqangle, &["C", "A", "B", "F", "D", "E"], "contri1_parts", &parent));
    assert!(!has(&eqangle, &["A", "B", "C", "F", "E", "D"]));
    assert_eq!(db.get_contri1().len(), 1);
}

#[test]
fn direct_similarity_gives_parts() {
    let mut db = DeductiveDatabase::new();
    on_a_line(&mut db, &["A", "B", "C", "D", "E", "F"]);
    db.add_simtri1(s("A"), s("B"), s("C"), s("D"), s("E"), s("F"));
    db.run();
    let parent = ["simtri1(A,B,C,D,E,F)"];
    let eqangle = db.get_eqangle();
    assert!(derived_by(&eqangle, &["A", "B", "C", "D", "E", "F"], "simtri1_parts", &parent));
    assert!(derived_by(&eqangle, &["B", "C", "A", "E", "F", "D"], "simtri1_parts", &parent));
    assert!(derived_by(&eqangle, &["C", "A", "B", "F", "D", "E"], "simtri1_parts", &parent));
    let eqratio = db.get_eqratio();
    assert!(derived_by(&eqratio, &["A", "B", "B", "C", "D", "E", "E", "F"], "simtri1_parts", &parent));
    assert!(derived_by(&eqratio, &["B", "C", "C", "A", "E", "F", "F", "D"], "simtri1_parts", &parent));
    assert!(derived_by(&eqratio, &["C", "A", "A", "B", "F", "D", "D", "E"], "simtri1_parts", &parent));
    assert!(!has(&db.get_cong(), &["A", "B", "D", "E"]));
    assert!(no_row_by(&db.get_cong(), "contri1_parts"));
}

#[test]
fn reflected_similarity_gives_parts() {
    let mut db = DeductiveDatabase::new();
    on_a_line(&mut db, &["A", "B", "C", "D", "E", "F"]);
    db.add_simtri2(s("A"), s("B"), s("C"), s("D"), s("E"), s("F"));
    db.run();
    let parent = ["simtri2(A,B,C,D,E,F)"];
    let eqangle = db.get_eqangle();
    assert!(derived_by(&eqangle, &["A", "B", "C", "F", "E", "D"], "simtri2_parts", &parent));
    assert!(derived_by(&eqangle, &["B", "C", "A", "D", "F", "E"], "simtri2_parts", &parent));
    assert!(derived_by(&eqangle, &["C", "A", "B", "E", "D", "F"], "simtri2_parts", &parent));
    let eqratio = db.get_eqratio();
    assert!(derived_by(&eqratio, &["A", "B", "B", "C", "D", "E", "E", "F"], "simtri2_parts", &parent));
    assert!(derived_by(&eqratio, &["B", "C", "C", "A", "E", "F", "F", "D"], "simtri2_parts", &parent));
    assert!(derived_by(&eqratio, &["C", "A", "A", "B", "F", "D", "D", "E"], "simtri2_parts", &parent));
    assert!(!has(&eqangle, &["A", "B", "C", "D", "E", "F"]));
}

#[test]
fn inscribed_angle_rule_needs_the_shared_centre() {
    let mut db = DeductiveDatabase::new();
    on_a_line(&mut db, &["O", "P", "A", "B", "C", "D"]);
    db.add_cong(s("O"), s("A"), s("P"), s("B"));
    db.add_cong(s("O"), s("C"), s("P"), s("B"));
    db.add_cong(s("O"), s("C"), s("P"), s("A"));
    db.add_perp(s("O"), s("B"), s("B"), s("D"));
    db.add_eqangle(s("A"), s("O"), s("C"), s("C"), s("O"), s("B"));
    db.run();
    assert!(!has(&db.get_eqangle(), &["A", "B", "C", "C", "B", "D"]));
}

#[test]
fn thales_needs_four_distinct_points_on_the_circle() {
    let mut db = DeductiveDatabase::new();
    on_a_line(&mut db, &["B", "R", "D", "O"]);
    db.add_cyclic(s("B"), s("R"), s("B"), s("D"));
    db.add_cong(s("B"), s("O"), s("R"), s("O"));
    db.add_cong(s("R"), s("O"), s("D"), s("O"));
    db.add_col(s("B"), s("O"), s("D"));
    db.run();
    assert!(!has(&db.get_perp(), &["B", "R", "R", "D"]));
}

#[test]
fn collinear_points_need_to_be_distinct_for_a_parallel() {
    let mut db = DeductiveDatabase::new();
    on_a_line(&mut db, &["A", "B"]);
    db.add_col(s("A"), s("B"), s("A"));
    db.run();
    assert!(no_row_by(&db.get_para(), "col_para"));
    assert_eq!(db.get_col().len(), 3);
}
