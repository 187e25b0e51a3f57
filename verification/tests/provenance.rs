use geodeduce::fact::{fact_id, Pred};
use geodeduce::order::{compare_bytes, compare_str, compare_strs, Order};
use geodeduce::provenance::{insert_sorted, is_ascending, Derivation, Provenance};

fn s(x: &str) -> String {
    x.to_string()
}

fn strs(xs: &[&str]) -> Vec<String> {
    xs.iter().map(|x| x.to_string()).collect()
}

#[test]
fn bytes_compare_in_dictionary_order() {
    assert_eq!(compare_bytes(b"abc", b"abd"), Order::Less);
    assert_eq!(compare_bytes(b"abd", b"abc"), Order::Greater);
    assert_eq!(compare_bytes(b"ab", b"abc"), Order::Less);
    assert_eq!(compare_bytes(b"abc", b"ab"), Order::Greater);
    assert_eq!(compare_bytes(b"", b""), Order::Equal);
    assert_eq!(compare_bytes(b"", b"a"), Order::Less);
    assert_eq!(compare_bytes(b"abc", b"abc"), Order::Equal);
    assert_eq!(compare_bytes(&[0x7f], &[0x80]), Order::Less);
}

#[test]
fn strings_compare_by_code_point() {
    assert_eq!(compare_str("col(A,B,C)", "cong(A,B,C,D)"), Order::Less);
    assert_eq!(compare_str("B", "A"), Order::Greater);
    assert_eq!(compare_str("A", "A"), Order::Equal);
    assert_eq!(compare_str("Z", "a"), Order::Less);
    assert_eq!(compare_str("z", "\u{e9}"), Order::Less);
    assert_eq!(compare_str("\u{e9}", "\u{4e2d}"), Order::Less);
}

#[test]
fn string_lists_compare_item_by_item() {
    assert_eq!(compare_strs(&strs(&["a", "b"]), &strs(&["a", "c"])), Order::Less);
    assert_eq!(compare_strs(&strs(&["a"]), &strs(&["a", "a"])), Order::Less);
    assert_eq!(compare_strs(&strs(&["b"]), &strs(&["a", "z"])), Order::Greater);
    assert_eq!(compare_strs(&strs(&[]), &strs(&[])), Order::Equal);
    assert_eq!(compare_strs(&strs(&["ab", "c"]), &strs(&["ab", "c"])), Order::Equal);
}

#[test]
fn insert_sorted_keeps_order_and_drops_repeats() {
    let mut v: Vec<String> = Vec::new();
    insert_sorted(&mut v, s("m"));
    insert_sorted(&mut v, s("a"));
    insert_sorted(&mut v, s("z"));
    insert_sorted(&mut v, s("m"));
    insert_sorted(&mut v, s("b"));
    assert_eq!(v, strs(&["a", "b", "m", "z"]));
}

#[test]
fn fact_id_is_name_and_arguments_in_order() {
    assert_eq!(fact_id("col", &strs(&["A", "B", "C"])), "col(A,B,C)");
    assert_eq!(fact_id("col", &strs(&["C", "B", "A"])), "col(C,B,A)");
    assert_eq!(fact_id("p", &strs(&[])), "p()");
    assert_eq!(fact_id("p", &strs(&["x"])), "p(x)");
    assert_eq!(
        fact_id(Pred::Eqratio.name(), &strs(&["a", "b", "c", "d", "e", "f", "g", "h"])),
        "eqratio(a,b,c,d,e,f,g,h)"
    );
}

#[test]
fn predicate_names_arities_and_indices() {
    let all = [
        (Pred::Col, "col", 3),
        (Pred::Para, "para", 4),
        (Pred::Perp, "perp", 4),
        (Pred::Cong, "cong", 4),
        (Pred::Eqangle, "eqangle", 6),
        (Pred::Cyclic, "cyclic", 4),
        (Pred::Sameclock, "sameclock", 6),
        (Pred::Midp, "midp", 3),
        (Pred::Contri1, "contri1", 6),
        (Pred::Contri2, "contri2", 6),
        (Pred::Simtri1, "simtri1", 6),
        (Pred::Simtri2, "simtri2", 6),
        (Pred::Eqratio, "eqratio", 8),
    ];
    for (i, (p, name, arity)) in all.iter().enumerate() {
        assert_eq!(p.name(), *name);
        assert_eq!(p.arity(), *arity);
        assert_eq!(p.index(), i);
        assert_eq!(Pred::from_index(i), *p);
    }
}

#[test]
fn derivation_of_an_axiom_has_no_parents() {
    let d = Derivation::of_axiom();
    assert_eq!(d.rule(), "axiom");
    assert!(d.parents().is_empty());
}

#[test]
fn derivation_sorts_its_parents_and_drops_repeats() {
    let d = Derivation::new("cong_trans", strs(&["cong(B,C,C,A)", "cong(A,B,B,C)", "cong(B,C,C,A)"]));
    assert_eq!(d.rule(), "cong_trans");
    assert_eq!(*d.parents(), strs(&["cong(A,B,B,C)", "cong(B,C,C,A)"]));
}

#[test]
fn derivations_compare_by_rule_then_parents() {
    let a = Derivation::new("aa", strs(&["z"]));
    let b = Derivation::new("ab", strs(&["a"]));
    let c = Derivation::new("ab", strs(&["a", "b"]));
    let d = Derivation::new("ab", strs(&["b", "a"]));
    assert_eq!(a.compare(&b), Order::Less);
    assert_eq!(b.compare(&a), Order::Greater);
    assert_eq!(b.compare(&c), Order::Less);
    assert_eq!(c.compare(&d), Order::Equal);
    assert_eq!(c.clone().compare(&c), Order::Equal);
}

#[test]
fn provenance_of_an_axiom() {
    let p = Provenance::of_axiom();
    assert_eq!(p.derivations().len(), 1);
    assert_eq!(p.derivations()[0].rule(), "axiom");
    assert!(p.derivations()[0].parents().is_empty());
}

#[test]
fn provenance_from_rule() {
    let p = Provenance::from_rule("sym", strs(&["col(A,B,C)"]));
    assert_eq!(p.derivations().len(), 1);
    assert_eq!(p.derivations()[0].rule(), "sym");
    assert_eq!(*p.derivations()[0].parents(), strs(&["col(A,B,C)"]));
}

#[test]
fn insert_tells_whether_the_set_grew() {
    let mut p = Provenance::empty();
    assert!(p.derivations().is_empty());
    assert!(p.insert(Derivation::new("sym", strs(&["b", "a"]))));
    assert!(!p.insert(Derivation::new("sym", strs(&["a", "b"]))));
    assert!(p.insert(Derivation::new("sym", strs(&["a"]))));
    assert!(p.insert(Derivation::of_axiom()));
    assert!(!p.insert(Derivation::of_axiom()));
    let rules: Vec<(&str, Vec<String>)> =
        p.derivations().iter().map(|d| (d.rule().as_str(), d.parents().clone())).collect();
    assert_eq!(
        rules,
        vec![("axiom", strs(&[])), ("sym", strs(&["a"])), ("sym", strs(&["a", "b"]))]
    );
}

#[test]
fn join_is_union_and_reports_change() {
    let mut a = Provenance::of_axiom();
    let b = Provenance::from_rule("sym", strs(&["col(A,B,C)"]));
    assert!(a.join_mut(b.clone()));
    assert_eq!(a.derivations().len(), 2);
    assert!(!a.join_mut(b.clone()));
    assert!(!a.meet_mut(Provenance::of_axiom()));
    assert!(!a.meet_mut(Provenance::empty()));
    assert_eq!(a.derivations().len(), 2);
    let mut c = Provenance::empty();
    assert!(c.meet_mut(a.clone()));
    assert_eq!(c.derivations().len(), 2);
    let mut d = b.clone();
    let mut both = Provenance::from_rule("vert", strs(&["x"]));
    assert!(both.insert(Derivation::new("sym", strs(&["col(A,B,C)"]))));
    assert!(d.meet_mut(both));
    assert_eq!(d.derivations().len(), 2);
}

#[test]
fn meet_and_join_by_value() {
    let a = Provenance::of_axiom();
    let b = Provenance::from_rule("sym", strs(&["col(A,B,C)"]));
    let m = a.clone().meet(b.clone());
    let j = b.join(a);
    assert_eq!(m.derivations().len(), 2);
    assert_eq!(j.derivations().len(), 2);
    assert_eq!(m.derivations()[0].rule(), "axiom");
    assert_eq!(m.derivations()[1].rule(), "sym");
    assert_eq!(j.derivations()[0].rule(), "axiom");
    assert_eq!(j.derivations()[1].rule(), "sym");
}

#[test]
fn provenances_compare_as_ascending_lists() {
    let given = Provenance::of_axiom();
    let sym = Provenance::from_rule("sym", strs(&["col(A,B,C)"]));
    let both = given.clone().join(sym.clone());
    assert_eq!(given.compare(&sym), Order::Less);
    assert_eq!(sym.compare(&given), Order::Greater);
    assert_eq!(given.compare(&both), Order::Less);
    assert_eq!(both.compare(&sym), Order::Less);
    assert_eq!(both.compare(&both.clone()), Order::Equal);
    assert_eq!(Provenance::empty().compare(&given), Order::Less);
    assert_eq!(Provenance::empty().compare(&Provenance::empty()), Order::Equal);
}

#[test]
fn ascending_means_each_before_the_next() {
    assert!(is_ascending(&strs(&[])));
    assert!(is_ascending(&strs(&["a"])));
    assert!(is_ascending(&strs(&["a", "b", "c"])));
    assert!(!is_ascending(&strs(&["a", "a"])));
    assert!(!is_ascending(&strs(&["a", "c", "b"])));
    assert!(is_ascending(Derivation::new("r", strs(&["b", "a", "b"])).parents()));
}
