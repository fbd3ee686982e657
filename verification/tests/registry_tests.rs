use wui::registry::Registry;

fn units(list: &[(&str, &str)]) -> Vec<(String, String)> {
    list.iter().map(|(n, s)| (n.to_string(), s.to_string())).collect()
}

#[test]
fn one_bad_unit_does_not_abort_the_batch() {
    let us = units(&[
        ("good_one", "Leaf { }"),
        ("broken", "Frame {"),
        ("good_two", "param a\nBox { }"),
    ]);
    let (reg, errors, dups) = Registry::build(&us);
    assert_eq!(reg.len(), 2);
    assert!(reg.get("good_one").is_some());
    assert!(reg.get("good_two").is_some());
    assert!(reg.get("broken").is_none());
    assert_eq!(errors.len(), 1);
    assert_eq!(errors[0].unit, "broken");
    assert!(dups.is_empty());
}

#[test]
fn later_unit_of_the_same_name_wins_and_is_reported() {
    let us = units(&[
        ("tpl", "X { }"),
        ("tpl", "Y { }"),
    ]);
    let (reg, errors, dups) = Registry::build(&us);
    assert!(errors.is_empty());
    assert_eq!(reg.len(), 1);
    assert_eq!(dups, ["tpl"]);
    let w = reg.get("tpl").unwrap();
    assert_eq!(w.body[0].widget, "Y");
}

#[test]
fn build_registers_under_the_unit_name() {
    let us = units(&[("card", "param title\nFrame { }")]);
    let (reg, errors, _dups) = Registry::build(&us);
    assert!(errors.is_empty());
    let w = reg.get("card").unwrap();
    assert_eq!(w.name, "card");
    assert_eq!(w.params[0].name, "title");
}

#[test]
fn an_empty_batch_builds_an_empty_registry() {
    let (reg, errors, dups) = Registry::build(&Vec::new());
    assert_eq!(reg.len(), 0);
    assert!(errors.is_empty());
    assert!(dups.is_empty());
}

#[test]
fn insert_replaces_in_place() {
    let us = units(&[("a", "X { }"), ("b", "Y { }")]);
    let (mut reg, _e, _d) = Registry::build(&us);
    let w = wui::parser::parse_template("Z { }", "a").unwrap();
    reg.insert("a".to_string(), w);
    assert_eq!(reg.len(), 2);
    assert_eq!(reg.get("a").unwrap().body[0].widget, "Z");
    assert_eq!(reg.get("b").unwrap().body[0].widget, "Y");
}
