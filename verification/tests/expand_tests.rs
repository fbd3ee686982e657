use wui::builder::WidgetDef;
use wui::builder::build_widget_tree;
use wui::builder::resolve;
use wui::registry::Registry;

fn arg<'a>(args: &'a [(String, String)], key: &str) -> Option<&'a str> {
    args.iter().find(|p| p.0 == key).map(|p| p.1.as_str())
}

fn registry_of(units: &[(&str, &str)]) -> Registry {
    let owned: Vec<(String, String)> = units
        .iter()
        .map(|(n, s)| (n.to_string(), s.to_string()))
        .collect();
    let (reg, errors, _dups) = Registry::build(&owned);
    assert!(errors.is_empty());
    reg
}

fn expand(reg: &Registry, root: &str) -> WidgetDef {
    build_widget_tree(reg, root).unwrap().unwrap()
}

#[test]
fn argument_filtering_drops_undeclared_keys() {
    let reg = registry_of(&[
        ("tpl", "param a\nparam b\nLeaf { }"),
        ("main", "tpl { a = 1, c = 2 }"),
    ]);
    let tree = expand(&reg, "main");
    let node = &tree.children[0];
    assert_eq!(node.widget_type, "tpl");
    assert_eq!(arg(&node.args, "a"), Some("1"));
    assert_eq!(arg(&node.args, "c"), None);
    assert_eq!(arg(&node.args, "b"), None);
}

#[test]
fn omitted_parameter_takes_its_declared_default() {
    let reg = registry_of(&[
        ("tpl", "param a = \"fallback\"\nLeaf { }"),
        ("main", "tpl { }"),
    ]);
    let tree = expand(&reg, "main");
    let node = &tree.children[0];
    assert_eq!(arg(&node.args, "a"), Some("fallback"));
}

#[test]
fn template_children_precede_instance_children() {
    let reg = registry_of(&[
        ("tpl", "X { }"),
        ("main", "tpl { Y { } }"),
    ]);
    let tree = expand(&reg, "main");
    let node = &tree.children[0];
    assert_eq!(node.children.len(), 2);
    assert_eq!(node.children[0].widget_type, "X");
    assert_eq!(node.children[1].widget_type, "Y");
}

#[test]
fn default_id_is_the_template_name_and_an_explicit_id_overrides_it() {
    let reg = registry_of(&[
        ("tpl", "Leaf { }"),
        ("main", "tpl { }\ntpl { id = custom }"),
    ]);
    let tree = expand(&reg, "main");
    assert_eq!(tree.id.as_deref(), Some("main"));
    assert_eq!(tree.children[0].id.as_deref(), Some("tpl"));
    assert_eq!(tree.children[1].id.as_deref(), Some("custom"));
}

#[test]
fn self_referential_template_reports_a_cycle() {
    let reg = registry_of(&[("a", "a { }")]);
    let err = build_widget_tree(&reg, "a").unwrap().unwrap_err();
    let cycle: Vec<&str> = err.cycle.iter().map(|s| s.as_str()).collect();
    assert_eq!(cycle, ["a", "a"]);
}

#[test]
fn two_template_cycle_reports_the_path() {
    let reg = registry_of(&[("a", "b { }"), ("b", "a { }")]);
    let err = build_widget_tree(&reg, "a").unwrap().unwrap_err();
    let cycle: Vec<&str> = err.cycle.iter().map(|s| s.as_str()).collect();
    assert_eq!(cycle, ["a", "b", "a"]);
}

#[test]
fn unknown_reference_passes_through_as_a_leaf() {
    let reg = registry_of(&[("main", "Mystery { k = 1 }")]);
    let tree = expand(&reg, "main");
    let node = &tree.children[0];
    assert_eq!(node.widget_type, "Mystery");
    assert!(node.id.is_none());
    assert_eq!(arg(&node.args, "k"), Some("1"));
    assert!(node.children.is_empty());
}

#[test]
fn unregistered_root_expands_to_nothing() {
    let reg = registry_of(&[("main", "Leaf { }")]);
    assert!(build_widget_tree(&reg, "absent").is_none());
}

#[test]
fn instance_children_may_use_the_enclosing_template_again() {
    // a child supplied by the caller is not on the template's own
    // expansion path, so reusing the template side by side is no cycle
    let reg = registry_of(&[
        ("tpl", "X { }"),
        ("main", "tpl { tpl { } }"),
    ]);
    let tree = expand(&reg, "main");
    let outer = &tree.children[0];
    assert_eq!(outer.children.len(), 2);
    assert_eq!(outer.children[0].widget_type, "X");
    assert_eq!(outer.children[1].widget_type, "tpl");
    assert_eq!(outer.children[1].children[0].widget_type, "X");
}

#[test]
fn templates_expand_transitively_inside_bodies() {
    let reg = registry_of(&[
        ("inner", "Leaf { }"),
        ("outer", "inner { }"),
        ("main", "outer { }"),
    ]);
    let tree = expand(&reg, "main");
    let outer = &tree.children[0];
    assert_eq!(outer.widget_type, "outer");
    let inner = &outer.children[0];
    assert_eq!(inner.widget_type, "inner");
    assert_eq!(inner.id.as_deref(), Some("inner"));
    assert_eq!(inner.children[0].widget_type, "Leaf");
}

#[test]
fn three_template_cycle_reports_the_whole_loop() {
    let reg = registry_of(&[("a", "b { }"), ("b", "c { }"), ("c", "a { }")]);
    let err = build_widget_tree(&reg, "a").unwrap().unwrap_err();
    let cycle: Vec<&str> = err.cycle.iter().map(|s| s.as_str()).collect();
    assert_eq!(cycle, ["a", "b", "c", "a"]);
}

#[test]
fn label_prefers_the_id_over_the_widget_type() {
    let reg = registry_of(&[("main", "Leaf { }\nLeaf { id = lid }")]);
    let tree = expand(&reg, "main");
    assert_eq!(tree.label(), "main");
    assert_eq!(tree.children[0].label(), "Leaf");
    assert_eq!(tree.children[1].label(), "lid");
}

#[test]
fn resolve_expands_a_parsed_instance_directly() {
    let reg = registry_of(&[("tpl", "param a\nX { }")]);
    let unit = wui::parser::parse_template("tpl { a = 7, id = here }", "u").unwrap();
    let node = resolve(&unit.body[0], &reg).unwrap();
    assert_eq!(node.widget_type, "tpl");
    assert_eq!(node.id.as_deref(), Some("here"));
    assert_eq!(arg(&node.args, "a"), Some("7"));
    assert_eq!(node.children[0].widget_type, "X");
}

#[test]
fn card_scenario_resolves_title_onto_the_card_node() {
    let reg = registry_of(&[
        ("card", "param title = \"Untitled\"\nFrame { Label { text = title } }"),
        ("main", "card { title = \"Hello\" }"),
    ]);
    let tree = expand(&reg, "main");
    assert_eq!(tree.widget_type, "main");
    let card = &tree.children[0];
    assert_eq!(card.widget_type, "card");
    assert_eq!(card.id.as_deref(), Some("card"));
    assert_eq!(arg(&card.args, "title"), Some("Hello"));
    let frame = &card.children[0];
    assert_eq!(frame.widget_type, "Frame");
    let label = &frame.children[0];
    assert_eq!(label.widget_type, "Label");
    assert_eq!(arg(&label.args, "text"), Some("title"));
}
