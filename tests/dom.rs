use rust_dom_parser::dom::{ElementData, Node, NodeType};

fn element(attrs: &[(&str, &str)]) -> ElementData {
    ElementData::new(
        "div".to_string(),
        attrs.iter().map(|(k, v)| (k.to_string(), v.to_string())).collect(),
    )
}

#[test]
fn id_is_the_last_one_set() {
    let e = element(&[("id", "a"), ("class", "x"), ("id", "b")]);
    assert_eq!(e.get_id(), Some(&"b".to_string()));
    assert_eq!(element(&[("class", "x")]).get_id(), None);
}

#[test]
fn classes_are_distinct_pieces() {
    let e = element(&[("class", "b a b  c")]);
    let mut got = e.get_classes();
    got.sort();
    assert_eq!(got, vec!["", "a", "b", "c"]);
    assert!(element(&[("id", "x")]).get_classes().is_empty());
}

#[test]
fn node_holds_children() {
    let leaf = Node::new(NodeType::Text("hi".to_string()), vec![]);
    let n = Node::new(NodeType::Element(element(&[])), vec![leaf]);
    assert_eq!(n.children.len(), 1);
    assert!(matches!(n.children[0].node_type, NodeType::Text(ref t) if t == "hi"));
}
