use rust_dom_parser::css::{Color, Declaration, Rule, Selector, SimpleSelector, Stylesheet, Unit, Value};
use rust_dom_parser::css_parser::CssParser;
use rust_dom_parser::dom::{ElementData, Node, NodeType};

#[test]
fn values_render() {
    assert_eq!(Value::Color(Color::new(255, 1, 20, 0)).render(), "r: 255 g: 1 b: 20 a: 0");
    assert_eq!(Value::Length(10_000, Unit::Px).render(), "10.000");
    assert_eq!(Value::Length(-1_505, Unit::Em).render(), "-1.505");
    assert_eq!(Value::Length(i64::MIN, Unit::Em).render(), "-9223372036854775.808");
    assert_eq!(Value::Other("serif".to_string()).render(), "\"serif\"");
}

#[test]
fn selectors_render() {
    let a = SimpleSelector::new(Some("div".to_string()), Some("m".to_string()), vec!["x".to_string(), "y".to_string()]);
    let b = SimpleSelector::new(None, None, vec!["z".to_string()]);
    assert_eq!(a.render(), "div#mxy");
    assert_eq!(Selector::new(vec![a, b], vec![]).render(), "div#mxy, z");
}

#[test]
fn rules_and_sheets_render() {
    let mut parser = CssParser::new("a, b { color: red; width: 2px }p{x:y;}");
    let sheet = parser.parse_stylesheet();
    assert_eq!(
        sheet.render(),
        "a, b {\n    color: r: 255 g: 0 b: 0 a: 255\n    width: 2.000\n}\np {\n    x: \"y\"\n}"
    );
    let d = Declaration::new("font".to_string(), Value::Other("x".to_string()));
    assert_eq!(d.render(), "font: \"x\"");
    assert_eq!(Rule::new(vec![], vec![]).render(), " {\n}");
    assert_eq!(Stylesheet::new(vec![]).render(), "");
}

#[test]
fn nodes_render() {
    let e = ElementData::new("p".to_string(), vec![("id".to_string(), "a".to_string()), ("class".to_string(), "b c".to_string())]);
    assert_eq!(e.render(), "<p,  id=\"a\" class=\"b c\">");
    let n = Node::new(NodeType::Element(e), vec![]);
    assert_eq!(n.open_line(2), "  <p,  id=\"a\" class=\"b c\">");
    assert_eq!(n.close_line(2), Some("  <p/>".to_string()));
    let c = Node::new(NodeType::Comment("hi".to_string()), vec![]);
    assert_eq!(c.open_line(1), " <!--hi-->");
    assert_eq!(c.close_line(1), None);
    let t = Node::new(NodeType::Text("txt".to_string()), vec![]);
    assert_eq!(t.render(), "txt");
    assert_eq!(t.open_line(0), "txt");
}

#[test]
fn tree_dump_lines() {
    let leaf = Node::new(NodeType::Text("hi".to_string()), vec![]);
    let note = Node::new(NodeType::Comment("c".to_string()), vec![]);
    let inner = Node::new(
        NodeType::Element(ElementData::new("b".to_string(), vec![])),
        vec![leaf],
    );
    let root = Node::new(
        NodeType::Element(ElementData::new("a".to_string(), vec![("k".to_string(), "v".to_string())])),
        vec![inner, note],
    );
    let lines = rust_dom_parser::render::pretty_lines(&root, 1);
    assert_eq!(
        lines,
        vec![" <a,  k=\"v\">", "   <b, >", "     hi", "   <b/>", "   <!--c-->", " <a/>"]
    );
}
