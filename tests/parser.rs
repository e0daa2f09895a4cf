use rust_dom_parser::css::{Color, Selector, SimpleSelector, Unit, Value};
use rust_dom_parser::css_parser::{value_of, CssParser};

fn simple(tag: Option<&str>, id: Option<&str>, classes: &[&str]) -> SimpleSelector {
    SimpleSelector::new(
        tag.map(|t| t.to_string()),
        id.map(|i| i.to_string()),
        classes.iter().map(|c| c.to_string()).collect(),
    )
}

#[test]
fn test_html_parser_consume_while() {
    let mut parser = CssParser::new("aaabbb");
    let text = parser.consume_while(|c| c == 'a');
    assert_eq!(text, "aaa");
}

#[test]
fn consume_while_leaves_the_rest() {
    let mut parser = CssParser::new("aaabbb");
    assert_eq!(parser.consume_while(|c| c == 'a'), "aaa");
    assert_eq!(parser.consume_while(|c| c == 'a'), "");
    assert_eq!(parser.consume_while(|_| true), "bbb");
}

#[test]
fn parse_identifier_without_start_consumes_nothing() {
    let mut parser = CssParser::new("9abc");
    assert_eq!(parser.parse_identifier(), "");
    assert_eq!(parser.consume_while(|_| true), "9abc");
}

#[test]
fn parse_identifier_lowercases() {
    let mut parser = CssParser::new("DiV-2_x.y");
    assert_eq!(parser.parse_identifier(), "div-2_x");
    assert_eq!(parser.consume_while(|_| true), ".y");
}

#[test]
fn parse_id_empty_is_none() {
    let mut parser = CssParser::new(".x");
    assert_eq!(parser.parse_id(), None);
    let mut parser = CssParser::new("Main x");
    assert_eq!(parser.parse_id(), Some("main".to_string()));
}

#[test]
fn compound_selector_and_two_declarations() {
    let mut parser = CssParser::new("div#main.card.active { color: red; width: 10px }");
    let sheet = parser.parse_stylesheet();
    assert_eq!(sheet.rules.len(), 1);
    let rule = &sheet.rules[0];
    assert_eq!(
        rule.selectors,
        vec![Selector::new(vec![simple(Some("div"), Some("main"), &["card", "active"])], vec![])]
    );
    assert_eq!(rule.declarations.len(), 2);
    assert_eq!(rule.declarations[0].property, "color");
    assert_eq!(rule.declarations[0].value, Value::Color(Color::new(255, 0, 0, 255)));
    assert_eq!(rule.declarations[1].property, "width");
    assert_eq!(rule.declarations[1].value, Value::Length(10_000, Unit::Px));
    if let Value::Length(m, _) = rule.declarations[1].value {
        assert_eq!(m as f32 / 1000.0, 10.0);
    }
}

#[test]
fn two_ids_give_no_id() {
    let mut parser = CssParser::new("#a#b { color: red; }");
    let sheet = parser.parse_stylesheet();
    assert_eq!(sheet.rules.len(), 1);
    assert!(sheet.rules[0].selectors.iter().all(|s| s.simple.iter().all(|c| c.id.is_none())));
    assert_eq!(sheet.rules[0].declarations.len(), 1);
    let mut parser = CssParser::new("p#a.x#b#c { color: red; }");
    let sel = parser.parse_selector();
    assert_eq!(sel.simple, vec![simple(Some("p"), None, &["x"])]);
    let mut parser = CssParser::new("p#.x#b {");
    assert_eq!(parser.parse_selector().simple, vec![simple(Some("p"), None, &["x"])]);
    let mut parser = CssParser::new("p##a {");
    assert_eq!(parser.parse_selector().simple, vec![simple(Some("p"), None, &[])]);
    let mut parser = CssParser::new("p#a {");
    assert_eq!(parser.parse_selector().simple, vec![simple(Some("p"), Some("a"), &[])]);
}

#[test]
fn comma_separated_selectors() {
    let mut parser = CssParser::new("a, b { color: blue; }");
    let sheet = parser.parse_stylesheet();
    assert_eq!(sheet.rules.len(), 1);
    let sels = &sheet.rules[0].selectors;
    assert_eq!(sels.len(), 2);
    assert_eq!(sels[0].simple, vec![simple(Some("a"), None, &[])]);
    assert_eq!(sels[1].simple, vec![simple(Some("b"), None, &[])]);
    assert_eq!(
        sheet.rules[0].declarations[0].value,
        Value::Color(Color::new(0, 0, 255, 255))
    );
}

#[test]
fn last_declaration_without_semicolon() {
    let mut parser = CssParser::new("p { color: red }");
    let sheet = parser.parse_stylesheet();
    assert_eq!(sheet.rules[0].declarations.len(), 1);
    assert_eq!(sheet.rules[0].declarations[0].value, Value::Color(Color::new(255, 0, 0, 255)));
}

#[test]
fn declaration_followed_by_neither_is_dropped() {
    let mut parser = CssParser::new("{ color: red\n width: 2em; }");
    let decls = parser.parse_selectors();
    assert!(decls.is_empty());
    let decls = parser.parse_declarations();
    assert_eq!(decls.len(), 1);
    assert_eq!(decls[0].property, "width");
    assert_eq!(decls[0].value, Value::Length(2000, Unit::Em));
}

#[test]
fn rules_match_blocks() {
    let css = "h1 { color: red; }\n\n  p.x,div{margin-top:1.5em}\n#i { height: 3px; width: 4px; }";
    let mut parser = CssParser::new(css);
    let sheet = parser.parse_stylesheet();
    assert_eq!(sheet.rules.len(), 3);
    assert_eq!(sheet.rules[1].selectors.len(), 2);
    assert_eq!(sheet.rules[1].declarations[0].value, Value::Length(1500, Unit::Em));
    assert_eq!(sheet.rules[2].declarations.len(), 2);
    let mut parser = CssParser::new("a{}b{}c{}");
    assert_eq!(parser.parse_stylesheet().rules.len(), 3);
}

#[test]
fn white_space_around_blocks_adds_no_rule() {
    let mut parser = CssParser::new("a { color: red; }\n");
    let sheet = parser.parse_stylesheet();
    assert_eq!(sheet.rules.len(), 1);
    assert_eq!(sheet.rules[0].declarations.len(), 1);
    let mut parser = CssParser::new("a{}b{}");
    assert_eq!(parser.parse_stylesheet().rules.len(), 2);
    let mut parser = CssParser::new("a{ }b{}");
    assert_eq!(parser.parse_stylesheet().rules.len(), 2);
    let mut parser = CssParser::new("  a {\n  }\n\n b { x: y ; }  \n");
    let sheet = parser.parse_stylesheet();
    assert_eq!(sheet.rules.len(), 2);
    assert!(sheet.rules[0].declarations.is_empty());
    assert_eq!(sheet.rules[1].declarations.len(), 1);
    let mut parser = CssParser::new(" \n\t");
    assert!(parser.parse_stylesheet().rules.is_empty());
}

#[test]
fn empty_input_has_no_rules() {
    let mut parser = CssParser::new("");
    assert!(parser.parse_stylesheet().rules.is_empty());
}

#[test]
fn unmodelled_tokens_are_skipped() {
    let mut parser = CssParser::new("a > b.c, [x=y], .d { }");
    let sels = parser.parse_selectors();
    assert_eq!(sels.len(), 2);
    assert_eq!(sels[0].simple, vec![simple(Some("a"), None, &[])]);
    assert_eq!(sels[1].simple, vec![simple(None, None, &["d"])]);
}

#[test]
fn classes_keep_order_and_repeats() {
    let mut parser = CssParser::new(".b.a.b. {");
    let sel = parser.parse_selector();
    assert_eq!(sel.simple, vec![simple(None, None, &["b", "a", "b"])]);
}

#[test]
fn values_by_property() {
    let v = value_of(&"border-color".to_string(), "#0f8".to_string());
    assert_eq!(v, Value::Color(Color::new(0, 255, 136, 255)));
    let v = value_of(&"color".to_string(), "#10a0ff ".to_string());
    assert_eq!(v, Value::Color(Color::new(16, 160, 255, 255)));
    let v = value_of(&"color".to_string(), "chartreuse".to_string());
    assert_eq!(v, Value::Color(Color::default()));
    let v = value_of(&"padding-left".to_string(), "-0.25vw".to_string());
    assert_eq!(v, Value::Length(-250, Unit::Vw));
    let v = value_of(&"height".to_string(), "50%".to_string());
    assert_eq!(v, Value::Length(50_000, Unit::Pct));
    let v = value_of(&"font".to_string(), "serif".to_string());
    assert_eq!(v, Value::Other("serif".to_string()));
}

#[test]
fn dropped_declarations_are_reported() {
    let mut parser = CssParser::new("a { color: red\n width: 2em; }\nb { Margin-Top: 1PX\n height: 3px }");
    let (sheet, dropped) = parser.parse_stylesheet_reporting();
    assert_eq!(sheet.rules.len(), 2);
    assert_eq!(sheet.rules[0].declarations.len(), 1);
    assert_eq!(sheet.rules[1].declarations.len(), 1);
    assert_eq!(dropped.len(), 2);
    assert_eq!(dropped[0].property, "color");
    assert_eq!(dropped[0].value, Value::Color(Color::new(255, 0, 0, 255)));
    assert_eq!(dropped[1].property, "margin-top");
    assert_eq!(dropped[1].value, Value::Length(1000, Unit::Px));
    let mut parser = CssParser::new("p { color: red; }");
    assert!(parser.parse_stylesheet_reporting().1.is_empty());
}
