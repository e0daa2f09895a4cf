use rust_dom_parser::css::{Color, Unit, Value};
use rust_dom_parser::values::{translate_color, translate_length};

#[test]
fn named_and_hex_colors() {
    assert_eq!(translate_color(&"white".to_string()), Color::new(255, 255, 255, 255));
    assert_eq!(translate_color(&"green  ".to_string()), Color::new(0, 128, 0, 255));
    assert_eq!(translate_color(&"#ABC".to_string()), Color::new(170, 187, 204, 255));
    assert_eq!(translate_color(&"#00ff7f".to_string()), Color::new(0, 255, 127, 255));
}

#[test]
fn unknown_colors_are_transparent() {
    assert_eq!(translate_color(&"#12345".to_string()), Color::new(0, 0, 0, 0));
    assert_eq!(translate_color(&"#ggg".to_string()), Color::default());
    assert_eq!(translate_color(&"".to_string()), Color::default());
}

#[test]
fn lengths_in_thousandths() {
    assert_eq!(translate_length(&"10px".to_string()), Value::Length(10_000, Unit::Px));
    assert_eq!(translate_length(&"1.5EM".to_string()), Value::Length(1500, Unit::Em));
    assert_eq!(translate_length(&"0.125rem ".to_string()), Value::Length(125, Unit::Rem));
    assert_eq!(translate_length(&"3vmax".to_string()), Value::Length(3000, Unit::Vmax));
    assert_eq!(
        translate_length(&"999999999999q".to_string()),
        Value::Length(999_999_999_999_000, Unit::Q)
    );
}

#[test]
fn bad_lengths_stay_text() {
    for raw in ["10", "px", "1.px", ".px", "-px", "10 px", "1000000000000px", "5furlongs", ""] {
        assert_eq!(translate_length(&raw.to_string()), Value::Other(raw.to_string()));
    }
}

#[test]
fn lengths_round_to_thousandths() {
    assert_eq!(translate_length(&".5em".to_string()), Value::Length(500, Unit::Em));
    assert_eq!(translate_length(&"-.25vw".to_string()), Value::Length(-250, Unit::Vw));
    assert_eq!(translate_length(&"1.2345px".to_string()), Value::Length(1235, Unit::Px));
    assert_eq!(translate_length(&"1.2344999px".to_string()), Value::Length(1234, Unit::Px));
    assert_eq!(translate_length(&"0.9999pt".to_string()), Value::Length(1000, Unit::Pt));
}
