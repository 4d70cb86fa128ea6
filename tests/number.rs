use luxor::number::Number;

fn text(s: &str) -> Option<String> {
    Number::parse(s).map(|n| n.render())
}

#[test]
fn number_text_is_shortest() {
    assert_eq!(text("123.45"), Some("123.45".to_string()));
    assert_eq!(text("007.50"), Some("7.5".to_string()));
    assert_eq!(text("0"), Some("0".to_string()));
    assert_eq!(text("000"), Some("0".to_string()));
    assert_eq!(text("0.000"), Some("0".to_string()));
    assert_eq!(text("10"), Some("10".to_string()));
    assert_eq!(text("6.0"), Some("6".to_string()));
}

#[test]
fn number_syntax_is_checked() {
    assert_eq!(text(""), None);
    assert_eq!(text("1."), None);
    assert_eq!(text(".5"), None);
    assert_eq!(text("1.2.3"), None);
    assert_eq!(text("-1"), None);
    assert_eq!(text("1e5"), None);
}

#[test]
fn equal_values_are_equal_numbers() {
    assert_eq!(Number::parse("1.50").unwrap(), Number::parse("01.5").unwrap());
    assert_ne!(Number::parse("1.5").unwrap(), Number::parse("15").unwrap());
    let n = Number::parse("2.25").unwrap();
    assert_eq!(n.duplicate(), n);
}

#[test]
fn numbers_from_digits() {
    let n = Number::from_digits(&['0', '4', '2'], &['1', '0']);
    assert_eq!(n.render(), "42.1");
    let m = Number::from_digits(&['0'], &[]);
    assert_eq!(m.render(), "0");
}
