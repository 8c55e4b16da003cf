use econ_bridge::escape_string;

#[test]
fn test_no_escaping_needed() {
    let input = "normal string".to_string();
    let result = escape_string(input);
    assert_eq!(result, "normal string".to_string());
}

#[test]
fn test_escape_single_quotes() {
    let input = "text with 'quotes'".to_string();
    let result = escape_string(input);
    assert_eq!(result, r#"text with \'quotes\'"#.to_string());
}

#[test]
fn test_escape_all_special_chars() {
    let input = r#"mixed \ '" all"#.to_string();
    let result = escape_string(input);
    assert_eq!(result, r#"mixed \\ \'\" all"#.to_string());
}

#[test]
fn test_empty_string() {
    let input = "".to_string();
    let result = escape_string(input);
    assert_eq!(result, "".to_string());
}

#[test]
fn test_owned_string_no_escape() {
    let input = "hello".to_string();
    let result = escape_string(input);
    assert_eq!(result.len(), 5);
    assert_eq!(result.to_string(), "hello");
}

#[test]
fn test_owned_string_with_escape() {
    let input = "hello\"world".to_string();
    let result = escape_string(input);
    assert_eq!(result.len(), 12);
    assert_eq!(result.to_string(), r#"hello\"world"#);
}
