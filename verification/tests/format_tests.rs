use econ_bridge::template::get_and_format;
use econ_bridge::value::Value;

fn mapping(entries: Vec<(&str, Value)>) -> Value {
    Value::Mapping(entries.into_iter().map(|(k, v)| (k.to_string(), v)).collect())
}

#[test]
fn test_no_placeholders() {
    let input = "Hello world";
    let args = Value::Null;
    let list_values: Vec<String> = vec![];

    let result = get_and_format(input, &args, &list_values);
    assert_eq!(result, "Hello world".to_string());
}

#[test]
fn test_simple_placeholder() {
    let input = "Hello {{name}}";
    let args = mapping(vec![("name", Value::Text("Alice".to_string()))]);
    let list_values: Vec<String> = vec![];

    let result = get_and_format(input, &args, &list_values);
    assert_eq!(result, "Hello Alice".to_string());
}

#[test]
fn test_multiple_placeholders() {
    let input = "{{greeting}}, {{name}}!";
    let args = mapping(vec![
        ("greeting", Value::Text("Hello".to_string())),
        ("name", Value::Text("Bob".to_string())),
    ]);
    let list_values: Vec<String> = vec![];

    let result = get_and_format(input, &args, &list_values);
    assert_eq!(result, "Hello, Bob!".to_string());
}

#[test]
fn test_missing_placeholder() {
    let input = "Hello {{name}}";
    let args = Value::Null;
    let list_values: Vec<String> = vec![];

    let result = get_and_format(input, &args, &list_values);
    assert_eq!(result, "Hello ".to_string());
}

#[test]
fn test_list_index_placeholder() {
    let input = "Item 0: {{0}}, Item 1: {{1}}";
    let args = Value::Null;
    let list_values = vec!["Apple".to_string(), "Banana".to_string()];

    let result = get_and_format(input, &args, &list_values);
    assert_eq!(result, "Item 0: Apple, Item 1: Banana".to_string());
}

#[test]
fn test_nested_placeholders() {
    let input = "{{user.name}} ({{user.id}})";
    let args = mapping(vec![(
        "user",
        Value::Mapping(vec![
            ("name".to_string(), Value::Text("Bob".to_string())),
            ("id".to_string(), Value::Text("789".to_string())),
        ]),
    )]);
    let list_values: Vec<String> = vec![];
    let result = get_and_format(input, &args, &list_values);
    assert_eq!(result, "Bob (789)".to_string());
}
