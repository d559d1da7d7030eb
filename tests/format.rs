use choreo_flip::json::{format_custom, format_document, strip_colon_space_chars, JsonValue};

fn num(t: &str) -> JsonValue {
    JsonValue::Number(t.to_string())
}

fn chars(s: &str) -> Vec<char> {
    s.chars().collect()
}

fn obj_ab() -> JsonValue {
    JsonValue::Object(vec![("a".to_string(), num("1")), ("b".to_string(), num("2"))])
}

#[test]
fn primitive_array_is_inline() {
    let v = JsonValue::Array(vec![num("1"), num("2"), num("3")]);
    assert_eq!(format_custom(&v, false, 0), "[1,2,3]");
    assert_eq!(format_document(&v).unwrap(), "[1,2,3]");
}

#[test]
fn object_in_array_is_inline() {
    let v = JsonValue::Array(vec![obj_ab()]);
    assert_eq!(format_custom(&v, true, 0), "[{\"a\": 1, \"b\": 2}]");
    let stripped: String = strip_colon_space_chars(&chars(&format_custom(&v, true, 0)))
        .into_iter()
        .collect();
    assert_eq!(stripped, "[{\"a\":1, \"b\":2}]");
}

#[test]
fn top_level_array_of_objects_takes_lines() {
    let v = JsonValue::Array(vec![obj_ab(), obj_ab()]);
    assert_eq!(
        format_custom(&v, false, 0),
        "[\n{\"a\": 1, \"b\": 2},\n{\"a\": 1, \"b\": 2}]"
    );
}

#[test]
fn nested_array_lines_are_indented_by_two_per_level() {
    let inner = JsonValue::Array(vec![JsonValue::Array(vec![num("1")]), JsonValue::Null]);
    let v = JsonValue::Object(vec![("k".to_string(), inner)]);
    assert_eq!(format_custom(&v, false, 0), "{\n \"k\": [\n  [1],\n  null]\n}");
}

#[test]
fn top_level_object_takes_lines() {
    let v = JsonValue::Object(vec![
        ("name".to_string(), JsonValue::Str("Blue".to_string())),
        ("ok".to_string(), JsonValue::Bool(true)),
        (
            "inner".to_string(),
            JsonValue::Object(vec![("x".to_string(), num("1.5"))]),
        ),
    ]);
    assert_eq!(
        format_custom(&v, false, 0),
        "{\n \"name\": \"Blue\",\n \"ok\": true,\n \"inner\": {\n  \"x\": 1.5\n }\n}"
    );
    assert_eq!(
        format_document(&v).unwrap(),
        "{\n \"name\":\"Blue\",\n \"ok\":true,\n \"inner\":{\n  \"x\":1.5\n }\n}"
    );
}

#[test]
fn empty_containers() {
    assert_eq!(format_custom(&JsonValue::Array(vec![]), false, 0), "[]");
    assert_eq!(format_custom(&JsonValue::Object(vec![]), false, 0), "{\n\n}");
    assert_eq!(format_custom(&JsonValue::Object(vec![]), true, 0), "{}");
}

#[test]
fn strip_reaches_into_strings() {
    let v = JsonValue::Object(vec![("s".to_string(), JsonValue::Str("x: y".to_string()))]);
    assert_eq!(format_document(&v).unwrap(), "{\n \"s\":\"x:y\"\n}");
    assert_eq!(format_document(&JsonValue::Str("x: y".to_string())).unwrap(), "\"x:y\"");
}

#[test]
fn strings_are_escaped() {
    let v = JsonValue::Str("a\"b\\c\n".to_string());
    assert_eq!(format_custom(&v, false, 0), "\"a\\\"b\\\\c\\n\"");
}

#[test]
fn keys_are_written_as_they_are() {
    let v = JsonValue::Object(vec![("a\"b".to_string(), JsonValue::Null)]);
    assert_eq!(format_custom(&v, true, 0), "{\"a\"b\": null}");
}

#[test]
fn strip_pairs_left_to_right() {
    let out: String = strip_colon_space_chars(&chars(":  a: : b::")).into_iter().collect();
    assert_eq!(out, ": a::b::");
}
