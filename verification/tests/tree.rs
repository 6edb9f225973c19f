use jsonwriter::Context;
use jsonwriter::Object;
use jsonwriter::ValueType;
use jsonwriter::generate;

#[test]
fn generate_compact_numbers() {
    let json = Object::new("nums")
        .add("n", ValueType::Number(-105))
        .add("z", ValueType::Number(0));
    assert_eq!(generate(json, true), "{nums:{n:-105,z:0}}");
}

#[test]
fn generate_pretty_nested() {
    let json = Object::new("root")
        .add("s", ValueType::String(String::from("\"x\"")))
        .add(
            "xs",
            ValueType::Array(vec![ValueType::Number(1), ValueType::Number(2)]),
        );
    assert_eq!(
        generate(json, false),
        "{\n  root: {\n    s: \"x\",\n    xs: [\n      1,\n      2\n    ]\n  }\n}"
    );
}

#[test]
fn generate_nested_object() {
    let inner = Object::new("ignored").add("k", ValueType::String(String::from("v")));
    let json = Object::new("outer").add("in", ValueType::Object(inner));
    assert_eq!(
        generate(json, true),
        "{outer:{in:{k:v}}}"
    );
}

#[test]
fn object_generate_into_fresh_writer() {
    let json = Object::new("o").add("k", ValueType::String(String::from("v")));
    let out = json.generate(Context::new());
    assert_eq!(out, "\no: {\n  k: v\n}\n");
}

#[test]
fn generate_large_number() {
    let json = Object::new("n").add("max", ValueType::Number(i32::MAX)).add(
        "min",
        ValueType::Number(i32::MIN),
    );
    assert_eq!(generate(json, true), "{n:{max:2147483647,min:-2147483648}}");
}

#[test]
fn generate_empty_object() {
    let json = Object::new("empty");
    assert_eq!(generate(json, true), "{empty:{}}");
    let json2 = Object::new("empty");
    assert_eq!(generate(json2, false), "{\n  empty: {\n  }\n}");
}

#[test]
fn duplicate_keys_are_kept_in_order() {
    let json = Object::new("o")
        .add("k", ValueType::Number(1))
        .add("k", ValueType::Number(2));
    assert_eq!(generate(json, true), "{o:{k:1,k:2}}");
}
