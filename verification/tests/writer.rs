use jsonwriter::Context;
use jsonwriter::JsonWriter;

#[test]
fn test_for_writer() {
    let mut writer = Context::new();
    writer
        .json_start()
        .json_objectstart("foo")
        .json_keyvalue("goo", "\"hoo\"")
        .json_objectend()
        .json_end();
    assert_eq!(
        writer.output,
        "{
  foo: {
    goo: \"hoo\"
  }
}"
    )
}

#[test]
fn test_for_writer_array() {
    let mut writer = Context::new();
    writer
        .json_start()
        .json_arraystart("foo")
        .json_element("1")
        .json_element("2")
        .json_arrayend()
        .json_end();
    assert_eq!(
        writer.output,
        "{
  foo: [
    1,
    2
  ]
}"
    )
}

#[test]
fn compact_object() {
    let mut writer = Context::with_mode(true);
    writer
        .json_start()
        .json_objectstart("foo")
        .json_keyvalue("goo", "\"hoo\"")
        .json_objectend()
        .json_end();
    assert_eq!(writer.output, "{foo:{goo:\"hoo\"}}");
}

#[test]
fn compact_equals_stripped_pretty() {
    let mut pretty = Context::new();
    pretty
        .json_start()
        .json_objectstart("foo")
        .json_keyvalue("goo", "\"hoo\"")
        .json_arraystart("xs")
        .json_element("1")
        .json_element("2")
        .json_arrayend()
        .json_objectend()
        .json_end();
    let mut compact = Context::with_mode(true);
    compact
        .json_start()
        .json_objectstart("foo")
        .json_keyvalue("goo", "\"hoo\"")
        .json_arraystart("xs")
        .json_element("1")
        .json_element("2")
        .json_arrayend()
        .json_objectend()
        .json_end();
    let stripped: String = pretty
        .output
        .chars()
        .filter(|c| *c != ' ' && *c != '\n')
        .collect();
    assert_eq!(stripped, compact.output);
}

#[test]
fn comma_before_each_later_sibling() {
    let mut writer = Context::new();
    writer
        .json_start()
        .json_keyvalue("a", "1")
        .json_keyvalue("b", "2")
        .json_keyvalue("c", "3")
        .json_end();
    assert_eq!(writer.output, "{\n  a: 1,\n  b: 2,\n  c: 3\n}");
    assert_eq!(writer.output.matches(',').count(), 2);
}

#[test]
fn array_after_value_gets_comma_but_first_element_does_not() {
    let mut writer = Context::new();
    writer
        .json_start()
        .json_keyvalue("a", "1")
        .json_arraystart("xs")
        .json_element("1")
        .json_arrayend()
        .json_end();
    assert_eq!(writer.output, "{\n  a: 1,\n  xs: [\n    1\n  ]\n}");
}

#[test]
fn object_after_value_gets_comma() {
    let mut writer = Context::new();
    writer
        .json_start()
        .json_keyvalue("a", "1")
        .json_objectstart("o")
        .json_keyvalue("b", "2")
        .json_objectend()
        .json_end();
    assert_eq!(writer.output, "{\n  a: 1,\n  o: {\n    b: 2\n  }\n}");
}

#[test]
fn trailing_newline_at_top_level_pretty() {
    let mut writer = Context::new();
    writer
        .json_objectstart("root")
        .json_keyvalue("a", "1")
        .json_objectend();
    assert_eq!(writer.output, "\nroot: {\n  a: 1\n}\n");
    assert!(writer.output.ends_with("}\n"));
    assert!(!writer.output.ends_with("\n\n"));
}

#[test]
fn no_trailing_newline_compact() {
    let mut writer = Context::with_mode(true);
    writer
        .json_objectstart("root")
        .json_keyvalue("a", "1")
        .json_objectend();
    assert_eq!(writer.output, "root:{a:1}");
    assert!(writer.output.ends_with('}'));
}

#[test]
fn write_appends_raw_text() {
    let mut writer = Context::new();
    writer.write("abc").write("def");
    assert_eq!(writer.output, "abcdef");
}

#[test]
fn new_writer_is_empty() {
    let writer = Context::new();
    assert_eq!(writer.output, "");
    assert_eq!(writer.into_output(), "");
}

#[test]
fn chained_calls_return_the_same_writer() {
    let mut writer = Context::new();
    writer.json_start().json_keyvalue("a", "1").json_end();
    assert_eq!(writer.output, "{\n  a: 1\n}");
}
