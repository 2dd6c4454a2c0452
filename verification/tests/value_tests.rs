use mproxy::http::header_value_parser::{assoc_lookup, kv, literal, value_list};

#[test]
fn header_line_parser_literal_basic() {
    let (_rest, input) = literal("test").unwrap();
    assert_eq!(input, "test");
    let (_rest, input) = literal("\" test string \"").unwrap();
    assert_eq!(input, "\" test string \"");
}

#[test]
fn header_line_parser_header_line_basic() {
    let p = value_list("   test0,   test1 ");
    assert_eq!(p, ["test0", "test1"]);
    let p = value_list("   test0, test1  test1 ");
    assert_eq!(p, ["test0", "test1  test1"]);
    let input = value_list("\" test0 \", \"test1,comma\"");
    assert_eq!(input, ["\" test0 \"", "\"test1,comma\""]);
}

#[test]
fn header_value_parser_literal_basic() {
    let (_rest, input) = literal("test").unwrap();
    assert_eq!(input, "test");
    let (_rest, input) = literal("\" test string \"").unwrap();
    assert_eq!(input, "\" test string \"");
}

#[test]
fn header_value_parser_header_line_basic() {
    let p = value_list("   test0,   test1 ");
    assert_eq!(p, ["test0", "test1"]);
    let p = value_list("   test0, test1  test1 ");
    assert_eq!(p, ["test0", "test1  test1"]);
    let input = value_list("\" test0 \", \"test1,comma\"");
    assert_eq!(input, ["\" test0 \"", "\"test1,comma\""]);
}

#[test]
fn kv_basic() {
    let kv = kv("a=1, b=2, c=3 ").unwrap();
    assert_eq!(assoc_lookup(&kv, "a").unwrap(), "1");
    assert_eq!(assoc_lookup(&kv, "b").unwrap(), "2");
    assert_eq!(assoc_lookup(&kv, "c").unwrap(), "3");
}

#[test]
fn kv_rejects_missing_eq() {
    assert!(kv("a=1, b").is_none());
    assert!(kv("=1").is_none());
}

#[test]
fn literal_rejects_bad_escape() {
    assert!(literal("\"ab\\x\"").is_none());
    assert!(literal(",x").is_none());
}
