use jsonpath_reference::ast::{Path as Ast, Selector, UnionElement};
use jsonpath_reference::json::Json;
use jsonpath_reference::jsonpath::{parse, Path};
use jsonpath_reference::matchers::{Child, Matcher, RootSelector, Union, WildcardedChild};
use jsonpath_reference::parser;
use jsonpath_reference::path::{self, Path as _};

fn num(n: i128) -> Json {
    Json::Number(n)
}

fn arr(ns: &[i128]) -> Json {
    Json::Array(ns.iter().map(|n| num(*n)).collect())
}

fn obj(members: Vec<(&str, Json)>) -> Json {
    Json::Object(members.into_iter().map(|(k, v)| (k.to_owned(), v)).collect())
}

fn foo_bar_baz() -> Json {
    obj(vec![("foo", obj(vec![("bar", obj(vec![("baz", arr(&[10, 20, 30, 40, 50, 60]))]))]))])
}

fn select(selector: &str, doc: &Json) -> Vec<Json> {
    let p: Path = parse(selector).ok().expect("selector should compile");
    let found = p.find(doc).ok().expect("find does not fail");
    found.into_iter().map(copy).collect()
}

fn copy(j: &Json) -> Json {
    match j {
        Json::Null => Json::Null,
        Json::Bool(b) => Json::Bool(*b),
        Json::Number(n) => Json::Number(*n),
        Json::Real(s) => Json::Real(s.clone()),
        Json::Str(s) => Json::Str(s.clone()),
        Json::Array(a) => Json::Array(a.iter().map(copy).collect()),
        Json::Object(m) => Json::Object(m.iter().map(|(k, v)| (k.clone(), copy(v))).collect()),
    }
}

fn nums(ns: &[i128]) -> Vec<Json> {
    ns.iter().map(|n| num(*n)).collect()
}

fn slice(start: Option<isize>, end: Option<isize>, step: Option<isize>) -> Selector {
    Selector::Union(vec![UnionElement::Slice { start, end, step }])
}

fn apply(sel: Selector, doc: &Json) -> Vec<Json> {
    let p = Ast::Sel(Box::new(Ast::Root), sel);
    p.find(doc).into_iter().map(copy).collect()
}

#[test]
fn dotted_and_bracketed_names_then_index() {
    assert_eq!(select("$.foo.bar['baz'][4]", &foo_bar_baz()), nums(&[50]));
}

#[test]
fn wildcard_then_union_of_indices() {
    assert_eq!(select("$.foo['bar'].*[4,-1]", &foo_bar_baz()), nums(&[50, 60]));
}

#[test]
fn negative_index_counts_from_end() {
    let doc = obj(vec![("a", arr(&[1, 2, 3]))]);
    assert_eq!(select("$.a[-1]", &doc), nums(&[3]));
}

#[test]
fn negative_index_past_start_selects_nothing() {
    let doc = obj(vec![("a", arr(&[1, 2, 3]))]);
    assert_eq!(select("$.a[-10]", &doc), nums(&[]));
}

#[test]
fn slice_with_open_end() {
    let doc = obj(vec![("a", arr(&[1, 2, 3, 4]))]);
    assert_eq!(select("$.a[1:]", &doc), nums(&[2, 3, 4]));
}

#[test]
fn slice_with_negative_step_reverses() {
    let doc = obj(vec![("a", arr(&[1, 2, 3]))]);
    assert_eq!(select("$.a[::-1]", &doc), nums(&[3, 2, 1]));
}

#[test]
fn unclosed_bracket_is_a_syntax_error() {
    let e = parse("$[").err().expect("should be an error");
    assert!(e.message().contains("syntax error"));
}

#[test]
fn malformed_selectors_are_rejected() {
    for s in ["", "foo", "$.", "$..a", "$[]", "$[1", "$[1,]", "$['a]", "$[a]", "$.*x!", "$[-]", "$ .a"] {
        assert!(parse(s).is_err(), "{} should be rejected", s);
    }
}

#[test]
fn malformed_unicode_escape_is_rejected() {
    assert!(parse("$['\\u12']").is_err());
    assert!(parse("$[\"\\uZZZZ\"]").is_err());
    assert!(parse("$[\"\\q\"]").is_err());
}

#[test]
fn index_too_large_is_rejected() {
    assert!(parse("$[9223372036854775808]").is_err());
    assert!(parse("$[-9223372036854775809]").is_err());
    assert!(parse("$[99999999999999999999999]").is_err());
    assert!(parse("$[9223372036854775807]").is_ok());
    assert!(parse("$[-9223372036854775808]").is_ok());
}

#[test]
fn root_selects_the_document() {
    let doc = arr(&[1, 2]);
    assert_eq!(select("$", &doc), vec![arr(&[1, 2])]);
    assert_eq!(select("$", &Json::Null), vec![Json::Null]);
}

#[test]
fn dot_name_selects_member_or_nothing() {
    let doc = obj(vec![("a", num(1)), ("b", num(2))]);
    assert_eq!(select("$.b", &doc), nums(&[2]));
    assert_eq!(select("$.c", &doc), nums(&[]));
    assert_eq!(select("$.a", &arr(&[1])), nums(&[]));
    assert_eq!(select("$.a", &Json::Str("a".to_owned())), nums(&[]));
}

#[test]
fn wildcard_keeps_insertion_order() {
    let doc = obj(vec![("z", num(1)), ("a", num(2)), ("m", num(3))]);
    assert_eq!(select("$.*", &doc), nums(&[1, 2, 3]));
    assert_eq!(select("$.*", &arr(&[7, 8])), nums(&[7, 8]));
    assert_eq!(select("$.*", &Json::Bool(true)), nums(&[]));
}

#[test]
fn index_rules() {
    let doc = arr(&[1, 2, 3]);
    assert_eq!(select("$[0]", &doc), nums(&[1]));
    assert_eq!(select("$[2]", &doc), nums(&[3]));
    assert_eq!(select("$[3]", &doc), nums(&[]));
    assert_eq!(select("$[-3]", &doc), nums(&[1]));
    assert_eq!(select("$[-4]", &doc), nums(&[]));
    assert_eq!(select("$[0]", &obj(vec![("0", num(1))])), nums(&[]));
    assert_eq!(select("$[-9223372036854775808]", &doc), nums(&[]));
    assert_eq!(select("$[9223372036854775807]", &doc), nums(&[]));
}

#[test]
fn full_slice_is_the_array() {
    let doc = arr(&[4, 5, 6, 7]);
    assert_eq!(apply(slice(None, None, Some(1)), &doc), nums(&[4, 5, 6, 7]));
    assert_eq!(apply(slice(None, None, None), &doc), nums(&[4, 5, 6, 7]));
    assert_eq!(apply(slice(None, None, Some(1)), &arr(&[])), nums(&[]));
}

#[test]
fn reverse_slice_is_the_array_reversed() {
    let doc = arr(&[4, 5, 6, 7]);
    assert_eq!(apply(slice(None, None, Some(-1)), &doc), nums(&[7, 6, 5, 4]));
    assert_eq!(apply(slice(None, None, Some(-1)), &arr(&[])), nums(&[]));
}

#[test]
fn slice_arithmetic() {
    let doc = arr(&[0, 1, 2, 3, 4, 5, 6, 7, 8, 9]);
    assert_eq!(select("$[1:7:2]", &doc), nums(&[1, 3, 5]));
    assert_eq!(select("$[7:1:-3]", &doc), nums(&[7, 4]));
    assert_eq!(select("$[-3:]", &doc), nums(&[7, 8, 9]));
    assert_eq!(select("$[:-8]", &doc), nums(&[0, 1]));
    assert_eq!(select("$[5:2]", &doc), nums(&[]));
    assert_eq!(select("$[::0]", &doc), nums(&[]));
    assert_eq!(select("$[-1:-4:-1]", &doc), nums(&[9, 8, 7]));
    assert_eq!(select("$[1:3:]", &doc), nums(&[1, 2]));
    assert_eq!(select("$[:]", &arr(&[1, 2])), nums(&[1, 2]));
    assert_eq!(select("$[0:2]", &obj(vec![("a", num(1))])), nums(&[]));
}

#[test]
fn slice_with_extreme_bounds_does_not_panic() {
    let doc = arr(&[1, 2, 3]);
    let big = isize::MAX;
    let small = isize::MIN;
    assert_eq!(apply(slice(Some(small), Some(big), Some(1)), &doc), nums(&[1, 2, 3]));
    assert_eq!(apply(slice(Some(big), Some(small), Some(-1)), &doc), nums(&[3, 2, 1]));
    assert_eq!(apply(slice(Some(small), Some(big), Some(big)), &doc), nums(&[1]));
    assert_eq!(apply(slice(Some(big), Some(small), Some(small)), &doc), nums(&[3]));
    assert_eq!(apply(slice(Some(small), Some(small), Some(small)), &doc), nums(&[]));
    assert_eq!(apply(slice(Some(big), Some(big), Some(big)), &doc), nums(&[]));
    let min_text = format!("$[{}:{}:{}]", small, big, small);
    assert_eq!(select(&min_text, &doc), nums(&[]));
}

#[test]
fn union_concatenates_without_dedup() {
    let doc = obj(vec![("a", num(1)), ("b", num(2))]);
    assert_eq!(select("$['b','a','b']", &doc), nums(&[2, 1, 2]));
    assert_eq!(select("$[\"a\",'c']", &doc), nums(&[1]));
    let a = arr(&[1, 2, 3]);
    assert_eq!(select("$[2,0:2,-1]", &a), nums(&[3, 1, 2, 3]));
}

#[test]
fn parse_and_find_are_repeatable() {
    let s = "$.foo['bar'].*[4,-1]";
    let p1 = parser::parse(s).unwrap();
    let p2 = parser::parse(s).unwrap();
    assert_eq!(format!("{:?}", p1), format!("{:?}", p2));
    let doc = foo_bar_baz();
    assert_eq!(p1.find(&doc), p1.find(&doc));
}

#[test]
fn path_nests_to_the_left() {
    let p = parser::parse("$.a[1].*").unwrap();
    let expected = "Sel(Sel(Sel(Root, DotName(\"a\")), Union([Index(1)])), DotWildcard)";
    assert_eq!(format!("{:?}", p), expected);
    let q = parser::parse("$[1:-2:3]").unwrap();
    let expected = "Sel(Root, Union([Slice { start: Some(1), end: Some(-2), step: Some(3) }]))";
    assert_eq!(format!("{:?}", q), expected);
}

#[test]
fn quoted_names_are_unescaped() {
    let doc = obj(vec![("a'b", num(1)), ("a\"b", num(2)), ("a\nb", num(3)), ("é", num(4)), ("a\\b", num(5))]);
    assert_eq!(select("$['a\\'b']", &doc), nums(&[1]));
    assert_eq!(select("$[\"a\\\"b\"]", &doc), nums(&[2]));
    assert_eq!(select("$['a\"b']", &doc), nums(&[2]));
    assert_eq!(select("$['a\\nb']", &doc), nums(&[3]));
    assert_eq!(select("$[\"\\u00e9\"]", &doc), nums(&[4]));
    assert_eq!(select("$.é", &doc), nums(&[4]));
    assert_eq!(select("$['a\\\\b']", &doc), nums(&[5]));
}

#[test]
fn unescape_decodes_json_escapes() {
    assert_eq!(parser::unescape("a\\nb"), Some("a\nb".to_owned()));
    assert_eq!(parser::unescape("\\u0041\\/"), Some("A/".to_owned()));
    assert_eq!(parser::unescape("x\\u00"), None);
    assert_eq!(parser::unescape_single("a\\'b\"c"), Some("a'b\"c".to_owned()));
    assert_eq!(parser::to_double_quoted("end\\"), "end");
}

#[test]
fn find_error_is_never_returned() {
    let p = parse("$.x").ok().unwrap();
    assert!(p.find(&Json::Null).is_ok());
}

#[test]
fn matchers_compose_into_a_path() {
    let doc = obj(vec![("a", arr(&[1, 2])), ("b", arr(&[3]))]);
    let p = path::new(vec![Union::new(vec![Child::new("b".to_owned()), Child::new("a".to_owned())])]);
    let r: Vec<Json> = p.find(&doc).ok().unwrap().into_iter().map(copy).collect();
    assert_eq!(r, vec![arr(&[3]), arr(&[1, 2])]);
    let root = RootSelector {};
    assert_eq!(root.select(&doc).len(), 1);
    let all = path::new(vec![WildcardedChild {}, WildcardedChild {}]);
    let r: Vec<Json> = all.find(&doc).ok().unwrap().into_iter().map(copy).collect();
    assert_eq!(r, nums(&[1, 2, 3]));
}
