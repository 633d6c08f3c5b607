use jsonpath_reference::ast::{Path, Selector, UnionElement};
use jsonpath_reference::json::Json;
use jsonpath_reference::matchers::{ArrayIndex, Matcher, WildcardedChild};
use jsonpath_reference::parser::{parse, to_double_quoted};

fn num(n: i128) -> Json {
    Json::Number(n)
}

fn arr(ns: &[i128]) -> Json {
    Json::Array(ns.iter().map(|n| num(*n)).collect())
}

fn obj(members: Vec<(&str, Json)>) -> Json {
    Json::Object(members.into_iter().map(|(k, v)| (k.to_owned(), v)).collect())
}

fn foo_bar_baz() -> Json {
    obj(vec![("foo", obj(vec![("bar", obj(vec![("baz", arr(&[10, 20, 30, 40, 50, 60]))]))]))])
}

#[test]
fn demo() {
    let a1 = Path::Sel(Box::new(Path::Root), Selector::DotName("foo".to_owned()));
    let a2 = Path::Sel(Box::new(a1), Selector::DotName("bar".to_owned()));
    let a3 = Path::Sel(
        Box::new(a2),
        Selector::Union(vec![UnionElement::Name("baz".to_owned())]),
    );
    let a4 = Path::Sel(Box::new(a3), Selector::Union(vec![UnionElement::Index(4)]));

    let j = foo_bar_baz();
    println!("j: {:?}", j);

    let v = a4.find(&j);
    assert_eq!(v[0], &num(50));
}

#[test]
fn parse_demo() -> Result<(), String> {
    let p = parse("$.foo['bar'].*[4,-1]")?;
    println!("AST: {:?}", &p);
    let j = foo_bar_baz();

    let v = p.find(&j);
    println!("RES: {:?}", v);

    assert_eq!(v[0], &num(50));
    assert_eq!(v[1], &num(60));
    Ok(())
}

#[test]
fn object_wildcard() {
    let s = WildcardedChild {};
    let j = obj(vec![("a", num(1)), ("b", num(2))]);
    let r: Vec<&Json> = s.select(&j);
    assert_eq!(format!("{:?}", r), "[Number(1), Number(2)]");
}

#[test]
fn array_wildcard() {
    let s = WildcardedChild {};
    let j = arr(&[1, 2]);
    let r: Vec<&Json> = s.select(&j);
    assert_eq!(format!("{:?}", r), "[Number(1), Number(2)]");
}

#[test]
fn array_index() {
    let s = ArrayIndex::new(1);
    let j = arr(&[1, 2]);
    let r: Vec<&Json> = s.select(&j);
    assert_eq!(format!("{:?}", r), "[Number(2)]");
}

#[test]
fn array_index_zero() {
    let s = ArrayIndex::new(0);
    let j = arr(&[1, 2]);
    let r: Vec<&Json> = s.select(&j);
    assert_eq!(format!("{:?}", r), "[Number(1)]");
}

#[test]
fn array_index_oob() {
    let s = ArrayIndex::new(4);
    let j = arr(&[1, 2]);
    let r: Vec<&Json> = s.select(&j);
    assert_eq!(r.len(), 0);
}

#[test]
fn array_index_negative() {
    let s = ArrayIndex::new(-1);
    let j = arr(&[1, 2]);
    let r: Vec<&Json> = s.select(&j);
    assert_eq!(format!("{:?}", r), "[Number(2)]");
}

#[test]
fn array_index_negative_oob() {
    let s = ArrayIndex::new(-10);
    let j = arr(&[1, 2]);
    let r: Vec<&Json> = s.select(&j);
    assert_eq!(r.len(), 0);
}

#[test]
fn test_to_double() {
    assert_eq!(to_double_quoted(r#"ab"#), r#"ab"#);
    assert_eq!(to_double_quoted(r#"a"b"#), r#"a\"b"#);
    assert_eq!(to_double_quoted(r#"a\'b"#), r#"a'b"#);
    assert_eq!(to_double_quoted(r#"a\nb"#), r#"a\nb"#);
    assert_eq!(to_double_quoted(r#"a\bb"#), r#"a\bb"#);
    assert_eq!(to_double_quoted(r#"a\\b"#), r#"a\\b"#);
}
