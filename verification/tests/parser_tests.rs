use code_intel::parser::{CallInfo, RustParser, SymbolInfo};
use code_intel::protocol::SymbolType;

#[test]
fn test_parse_simple_function() {
    let content = r#"
fn hello_world() {
    println!("Hello, world!");
}

pub fn add(a: i32, b: i32) -> i32 {
    a + b
}
"#;
    let mut parser = RustParser::new();
    parser.parse_file("test.rs", content).unwrap();

    let hello_fn = parser.find_symbol("hello_world", Some(SymbolType::Function)).unwrap();
    assert_eq!(hello_fn.len(), 1);
    assert_eq!(hello_fn[0].name, "hello_world");
    assert_eq!(hello_fn[0].visibility, "private");

    let add_fn = parser.find_symbol("add", Some(SymbolType::Function)).unwrap();
    assert_eq!(add_fn.len(), 1);
    assert_eq!(add_fn[0].name, "add");
    assert_eq!(add_fn[0].visibility, "pub");
    assert_eq!(add_fn[0].line, 6);
    assert_eq!(add_fn[0].column, 7);
    assert_eq!(add_fn[0].signature, "fn add(a : i32, b : i32) -> i32");
}

#[test]
fn test_parse_types() {
    let content = r#"
pub struct User {
    pub id: u64,
    pub name: String,
}

pub enum Status {
    Active,
    Inactive,
}

pub trait Drawable {
    fn draw(&self);
}

struct InternalState {
    counter: u32,
}
"#;
    let mut parser = RustParser::new();
    parser.parse_file("types.rs", content).unwrap();

    let user_struct = parser.find_symbol("User", Some(SymbolType::Struct)).unwrap();
    assert_eq!(user_struct.len(), 1);
    assert_eq!(user_struct[0].name, "User");
    assert_eq!(user_struct[0].visibility, "pub");
    assert_eq!(user_struct[0].symbol_type, SymbolType::Struct);

    let status_enum = parser.find_symbol("Status", Some(SymbolType::Enum)).unwrap();
    assert_eq!(status_enum.len(), 1);
    assert_eq!(status_enum[0].name, "Status");
    assert_eq!(status_enum[0].visibility, "pub");
    assert_eq!(status_enum[0].symbol_type, SymbolType::Enum);

    let drawable_trait = parser.find_symbol("Drawable", Some(SymbolType::Trait)).unwrap();
    assert_eq!(drawable_trait.len(), 1);
    assert_eq!(drawable_trait[0].name, "Drawable");
    assert_eq!(drawable_trait[0].visibility, "pub");
    assert_eq!(drawable_trait[0].symbol_type, SymbolType::Trait);

    let internal_struct = parser.find_symbol("InternalState", Some(SymbolType::Struct)).unwrap();
    assert_eq!(internal_struct.len(), 1);
    assert_eq!(internal_struct[0].visibility, "private");
}

#[test]
fn test_parse_generics() {
    let content = r#"
pub struct Container<T> {
    items: Vec<T>,
}

pub enum Result<T, E> {
    Ok(T),
    Err(E),
}

pub trait Iterator<Item> {
    fn next(&mut self) -> Option<Item>;
}
"#;
    let mut parser = RustParser::new();
    parser.parse_file("generics.rs", content).unwrap();

    let container = parser.find_symbol("Container", Some(SymbolType::Struct)).unwrap();
    assert_eq!(container.len(), 1);
    assert_eq!(container[0].generics, Some("<T>".to_string()));

    let result = parser.find_symbol("Result", Some(SymbolType::Enum)).unwrap();
    assert_eq!(result.len(), 1);
    assert_eq!(result[0].generics, Some("<T, E>".to_string()));

    let iterator = parser.find_symbol("Iterator", Some(SymbolType::Trait)).unwrap();
    assert_eq!(iterator.len(), 1);
    assert_eq!(iterator[0].generics, Some("<Item>".to_string()));
}

#[test]
fn restricted_visibility_is_shown_with_its_tokens() {
    let content = "pub(crate) fn a() {}\npub(super) fn b() {}\npub(in crate::x) fn c() {}\n";
    let mut parser = RustParser::new();
    parser.parse_file("v.rs", content).unwrap();
    assert_eq!(parser.find_symbol("a", None).unwrap()[0].visibility, "pub(crate)");
    assert_eq!(parser.find_symbol("b", None).unwrap()[0].visibility, "pub(pub (super) . path)");
    assert_eq!(
        parser.find_symbol("c", None).unwrap()[0].visibility,
        "pub(pub (in crate :: x) . path)"
    );
}

#[test]
fn calls_are_found_in_nested_expressions() {
    let content = r#"fn main() {
    let x = outer(inner(1), 2);
    if check(x) {
        x.method(arg());
    } else {
        other();
    }
    match pick() {
        1 => one(),
        _ => two() + three(),
    }
    std::mem::drop(x);
    println!("{}", hidden());
}
"#;
    let mut parser = RustParser::new();
    parser.parse_file("calls.rs", content).unwrap();
    let callees: Vec<String> =
        parser.get_call_graph().iter().map(|c| c.callee.clone()).collect();
    assert_eq!(
        callees,
        vec!["outer", "inner", "check", "method", "arg", "other", "pick", "one", "two", "three"]
    );
    let first = &parser.get_call_graph()[0];
    assert_eq!(first.caller, "main");
    assert_eq!(first.caller_file, "calls.rs");
    assert_eq!(first.caller_line, 1);
    assert_eq!(first.call_line, 2);
    assert_eq!(first.call_column, 12);
    assert_eq!(first.call_context, "let x = outer(inner(1), 2);");
}

#[test]
fn find_tells_a_missing_name_from_a_wrong_kind() {
    let mut parser = RustParser::new();
    parser.parse_file("a.rs", "pub struct Point { x: i32 }\n").unwrap();
    let wrong_kind = parser.find_symbol("Point", Some(SymbolType::Function));
    assert_eq!(wrong_kind.map(|v| v.len()), Some(0));
    assert!(parser.find_symbol("doesNotExist", None).is_none());
    assert!(parser.find_symbol("doesNotExist", Some(SymbolType::Struct)).is_none());
    assert_eq!(parser.find_symbol("Point", None).unwrap().len(), 1);
    assert_eq!(parser.find_symbol("Point", Some(SymbolType::Struct)).unwrap().len(), 1);
}

#[test]
fn one_name_may_have_several_definitions() {
    let mut parser = RustParser::new();
    parser.parse_file("a.rs", "fn twin() {}\nstruct twin;\n").unwrap();
    parser.parse_file("b.rs", "pub fn twin() {}\n").unwrap();
    let all = parser.find_symbol("twin", None).unwrap();
    assert_eq!(all.len(), 3);
    assert_eq!(all[0].file_path, "a.rs");
    assert_eq!(all[1].symbol_type, SymbolType::Struct);
    assert_eq!(all[2].file_path, "b.rs");
    assert_eq!(parser.find_symbol("twin", Some(SymbolType::Function)).unwrap().len(), 2);
    assert_eq!(parser.get_all_symbols().len(), 1);
}

#[test]
fn removing_a_file_drops_names_left_without_a_definition() {
    let mut parser = RustParser::new();
    parser.parse_file("a.rs", "fn only_a() { shared(); }\nfn shared() {}\n").unwrap();
    parser.parse_file("b.rs", "fn shared() { only_a(); }\n").unwrap();
    assert_eq!(parser.get_call_graph().len(), 2);
    parser.remove_file_symbols("a.rs");
    assert!(parser.find_symbol("only_a", None).is_none());
    let shared = parser.find_symbol("shared", None).unwrap();
    assert_eq!(shared.len(), 1);
    assert_eq!(shared[0].file_path, "b.rs");
    assert_eq!(parser.get_all_symbols().len(), 1);
    assert_eq!(parser.get_all_symbols()[0].name, "shared");
    assert_eq!(parser.get_call_graph().len(), 1);
    assert_eq!(parser.get_call_graph()[0].caller_file, "b.rs");
    parser.remove_file_symbols("b.rs");
    assert_eq!(parser.get_all_symbols().len(), 0);
    assert_eq!(parser.get_call_graph().len(), 0);
}

#[test]
fn a_text_that_cannot_be_parsed_changes_nothing() {
    let mut parser = RustParser::new();
    parser.parse_file("a.rs", "fn good() {}\n").unwrap();
    let error = parser.parse_file("bad.rs", "fn broken( {").unwrap_err();
    assert!(!error.message.is_empty());
    assert_eq!(parser.get_all_symbols().len(), 1);
    assert_eq!(parser.get_call_graph().len(), 0);
}

#[test]
fn only_top_level_items_are_indexed() {
    let content = r#"
mod inner { pub fn hidden() {} }
impl Foo { pub fn method(&self) {} }
fn outer() { fn local() {} }
pub struct Foo;
"#;
    let mut parser = RustParser::new();
    parser.parse_file("a.rs", content).unwrap();
    assert!(parser.find_symbol("hidden", None).is_none());
    assert!(parser.find_symbol("method", None).is_none());
    assert!(parser.find_symbol("local", None).is_none());
    assert!(parser.find_symbol("outer", None).is_some());
    assert!(parser.find_symbol("Foo", None).is_some());
}

#[test]
fn signatures_and_generics_are_rendered_from_the_tokens() {
    let content = "pub async fn fetch<T: Clone, const N: usize>(url: &str, n: [T; N]) -> Option<T> { None }\nfn unit() {}\n";
    let mut parser = RustParser::new();
    parser.parse_file("a.rs", content).unwrap();
    let fetch = parser.find_symbol("fetch", None).unwrap();
    assert_eq!(
        fetch[0].signature,
        "async fn fetch(url : & str, n : [T ; N]) -> Option < T >"
    );
    assert_eq!(fetch[0].generics, Some("<T : Clone, const N : usize>".to_string()));
    assert_eq!(fetch[0].line, 1);
    assert_eq!(fetch[0].column, 13);
    let unit = parser.find_symbol("unit", None).unwrap();
    assert_eq!(unit[0].signature, "fn unit()");
    assert_eq!(unit[0].generics, None);
}

#[test]
fn type_signatures_hold_keyword_name_and_generics() {
    let mut parser = RustParser::new();
    parser.parse_file("a.rs", "pub struct Pair<A, B>(A, B);\nenum E {}\ntrait T<X> {}\n").unwrap();
    assert_eq!(parser.find_symbol("Pair", None).unwrap()[0].signature, "struct Pair<A, B>");
    assert_eq!(parser.find_symbol("E", None).unwrap()[0].signature, "enum E");
    assert_eq!(parser.find_symbol("T", None).unwrap()[0].signature, "trait T<X>");
}

#[test]
fn calls_are_told_by_caller_and_by_callee() {
    let mut parser = RustParser::new();
    parser.parse_file("a.rs", "fn a() { b(); c(); }\nfn b() { c(); }\nfn c() {}\n").unwrap();
    let from_a: Vec<&str> =
        parser.get_calls_from_function("a").iter().map(|c| c.callee.as_str()).collect();
    assert_eq!(from_a, vec!["b", "c"]);
    let to_c: Vec<&str> =
        parser.get_calls_to_function("c").iter().map(|c| c.caller.as_str()).collect();
    assert_eq!(to_c, vec!["a", "b"]);
    assert!(parser.get_calls_from_function("c").is_empty());
    assert!(parser.get_calls_to_function("a").is_empty());
}

#[test]
fn a_call_through_a_path_is_not_attributed() {
    let mut parser = RustParser::new();
    parser
        .parse_file("a.rs", "fn a() { m::f(); Self::g(); h::<u8>(); (k)(); plain(); }\n")
        .unwrap();
    let callees: Vec<&str> = parser.get_call_graph().iter().map(|c| c.callee.as_str()).collect();
    assert_eq!(callees, vec!["plain"]);
}

#[test]
fn public_location_functions_take_the_text() {
    let parser = RustParser::new();
    let content = "fn a() {\n    b(1);\n}\n";
    assert_eq!(parser.find_symbol_location("a", content, "fn"), (1, 3));
    assert_eq!(parser.find_symbol_location("b", content, "fn"), (1, 0));
    assert_eq!(parser.find_call_location("b", content, 1), (2, 4));
    assert_eq!(parser.find_call_location("b", content, 3), (3, 0));
    assert_eq!(parser.get_line_context(content, 2), "b(1);");
    assert_eq!(parser.get_line_context(content, 4), "");
}

#[test]
fn records_can_be_added_one_by_one() {
    let symbol = |name: &str, file: &str| SymbolInfo {
        name: name.to_string(),
        symbol_type: SymbolType::Function,
        file_path: file.to_string(),
        line: 1,
        column: 3,
        signature: format!("fn {}()", name),
        visibility: "pub".to_string(),
        generics: None,
    };
    let mut parser = RustParser::new();
    parser.add_symbol(symbol("b", "x.rs"));
    parser.add_symbol(symbol("a", "x.rs"));
    parser.add_symbol(symbol("b", "y.rs"));
    parser.add_call(CallInfo {
        caller: "a".to_string(),
        caller_file: "x.rs".to_string(),
        caller_line: 1,
        callee: "b".to_string(),
        call_line: 1,
        call_column: 9,
        call_context: "fn a() { b() }".to_string(),
    });
    let names: Vec<&str> = parser.get_all_symbols().iter().map(|e| e.name.as_str()).collect();
    assert_eq!(names, vec!["b", "a"]);
    let b: Vec<&str> =
        parser.find_symbol("b", None).unwrap().iter().map(|s| s.file_path.as_str()).collect();
    assert_eq!(b, vec!["x.rs", "y.rs"]);
    let copy = parser.find_symbol("a", None).unwrap()[0].clone();
    assert_eq!(copy.signature, "fn a()");
    assert_eq!(parser.get_call_graph()[0].clone().call_column, 9);
    parser.remove_file_symbols("x.rs");
    let names: Vec<&str> = parser.get_all_symbols().iter().map(|e| e.name.as_str()).collect();
    assert_eq!(names, vec!["b"]);
    assert!(parser.get_call_graph().is_empty());
}

#[test]
fn calls_are_found_where_expressions_are_looked_into() {
    let content = r#"fn f() {
    let a = g(1);
    let Some(b) = h() else { return; };
    if p(a) { q(); } else if r() { s() } else { t(); }
    match u() { 1 => { v(); } _ => w(x()), }
    y(a) + z(b);
    a.m1().m2(n());
    (k());
    &l();
    o()?;
    c = d();
    c += e();
    loop { i(); }
    { j(); }
    unsafe { uu(); }
    || cl();
    tail(1)
}
"#;
    let mut parser = RustParser::new();
    parser.parse_file("t.rs", content).unwrap();
    let callees: Vec<&str> = parser.get_call_graph().iter().map(|c| c.callee.as_str()).collect();
    assert_eq!(
        callees,
        vec![
            "g", "h", "p", "q", "r", "s", "t", "u", "v", "w", "x", "y", "z", "m2", "m1", "n", "e",
            "j", "tail"
        ]
    );
}

#[test]
fn items_keep_their_attributes_and_order() {
    let content = r#"#![allow(dead_code)]
//! Crate text.

/// Documented.
#[derive(Debug)]
pub struct First<'a, T: Clone> { x: &'a T }

use std::fmt;

#[inline]
pub(crate) async unsafe fn second<const N: usize>(a: [u8; N], mut b: &mut dyn fmt::Debug) -> impl Sized { third() }

const C: u8 = 1;
fn third() {}
"#;
    let mut parser = RustParser::new();
    parser.parse_file("o.rs", content).unwrap();
    let names: Vec<&str> = parser.get_all_symbols().iter().map(|e| e.name.as_str()).collect();
    assert_eq!(names, vec!["First", "second", "third"]);
    let first = parser.find_symbol("First", None).unwrap();
    assert_eq!(first[0].generics.as_deref(), Some("<'a, T : Clone>"));
    assert_eq!(first[0].line, 6);
    let second = parser.find_symbol("second", None).unwrap();
    assert_eq!(
        second[0].signature,
        "async fn second(a : [u8 ; N], mut b : & mut dyn fmt :: Debug) -> impl Sized"
    );
    assert_eq!(second[0].visibility, "pub(crate)");
    assert_eq!(second[0].generics.as_deref(), Some("<const N : usize>"));
    assert_eq!(parser.get_call_graph().len(), 1);
    assert_eq!(parser.get_call_graph()[0].callee, "third");
    assert_eq!(parser.get_call_graph()[0].caller, "second");
}

#[test]
fn a_large_file_is_read_item_by_item() {
    let mut content = String::new();
    for f in 0..40 {
        content.push_str(&format!("pub fn work_{}(x: u32) -> u32 {{\n", f));
        for s in 0..10 {
            content.push_str(&format!(
                "    let v{} = if check(x) {{ first(second(x), third(x)) }} else {{ match pick(x) {{ 0 => zero(), _ => other(x) + more(x) }} }};\n",
                s
            ));
        }
        content.push_str("    done(x)\n}\n\n");
    }
    let mut parser = RustParser::new();
    parser.parse_file("big.rs", &content).unwrap();
    assert_eq!(parser.get_all_symbols().len(), 40);
    assert_eq!(parser.get_call_graph().len(), 40 * (10 * 8 + 1));
    let last = parser.find_symbol("work_39", None).unwrap();
    assert_eq!(last[0].line, 39 * 14 + 1);
    let from_seven: Vec<&str> =
        parser.get_calls_from_function("work_7").iter().map(|c| c.callee.as_str()).collect();
    assert_eq!(from_seven.len(), 81);
    assert_eq!(
        &from_seven[..9],
        ["check", "first", "second", "third", "pick", "zero", "other", "more", "check"]
    );
    assert_eq!(from_seven[80], "done");
    assert_eq!(parser.get_calls_to_function("done").len(), 40);
}

#[test]
fn literals_and_comments_do_not_hide_or_add_calls() {
    let content = "fn f() {\n    a(\"} {\", '}', r#\"q(\"z\")\"#, b(/* c() */ 1)); // d()\n    let s = \"e()\";\n    g(s)\n}\n";
    let mut parser = RustParser::new();
    parser.parse_file("l.rs", content).unwrap();
    let callees: Vec<&str> = parser.get_call_graph().iter().map(|c| c.callee.as_str()).collect();
    assert_eq!(callees, vec!["a", "b", "g"]);
    assert_eq!(parser.get_call_graph()[2].call_line, 4);
}
