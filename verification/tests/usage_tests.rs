use code_intel::indexer::SourceFile;
use code_intel::parser::{RustParser, UsageType};
use code_intel::usage::text_is_before;
use code_intel::protocol::SymbolType;

#[test]
fn uses_are_found_as_words_of_their_own() {
    let parser = RustParser::new();
    let content = "fn helper() {}\nfn main() {\n    helper();\n    let helper_two = helpers(helper);\n}\n";
    let uses = parser.find_usages_in_content("helper", Some(SymbolType::Function), content, "m.rs");
    let places: Vec<(usize, usize, UsageType)> =
        uses.iter().map(|u| (u.line, u.column, u.usage_type)).collect();
    assert_eq!(places, vec![(3, 4, UsageType::FunctionCall), (4, 29, UsageType::Reference)]);
    assert_eq!(uses[0].context, "helper();");
    assert_eq!(uses[0].symbol_name, "helper");
    assert_eq!(uses[0].file_path, "m.rs");
}

#[test]
fn the_line_of_a_definition_holds_no_use() {
    let parser = RustParser::new();
    let content = "pub fn f() { f() }\nstruct f;\nf();\n";
    let as_fn = parser.find_usages_in_content("f", Some(SymbolType::Function), content, "a.rs");
    assert_eq!(as_fn.iter().map(|u| u.line).collect::<Vec<_>>(), vec![2, 3]);
    let any = parser.find_usages_in_content("f", None, content, "a.rs");
    assert_eq!(any.iter().map(|u| u.line).collect::<Vec<_>>(), vec![3]);
}

#[test]
fn several_uses_on_one_line_are_all_found() {
    let parser = RustParser::new();
    let uses = parser.find_usages_in_content("x", None, "x + x(x) _x x_ xx\n", "a.rs");
    let places: Vec<(usize, UsageType)> = uses.iter().map(|u| (u.column, u.usage_type)).collect();
    assert_eq!(
        places,
        vec![(0, UsageType::Reference), (4, UsageType::FunctionCall), (6, UsageType::Reference)]
    );
}

#[test]
fn the_kind_of_a_use_follows_the_line() {
    let parser = RustParser::new();
    let kind = |line: &str, pos: usize, name: &str, t: Option<SymbolType>| {
        parser.determine_usage_type(line, pos, name, t)
    };
    assert_eq!(kind("  foo  (1)", 2, "foo", None), UsageType::FunctionCall);
    assert_eq!(kind("let p = Point::new();", 8, "Point", Some(SymbolType::Struct)), UsageType::TypeUsage);
    assert_eq!(kind("let p = Point { x };", 8, "Point", Some(SymbolType::Enum)), UsageType::TypeUsage);
    assert_eq!(kind("let p = Point { x };", 8, "Point", Some(SymbolType::Function)), UsageType::Reference);
    assert_eq!(kind("impl Draw for X {}", 5, "Draw", Some(SymbolType::Trait)), UsageType::TraitUsage);
    assert_eq!(kind("fn f(d: &dyn Draw)", 13, "Draw", Some(SymbolType::Trait)), UsageType::Reference);
    assert_eq!(kind("  use a::Draw;", 9, "Draw", Some(SymbolType::Trait)), UsageType::Import);
    assert_eq!(kind("use a::Draw;", 7, "Draw", Some(SymbolType::Struct)), UsageType::TypeUsage);
    assert_eq!(kind("x = y;", 4, "y", None), UsageType::Reference);
    assert_eq!(kind("f(", 100, "f", None), UsageType::Reference);
    assert_eq!(kind("f(", usize::MAX, "f", None), UsageType::Reference);
    assert_eq!(kind("é(", 1, "", None), UsageType::Reference);
    assert_eq!(kind("é(", 2, "", None), UsageType::FunctionCall);
}

#[test]
fn definition_lines_are_told_by_keyword_and_name() {
    let parser = RustParser::new();
    assert!(parser.is_definition_line("    pub async fn go() {", "go", Some(SymbolType::Function)));
    assert!(parser.is_definition_line("pub(crate) struct S;", "S", Some(SymbolType::Struct)));
    assert!(parser.is_definition_line("enum E {", "E", None));
    assert!(parser.is_definition_line("pub(super) trait T {", "T", Some(SymbolType::Trait)));
    assert!(!parser.is_definition_line("struct S;", "S", Some(SymbolType::Function)));
    assert!(!parser.is_definition_line("let go = 1;", "go", None));
    assert!(parser.is_definition_line("fn going() {}", "go", None));
}

#[test]
fn columns_of_uses_are_byte_offsets() {
    let parser = RustParser::new();
    let uses = parser.find_usages_in_content("f", None, "éé  f();\n", "a.rs");
    assert_eq!(uses.len(), 1);
    assert_eq!(uses[0].column, 6);
    assert_eq!(uses[0].usage_type, UsageType::FunctionCall);
}

#[test]
fn word_boundaries_are_looked_up_by_byte_offset() {
    let parser = RustParser::new();
    assert!(parser.find_usages_in_content("f", None, "é f();\n", "a.rs").is_empty());
    assert_eq!(parser.find_usages_in_content("f", None, "f(); é\n", "a.rs").len(), 1);
}

#[test]
fn uses_over_all_files_are_sorted_and_found_once() {
    let file = |path: &str, content: Option<&str>| SourceFile {
        path: path.to_string(),
        content: content.map(|c| c.to_string()),
        modified: None,
    };
    let b = "fn other() { target(); }\nfn again() { target(); target(); }\n";
    let a = "fn target() {}\nfn user() { target(); }\n";
    let mut parser = RustParser::new();
    parser.parse_file("b.rs", b).unwrap();
    parser.parse_file("a.rs", a).unwrap();
    parser.parse_file("gone.rs", "fn lost() { target(); }\n").unwrap();
    let files = vec![file("b.rs", Some(b)), file("a.rs", Some(a)), file("gone.rs", None)];
    let uses = parser.find_usages("target", Some(SymbolType::Function), &files);
    let places: Vec<(&str, usize, usize)> =
        uses.iter().map(|u| (u.file_path.as_str(), u.line, u.column)).collect();
    assert_eq!(
        places,
        vec![("a.rs", 2, 12), ("b.rs", 1, 13), ("b.rs", 2, 13), ("b.rs", 2, 23)]
    );
    assert!(uses.iter().all(|u| u.usage_type == UsageType::FunctionCall));
    assert!(parser.find_usages("target", None, &vec![]).is_empty());
}

#[test]
fn texts_are_ordered_like_strings() {
    let words = ["", "a", "a.rs", "ab", "b", "B", "é", "z", "😀", "a/b", "a b"];
    for x in words {
        for y in words {
            assert_eq!(text_is_before(&x.to_string(), &y.to_string()), x < y, "{:?} {:?}", x, y);
        }
    }
}
