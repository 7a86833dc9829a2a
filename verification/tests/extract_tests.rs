use code_intel::front::{access_for, declare, FunctionParts, ItemKind, VisibilityForm};
use code_intel::parser::RustParser;
use code_intel::protocol::SymbolType;
use code_intel::syntax::{Access, Declaration, Expression, FunctionDecl, Statement, TypeDecl};

fn call(name: &str, args: Vec<Expression>) -> Expression {
    Expression::Call { callee: Some(name.to_string()), args }
}

fn function(name: &str, body: Vec<Statement>) -> Declaration {
    Declaration::Function(FunctionDecl {
        name: name.to_string(),
        is_async: false,
        params: vec![],
        output: None,
        vis: Access::Inherited,
        generics: vec![],
        body,
    })
}

#[test]
fn extract_adds_symbols_and_calls_of_written_items() {
    let content = "fn run() {\n    step(load());\n}\npub(crate) struct Job<T>;\n";
    let items = vec![
        function("run", vec![Statement::Expression(call("step", vec![call("load", vec![])]))]),
        Declaration::Struct(TypeDecl {
            name: "Job".to_string(),
            vis: Access::Crate,
            generics: vec!["T".to_string()],
        }),
        Declaration::Other,
    ];
    let mut parser = RustParser::new();
    parser.extract("job.rs", &items, content);

    let run = parser.find_symbol("run", Some(SymbolType::Function)).unwrap();
    assert_eq!(run.len(), 1);
    assert_eq!((run[0].line, run[0].column), (1, 3));
    assert_eq!(run[0].signature, "fn run()");
    assert_eq!(run[0].visibility, "private");
    assert_eq!(run[0].file_path, "job.rs");

    let job = parser.find_symbol("Job", None).unwrap();
    assert_eq!(job[0].symbol_type, SymbolType::Struct);
    assert_eq!(job[0].visibility, "pub(crate)");
    assert_eq!(job[0].generics, Some("<T>".to_string()));
    assert_eq!(job[0].signature, "struct Job<T>");
    assert_eq!((job[0].line, job[0].column), (4, 18));

    let calls = parser.get_call_graph();
    assert_eq!(calls.len(), 2);
    assert_eq!(calls[0].callee, "step");
    assert_eq!((calls[0].call_line, calls[0].call_column), (2, 4));
    assert_eq!(calls[1].callee, "load");
    assert_eq!((calls[1].call_line, calls[1].call_column), (2, 9));
    assert_eq!(calls[1].call_context, "step(load());");
    assert_eq!(calls[1].caller, "run");
    assert_eq!(calls[1].caller_line, 1);
}

#[test]
fn every_part_of_an_expression_is_looked_into_in_order() {
    let expr = Expression::If {
        cond: Box::new(Expression::Binary {
            left: Box::new(call("l", vec![])),
            right: Box::new(call("r", vec![])),
        }),
        then_branch: vec![
            Statement::Local(Some(Expression::MethodCall {
                method: "m".to_string(),
                receiver: Box::new(call("recv", vec![])),
                args: vec![call("arg", vec![])],
            })),
            Statement::Local(None),
            Statement::Declaration,
            Statement::Macro,
        ],
        else_branch: Some(Box::new(Expression::Block(vec![Statement::Expression(
            Expression::Match {
                scrutinee: Box::new(call("s", vec![])),
                arms: vec![call("a1", vec![]), Expression::Other, call("a2", vec![])],
            },
        )]))),
    };
    let mut parser = RustParser::new();
    parser.extract_calls_from_expr(&expr, "f", "x.rs", 3, "");
    let callees: Vec<&str> = parser.get_call_graph().iter().map(|c| c.callee.as_str()).collect();
    assert_eq!(callees, vec!["l", "r", "m", "recv", "arg", "s", "a1", "a2"]);
    for c in parser.get_call_graph() {
        assert_eq!(c.caller, "f");
        assert_eq!(c.caller_file, "x.rs");
        assert_eq!(c.caller_line, 3);
        assert_eq!((c.call_line, c.call_column), (3, 0));
        assert_eq!(c.call_context, "");
    }
}

#[test]
fn a_call_without_a_plain_name_still_has_its_arguments_looked_into() {
    let expr = Expression::Call { callee: None, args: vec![call("inner", vec![])] };
    let mut parser = RustParser::new();
    parser.extract_calls_from_expr(&expr, "f", "x.rs", 1, "fn f() { a::b(inner()); }");
    assert_eq!(parser.get_call_graph().len(), 1);
    assert_eq!(parser.get_call_graph()[0].callee, "inner");
    assert_eq!(parser.get_call_graph()[0].call_column, 14);
}

#[test]
fn statements_and_blocks_add_their_calls() {
    let mut parser = RustParser::new();
    parser.extract_calls_from_stmt(&Statement::Local(Some(call("one", vec![]))), "f", "x.rs", 1, "");
    parser.extract_calls_from_stmt(&Statement::Macro, "f", "x.rs", 1, "");
    parser.extract_calls_from_block(
        &vec![Statement::Expression(call("two", vec![])), Statement::Declaration],
        "f",
        "x.rs",
        1,
        "",
    );
    let callees: Vec<&str> = parser.get_call_graph().iter().map(|c| c.callee.as_str()).collect();
    assert_eq!(callees, vec!["one", "two"]);
}

#[test]
fn visibility_and_generics_are_shown_as_text() {
    let parser = RustParser::new();
    assert_eq!(parser.format_visibility(&Access::Public), "pub");
    assert_eq!(parser.format_visibility(&Access::Crate), "pub(crate)");
    assert_eq!(parser.format_visibility(&Access::Inherited), "private");
    assert_eq!(parser.format_visibility(&Access::Restricted("x".to_string())), "pub(x)");
    assert_eq!(parser.format_generics(&vec![]), None);
    assert_eq!(
        parser.format_generics(&vec!["'a".to_string(), "T".to_string()]),
        Some("<'a, T>".to_string())
    );
}

#[test]
fn a_signature_joins_the_parameters_with_commas() {
    let parser = RustParser::new();
    let f = FunctionDecl {
        name: "go".to_string(),
        is_async: true,
        params: vec!["a : u8".to_string(), "b : u8".to_string(), "c : u8".to_string()],
        output: Some("bool".to_string()),
        vis: Access::Public,
        generics: vec![],
        body: vec![],
    };
    assert_eq!(parser.format_signature(&f), "async fn go(a : u8, b : u8, c : u8) -> bool");
    let info = parser.extract_function_info(&f, "p.rs", "pub async fn go() {}");
    assert_eq!(info.name, "go");
    assert_eq!(info.symbol_type, SymbolType::Function);
    assert_eq!((info.line, info.column), (1, 13));
    assert_eq!(info.visibility, "pub");
    assert_eq!(info.generics, None);
}

#[test]
fn type_records_are_located_by_their_keyword() {
    let parser = RustParser::new();
    let t = TypeDecl { name: "Thing".to_string(), vis: Access::Public, generics: vec![] };
    let content = "pub trait Thing {}\npub enum Thing {}\npub struct Thing;\n";
    assert_eq!(parser.extract_trait_info(&t, "t.rs", content).line, 1);
    assert_eq!(parser.extract_enum_info(&t, "t.rs", content).line, 2);
    let s = parser.extract_struct_info(&t, "t.rs", content);
    assert_eq!(s.line, 3);
    assert_eq!(s.column, 11);
    assert_eq!(s.signature, "struct Thing");
    assert_eq!(s.symbol_type, SymbolType::Struct);
}

#[test]
fn a_visibility_is_shown_by_its_form() {
    let tokens = || "pub (super)".to_string();
    let ident = |name: &str| Some(name.to_string());
    assert!(matches!(access_for(VisibilityForm::Public, None, tokens()), Access::Public));
    assert!(matches!(access_for(VisibilityForm::Public, ident("crate"), tokens()), Access::Public));
    assert!(matches!(
        access_for(VisibilityForm::Inherited, ident("crate"), tokens()),
        Access::Inherited
    ));
    assert!(matches!(
        access_for(VisibilityForm::Restricted, ident("crate"), tokens()),
        Access::Crate
    ));
    match access_for(VisibilityForm::Restricted, ident("super"), tokens()) {
        Access::Restricted(shown) => assert_eq!(shown, "pub (super) . path"),
        other => panic!("{:?}", other),
    }
    match access_for(VisibilityForm::Restricted, ident("Crate"), tokens()) {
        Access::Restricted(shown) => assert_eq!(shown, "pub (super) . path"),
        other => panic!("{:?}", other),
    }
    match access_for(VisibilityForm::Restricted, None, String::new()) {
        Access::Restricted(shown) => assert_eq!(shown, " . path"),
        other => panic!("{:?}", other),
    }
}

#[test]
fn a_declaration_is_made_of_what_was_read() {
    let parts = || FunctionParts {
        is_async: true,
        params: vec!["x : u8".to_string()],
        output: Some("u8".to_string()),
        body: vec![Statement::Macro],
    };
    let generics = || vec!["T".to_string()];
    let name = || Some("n".to_string());
    match declare(ItemKind::Function, name(), Access::Public, generics(), Some(parts())) {
        Declaration::Function(f) => {
            assert_eq!(f.name, "n");
            assert!(f.is_async);
            assert_eq!(f.params, vec!["x : u8"]);
            assert_eq!(f.output, Some("u8".to_string()));
            assert!(matches!(f.vis, Access::Public));
            assert_eq!(f.generics, vec!["T"]);
            assert!(matches!(f.body.as_slice(), [Statement::Macro]));
        }
        other => panic!("{:?}", other),
    }
    assert!(matches!(
        declare(ItemKind::Function, name(), Access::Public, generics(), None),
        Declaration::Other
    ));
    assert!(matches!(
        declare(ItemKind::Function, None, Access::Public, generics(), Some(parts())),
        Declaration::Other
    ));
    assert!(matches!(
        declare(ItemKind::Other, name(), Access::Public, generics(), Some(parts())),
        Declaration::Other
    ));
    match declare(ItemKind::Struct, name(), Access::Crate, generics(), Some(parts())) {
        Declaration::Struct(t) => {
            assert_eq!(t.name, "n");
            assert!(matches!(t.vis, Access::Crate));
            assert_eq!(t.generics, vec!["T"]);
        }
        other => panic!("{:?}", other),
    }
    assert!(matches!(
        declare(ItemKind::Enum, name(), Access::Inherited, vec![], None),
        Declaration::Enum(_)
    ));
    assert!(matches!(
        declare(ItemKind::Trait, name(), Access::Inherited, vec![], None),
        Declaration::Trait(_)
    ));
    assert!(matches!(
        declare(ItemKind::Trait, None, Access::Inherited, vec![], None),
        Declaration::Other
    ));
}
