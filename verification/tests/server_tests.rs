use code_intel::client::{interpret_response, ClientError, CodeIntelClient};
use code_intel::mcp_client::{
    classify_mcp_method, definition_report, internal_error, method_not_found, unknown_tool,
    McpClient, McpMethod, McpServerInfo, INTERNAL_ERROR, METHOD_NOT_FOUND,
};
use code_intel::indexer::{parse_source_file, CodeIndexer, ParsedFile, SourceFile};
use code_intel::observer::{is_structured_message, stats_push, StatsPush};
use code_intel::protocol::{
    CHANGE_PROJECT, FIND_DEFINITION, FIND_USAGES, GET_STATS, HEALTH_CHECK, LIST_SYMBOLS,
};
use code_intel::protocol::{
    ChangeProjectParams, FindDefinitionParams, StatsResponse, SymbolDefinition, SymbolType,
    SymbolUsage, UsageType,
};
use code_intel::server::{
    classify_method, failure_response, handle_change_project, handle_find_definition,
    handle_get_stats, handle_request, health_response, response_of,
    unknown_method_response, DirectoryScan, Method, RequestError, RequestParams, ResponseBody,
    ServerRequest, DEFAULT_PORT,
};

const MAIN_RS: &str = r#"fn main() {
    println!("Hello from test project!");
    let result = calculate_sum(10, 20);
    println!("Sum: {}", result);
    greet_user("Alice");
}

/// Adds two numbers.
pub fn calculate_sum(a: i32, b: i32) -> i32 {
    a + b
}

fn greet_user(name: &str) {
    println!("Hello, {}!", name);
}
"#;

fn parsed(path: &str, content: &str) -> ParsedFile {
    parse_source_file(&SourceFile {
        path: path.to_string(),
        content: Some(content.to_string()),
        modified: Some(7),
    })
}

fn project() -> CodeIndexer {
    let mut indexer = CodeIndexer::new();
    indexer.index_parsed(&parsed("/project/src/main.rs", MAIN_RS));
    indexer
}

fn request(id: u64, method: &str, params: RequestParams) -> ServerRequest {
    ServerRequest { id, method: method.to_string(), params }
}

#[test]
fn the_default_port_is_7777() {
    assert_eq!(DEFAULT_PORT, 7777);
}

#[test]
fn methods_are_told_by_their_names() {
    assert_eq!(classify_method("find_definition"), Method::FindDefinition);
    assert_eq!(classify_method("get_stats"), Method::GetStats);
    assert_eq!(classify_method("health_check"), Method::HealthCheck);
    assert_eq!(classify_method("change_project"), Method::ChangeProject);
    assert_eq!(classify_method("find_usages"), Method::Unknown);
    assert_eq!(classify_method("Find_Definition"), Method::Unknown);
    assert_eq!(classify_method(""), Method::Unknown);
}

#[test]
fn find_definition_answers_with_the_definition() {
    let mut indexer = project();
    let mut path = "/project".to_string();
    let req = request(
        1,
        "find_definition",
        RequestParams::FindDefinition(FindDefinitionParams {
            symbol_name: "calculate_sum".to_string(),
            symbol_type: None,
        }),
    );
    let resp = handle_request(&mut indexer, &mut path, &req, &DirectoryScan::Missing, 0).unwrap();
    assert_eq!(resp.id, 1);
    assert!(resp.error.is_none());
    match resp.result {
        Some(ResponseBody::Definitions(found)) => {
            assert_eq!(found.definitions.len(), 1);
            let d = &found.definitions[0];
            assert_eq!(d.name, "calculate_sum");
            assert_eq!(d.symbol_type, SymbolType::Function);
            assert_eq!(d.line, 9);
            assert_eq!(d.column, 7);
            assert_eq!(d.visibility, "pub");
            assert_eq!(d.file_path, "/project/src/main.rs");
            assert_eq!(d.signature, "fn calculate_sum(a : i32, b : i32) -> i32");
            assert_eq!(d.generics, None);
        }
        other => panic!("{:?}", other),
    }
    assert_eq!(path, "/project");
}

#[test]
fn find_definition_answers_with_nothing_for_an_unknown_name_or_kind() {
    let indexer = project();
    let missing = handle_find_definition(
        &indexer,
        &FindDefinitionParams { symbol_name: "nothing".to_string(), symbol_type: None },
    );
    assert!(missing.definitions.is_empty());
    let wrong_kind = handle_find_definition(
        &indexer,
        &FindDefinitionParams {
            symbol_name: "main".to_string(),
            symbol_type: Some(SymbolType::Trait),
        },
    );
    assert!(wrong_kind.definitions.is_empty());
}

#[test]
fn an_unknown_method_is_answered_with_an_error_and_the_next_request_is_served() {
    let mut indexer = project();
    let mut path = "/project".to_string();
    let bogus = request(2, "bogus", RequestParams::Unused);
    let resp = handle_request(&mut indexer, &mut path, &bogus, &DirectoryScan::Missing, 0).unwrap();
    assert_eq!(resp.id, 2);
    assert!(resp.result.is_none());
    assert_eq!(resp.error, Some("Unknown method: bogus".to_string()));

    let next = request(3, "get_stats", RequestParams::Unused);
    let resp = handle_request(&mut indexer, &mut path, &next, &DirectoryScan::Missing, 0).unwrap();
    assert_eq!(resp.id, 3);
    match resp.result {
        Some(ResponseBody::Stats(stats)) => {
            assert_eq!(
                stats,
                StatsResponse {
                    total_symbols: 3,
                    total_functions: 3,
                    total_structs: 0,
                    total_enums: 0,
                    total_traits: 0,
                    unique_symbol_names: 3,
                    indexed_files_count: 1,
                }
            );
        }
        other => panic!("{:?}", other),
    }
    let direct = unknown_method_response(9, "x y");
    assert_eq!((direct.id, direct.error), (9, Some("Unknown method: x y".to_string())));
}

#[test]
fn stats_are_sent_without_the_watching_flag() {
    let indexer = project();
    let stats = handle_get_stats(&indexer);
    assert_eq!(stats.total_functions, 3);
    assert_eq!(StatsResponse::from(indexer.get_stats()), stats);
}

#[test]
fn a_health_check_answers_ok_with_the_time() {
    let mut indexer = CodeIndexer::new();
    let mut path = ".".to_string();
    let req = request(4, "health_check", RequestParams::Unused);
    let resp = handle_request(&mut indexer, &mut path, &req, &DirectoryScan::Missing, 1_700_000_123)
        .unwrap();
    assert_eq!(resp.id, 4);
    assert!(resp.error.is_none());
    match resp.result {
        Some(ResponseBody::Health { status, timestamp }) => {
            assert_eq!(status, "ok");
            assert_eq!(timestamp, 1_700_000_123);
        }
        other => panic!("{:?}", other),
    }
    match health_response(5, -3).result {
        Some(ResponseBody::Health { status, timestamp }) => {
            assert_eq!((status.as_str(), timestamp), ("ok", -3));
        }
        other => panic!("{:?}", other),
    }
}

#[test]
fn parameters_that_cannot_be_read_fail_the_request() {
    let mut indexer = project();
    let mut path = "/project".to_string();
    let bad_find = request(5, "find_definition", RequestParams::Invalid);
    assert_eq!(
        handle_request(&mut indexer, &mut path, &bad_find, &DirectoryScan::Missing, 0).unwrap_err(),
        RequestError::InvalidFindDefinitionParams
    );
    let bad_change = request(6, "change_project", RequestParams::Unused);
    let scan = DirectoryScan::Files(vec![parsed("x.rs", "fn x() {}")]);
    assert_eq!(
        handle_request(&mut indexer, &mut path, &bad_change, &scan, 0).unwrap_err(),
        RequestError::InvalidChangeProjectParams
    );
    assert_eq!(path, "/project");
    assert!(indexer.find_definition("main", None).is_some());
    assert!(indexer.find_definition("x", None).is_none());
}

#[test]
fn a_failed_request_is_answered_under_the_number_zero() {
    for (error, text) in [
        (RequestError::MalformedRequest, "Internal error: Failed to parse request"),
        (
            RequestError::InvalidFindDefinitionParams,
            "Internal error: Invalid find_definition parameters",
        ),
        (
            RequestError::InvalidChangeProjectParams,
            "Internal error: Invalid change_project parameters",
        ),
        (RequestError::IndexFailed, "Internal error: Failed to index new project"),
    ] {
        let resp = response_of(Err(error));
        assert_eq!(resp.id, 0);
        assert!(resp.result.is_none());
        assert_eq!(resp.error.as_deref(), Some(text));
        assert_eq!(failure_response(error).error.as_deref(), Some(text));
        assert_eq!(format!("Internal error: {}", error.message()), text);
    }
    let ok = health_response(8, 1);
    let same = response_of(Ok(ok.clone()));
    assert_eq!(same.id, 8);
    assert!(same.error.is_none());
}

#[test]
fn change_project_says_when_the_path_is_no_directory() {
    let mut indexer = project();
    let mut path = "/project".to_string();
    let params = ChangeProjectParams { project_path: "/nowhere".to_string() };
    let missing =
        handle_change_project(&mut indexer, &mut path, &params, &DirectoryScan::Missing).unwrap();
    assert!(!missing.success);
    assert_eq!(missing.message, "Directory does not exist: /nowhere");
    assert!(missing.stats.is_none());
    let not_dir =
        handle_change_project(&mut indexer, &mut path, &params, &DirectoryScan::NotADirectory)
            .unwrap();
    assert!(!not_dir.success);
    assert_eq!(not_dir.message, "Path is not a directory: /nowhere");
    assert!(not_dir.stats.is_none());
    assert_eq!(path, "/project");
    assert_eq!(indexer.get_stats().total_functions, 3);
}

#[test]
fn change_project_replaces_the_whole_index() {
    let mut indexer = project();
    indexer.start_watching();
    let mut path = "/project".to_string();
    let req = request(
        10,
        "change_project",
        RequestParams::ChangeProject(ChangeProjectParams { project_path: "/other".to_string() }),
    );
    let scan = DirectoryScan::Files(vec![
        parsed("/other/a.rs", "pub struct A;\nfn a() {}\n"),
        parsed("/other/b.rs", "fn broken( {"),
    ]);
    let resp = handle_request(&mut indexer, &mut path, &req, &scan, 0).unwrap();
    assert_eq!(resp.id, 10);
    match resp.result {
        Some(ResponseBody::ChangeProject(changed)) => {
            assert!(changed.success);
            assert_eq!(changed.message, "Successfully changed project to: /other");
            let stats = changed.stats.unwrap();
            assert_eq!(stats.total_symbols, 2);
            assert_eq!(stats.total_structs, 1);
            assert_eq!(stats.indexed_files_count, 1);
        }
        other => panic!("{:?}", other),
    }
    assert_eq!(path, "/other");
    assert!(indexer.find_definition("main", None).is_none());
    assert!(indexer.find_definition("A", None).is_some());
    assert!(!indexer.get_stats().is_watching);
}

#[test]
fn change_project_fails_when_the_walk_fails() {
    let mut indexer = project();
    let mut path = "/project".to_string();
    let params = ChangeProjectParams { project_path: "/half".to_string() };
    let scan = DirectoryScan::Unreadable(vec![parsed("/half/a.rs", "fn a() {}\n")]);
    assert_eq!(
        handle_change_project(&mut indexer, &mut path, &params, &scan).unwrap_err(),
        RequestError::IndexFailed
    );
    assert_eq!(path, "/half");
    assert!(indexer.find_definition("main", None).is_none());
    assert!(indexer.find_definition("a", None).is_some());
}

#[test]
fn records_are_sent_as_they_are() {
    let indexer = project();
    let found = indexer.find_definition("greet_user", None).unwrap();
    let sent = SymbolDefinition::from(found[0].clone());
    assert_eq!(sent.name, "greet_user");
    assert_eq!(sent.symbol_type, SymbolType::Function);
    assert_eq!(sent.file_path, "/project/src/main.rs");
    assert_eq!((sent.line, sent.column), (13, 3));
    assert_eq!(sent.signature, "fn greet_user(name : & str)");
    assert_eq!(sent.visibility, "private");
    assert_eq!(sent.generics, None);

    let usage = code_intel::parser::UsageInfo {
        symbol_name: "f".to_string(),
        file_path: "a.rs".to_string(),
        line: 2,
        column: 4,
        usage_type: code_intel::parser::UsageType::TraitUsage,
        context: "impl f for X".to_string(),
    };
    let sent = SymbolUsage::from(usage);
    assert_eq!(sent.usage_type, UsageType::TraitUsage);
    assert_eq!((sent.line, sent.column), (2, 4));
    assert_eq!(sent.context, "impl f for X");
    assert_eq!(sent.symbol_name, "f");
    assert_eq!(sent.file_path, "a.rs");
}

#[test]
fn a_client_takes_the_error_before_the_result() {
    let both = interpret_response(Some(1), Some("boom".to_string())).unwrap_err();
    assert_eq!(both.message(), "Server error: boom");
    assert!(matches!(both, ClientError::Server(_)));
    assert_eq!(interpret_response(Some(5), None).unwrap(), 5);
    let neither = interpret_response::<u8>(None, None).unwrap_err();
    assert_eq!(neither.message(), "No result in response");

    let client = CodeIntelClient::new(7777);
    assert_eq!(client.port(), 7777);
    let query = client.definition_query("main", Some(SymbolType::Function));
    assert_eq!(query.symbol_name, "main");
    assert_eq!(query.symbol_type, Some(SymbolType::Function));
    let mcp = McpClient::new(81);
    assert_eq!(mcp.port(), 81);
    assert_eq!(mcp.client().port(), 81);
}

#[test]
fn tool_messages_are_told_by_their_method() {
    assert_eq!(classify_mcp_method("initialize"), McpMethod::Initialize);
    assert_eq!(classify_mcp_method("tools/list"), McpMethod::ToolsList);
    assert_eq!(classify_mcp_method("tools/call"), McpMethod::ToolsCall);
    assert_eq!(classify_mcp_method("resources/list"), McpMethod::ResourcesList);
    assert_eq!(classify_mcp_method("notifications/initialized"), McpMethod::Notification);
    assert_eq!(classify_mcp_method("notifications/"), McpMethod::Notification);
    assert_eq!(classify_mcp_method("initialized"), McpMethod::Notification);
    assert_eq!(classify_mcp_method("ping"), McpMethod::Ping);
    assert_eq!(classify_mcp_method("notifications"), McpMethod::Unknown);
    assert_eq!(classify_mcp_method("tools/run"), McpMethod::Unknown);
    assert_eq!(definition_report("f", 0, "[]"), "No definition found for symbol 'f'");
    assert_eq!(definition_report("f", 2, "[a, b]"), "Found 2 definition(s) for symbol 'f':\n\n[a, b]");
}

#[test]
fn the_names_of_the_methods_are_fixed() {
    assert_eq!(classify_method(FIND_DEFINITION), Method::FindDefinition);
    assert_eq!(classify_method(GET_STATS), Method::GetStats);
    assert_eq!(classify_method(HEALTH_CHECK), Method::HealthCheck);
    assert_eq!(classify_method(CHANGE_PROJECT), Method::ChangeProject);
    assert_eq!(FIND_USAGES, "find_usages");
    assert_eq!(LIST_SYMBOLS, "list_symbols");
}

#[test]
fn messages_with_a_type_are_handed_on_as_they_are() {
    assert!(is_structured_message("{\"type\":\"stats\"}"));
    assert!(is_structured_message("{ x \"type\""));
    assert!(!is_structured_message(" {\"type\":\"stats\"}"));
    assert!(!is_structured_message("{\"typ\":1}"));
    assert!(!is_structured_message("plain \"type\""));
    assert!(!is_structured_message(""));
    let mut indexer = project();
    indexer.start_watching();
    assert_eq!(
        stats_push(&indexer.get_stats()),
        StatsPush { indexed_files: 1, total_symbols: 3, unique_names: 3, is_watching: true }
    );
}

#[test]
fn errors_of_the_tool_protocol_have_their_codes() {
    let e = method_not_found("tools/run");
    assert_eq!((e.code, e.message.as_str()), (-32601, "Method not found: tools/run"));
    let e = unknown_tool("grep");
    assert_eq!((e.code, e.message.as_str()), (-32601, "Unknown tool: grep"));
    let e = internal_error("Missing tool name");
    assert_eq!((e.code, e.message.as_str()), (-32603, "Internal error: Missing tool name"));
    assert_eq!((METHOD_NOT_FOUND, INTERNAL_ERROR), (-32601, -32603));
    let info = McpServerInfo { name: "code-intel".to_string(), version: "0.1.0".to_string() };
    assert_eq!(info.clone().name, "code-intel");
}
