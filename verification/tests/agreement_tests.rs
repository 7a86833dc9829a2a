use code_intel::indexer::CodeIndexer;
use code_intel::parser::{RustParser, UsageType};
use code_intel::protocol::SymbolType;
use code_intel::text::{byte_offset_of, find_chars, to_chars, trimmed};
use std::path::Path;

const TEXTS: [&str; 9] = [
    "",
    "fn a() {}\n",
    "pub fn target(x: u8) -> u8 { helper(x) }\n\nfn helper(x: u8) -> u8 { x }\n",
    "  pub(crate) async fn go() {\n\tgo();\r\n    other(go);\n}\r\n",
    "// fn ghost\nstruct ghost;\nimpl Draw for ghost {}\nuse a::ghost;\n",
    "pub struct Point { x: i32 }\nlet p = Point { x: 1 };\nPoint::new();\n",
    "trait Draw { fn draw(&self); }\nenum Draw2 {}\npub(super) trait  Draw {}\n",
    "fn é() { ü(); }\nfn ü() {}\n/* é */ fn z() { é(); }\n",
    "x\n\n\nlast line without end",
];

const NAMES: [&str; 10] =
    ["a", "target", "helper", "go", "ghost", "Point", "Draw", "x", "z", "missing"];

fn std_symbol_location(symbol_name: &str, content: &str, keyword: &str) -> (usize, usize) {
    for (line_idx, line) in content.lines().enumerate() {
        let trimmed = line.trim();
        let patterns = vec![
            format!("{} {}", keyword, symbol_name),
            format!("pub {} {}", keyword, symbol_name),
            format!("pub(crate) {} {}", keyword, symbol_name),
            format!("pub(super) {} {}", keyword, symbol_name),
            format!("async {} {}", keyword, symbol_name),
            format!("pub async {} {}", keyword, symbol_name),
        ];
        for pattern in patterns {
            if trimmed.contains(&pattern) {
                return (line_idx + 1, line.find(symbol_name).unwrap_or(0));
            }
        }
    }
    (1, 0)
}

fn std_call_location(callee: &str, content: &str, start_line: usize) -> (usize, usize) {
    for (line_idx, line) in content.lines().enumerate().skip(start_line.saturating_sub(1)) {
        if let Some(col) = line.find(&format!("{}(", callee)) {
            return (line_idx + 1, col);
        }
    }
    (start_line, 0)
}

fn std_line_context(content: &str, line: usize) -> String {
    let lines: Vec<&str> = content.lines().collect();
    if line > 0 && line <= lines.len() {
        lines[line - 1].trim().to_string()
    } else {
        String::new()
    }
}

fn std_is_definition_line(line: &str, symbol_name: &str, symbol_type: Option<SymbolType>) -> bool {
    let trimmed = line.trim();
    let keywords: Vec<&str> = match symbol_type {
        Some(SymbolType::Function) => vec!["fn", "async fn"],
        Some(SymbolType::Struct) => vec!["struct"],
        Some(SymbolType::Enum) => vec!["enum"],
        Some(SymbolType::Trait) => vec!["trait"],
        None => vec!["fn", "async fn", "struct", "enum", "trait"],
    };
    for keyword in keywords {
        let pattern = format!("{} {}", keyword, symbol_name);
        if trimmed.contains(&pattern)
            || trimmed.contains(&format!("pub {}", pattern))
            || trimmed.contains(&format!("pub(crate) {}", pattern))
            || trimmed.contains(&format!("pub(super) {}", pattern))
        {
            return true;
        }
    }
    false
}

fn std_usage_type(
    line: &str,
    pos: usize,
    symbol_name: &str,
    symbol_type: Option<SymbolType>,
) -> UsageType {
    let trimmed = line.trim();
    if let Some(after_symbol) = line.get(pos + symbol_name.len()..) {
        if after_symbol.trim_start().starts_with('(') {
            return UsageType::FunctionCall;
        }
    }
    if symbol_type == Some(SymbolType::Struct) || symbol_type == Some(SymbolType::Enum) {
        if trimmed.contains("::") || trimmed.contains('{') {
            return UsageType::TypeUsage;
        }
    }
    if symbol_type == Some(SymbolType::Trait) {
        if trimmed.contains("impl") || trimmed.contains("for") {
            return UsageType::TraitUsage;
        }
    }
    if trimmed.starts_with("use ") {
        return UsageType::Import;
    }
    UsageType::Reference
}

fn std_usages(
    symbol_name: &str,
    symbol_type: Option<SymbolType>,
    content: &str,
) -> Vec<(usize, usize, UsageType, String)> {
    let mut usages = Vec::new();
    for (line_idx, line) in content.lines().enumerate() {
        let mut char_offset = 0;
        while let Some(pos) = line[char_offset..].find(symbol_name) {
            let absolute_pos = char_offset + pos;
            let before_char =
                if absolute_pos > 0 { line.chars().nth(absolute_pos - 1) } else { None };
            let after_char = line.chars().nth(absolute_pos + symbol_name.len());
            let before_ok = before_char.map_or(true, |c| !c.is_alphanumeric() && c != '_');
            let after_ok = after_char.map_or(true, |c| !c.is_alphanumeric() && c != '_');
            if before_ok && after_ok {
                let usage_type = std_usage_type(line, absolute_pos, symbol_name, symbol_type);
                if !std_is_definition_line(line, symbol_name, symbol_type) {
                    usages.push((line_idx + 1, absolute_pos, usage_type, line.trim().to_string()));
                }
            }
            char_offset = absolute_pos + 1;
        }
    }
    usages
}

const KINDS: [Option<SymbolType>; 5] = [
    None,
    Some(SymbolType::Function),
    Some(SymbolType::Struct),
    Some(SymbolType::Enum),
    Some(SymbolType::Trait),
];

#[test]
fn locations_agree_with_a_search_by_std() {
    let parser = RustParser::new();
    for content in TEXTS {
        for name in NAMES.iter().chain(["é", "ü"].iter()) {
            for keyword in ["fn", "struct", "enum", "trait"] {
                assert_eq!(
                    parser.find_symbol_location(name, content, keyword),
                    std_symbol_location(name, content, keyword),
                    "{:?} {:?} {:?}",
                    name,
                    keyword,
                    content
                );
            }
            for start in 0..7 {
                assert_eq!(
                    parser.find_call_location(name, content, start),
                    std_call_location(name, content, start),
                    "{:?} {:?} {:?}",
                    name,
                    start,
                    content
                );
            }
        }
        for line in 0..7 {
            assert_eq!(parser.get_line_context(content, line), std_line_context(content, line));
        }
    }
}

#[test]
fn definition_lines_agree_with_a_search_by_std() {
    let parser = RustParser::new();
    for content in TEXTS {
        for line in content.lines() {
            for name in NAMES {
                for kind in KINDS {
                    assert_eq!(
                        parser.is_definition_line(line, name, kind),
                        std_is_definition_line(line, name, kind),
                        "{:?} {:?} {:?}",
                        line,
                        name,
                        kind
                    );
                }
            }
        }
    }
}

#[test]
fn kinds_of_use_agree_with_a_search_by_std() {
    let parser = RustParser::new();
    for content in TEXTS {
        for line in content.lines() {
            for name in NAMES.iter().chain(["é"].iter()) {
                for kind in KINDS {
                    for pos in 0..line.len() + 2 {
                        assert_eq!(
                            parser.determine_usage_type(line, pos, name, kind),
                            std_usage_type(line, pos, name, kind),
                            "{:?} {:?} {:?} {:?}",
                            line,
                            pos,
                            name,
                            kind
                        );
                    }
                }
            }
        }
    }
}

#[test]
fn uses_agree_with_a_search_by_std() {
    let parser = RustParser::new();
    for content in TEXTS {
        for name in NAMES {
            for kind in KINDS {
                let found: Vec<(usize, usize, UsageType, String)> = parser
                    .find_usages_in_content(name, kind, content, "f.rs")
                    .into_iter()
                    .map(|u| (u.line, u.column, u.usage_type, u.context))
                    .collect();
                assert_eq!(found, std_usages(name, kind, content), "{:?} {:?}", name, content);
            }
        }
    }
}

#[test]
fn search_and_trim_agree_with_std() {
    let lines = ["", "a", "  héllo wörld  ", "\u{2003}x\u{205f}", "aaa", "ab😀ab😀", "\t\r\n"];
    let needles = ["", "a", "aa", "ab", "😀", "é", "wör", "zz", " "];
    for line in lines {
        let hay = to_chars(line);
        assert_eq!(trimmed(&hay).into_iter().collect::<String>(), line.trim());
        for needle in needles {
            let found = find_chars(&hay, &to_chars(needle), 0).map(|i| byte_offset_of(&hay, i));
            assert_eq!(found, line.find(needle), "{:?} {:?}", line, needle);
        }
    }
}

#[test]
fn source_files_are_those_with_the_extension_rs() {
    let indexer = CodeIndexer::new();
    for path in [
        "a.rs", "src/main.rs", "/abs/path/lib.rs", "a.b.rs", "x/.hidden.rs", "..rs", "a.rs.txt",
        "rs", ".rs", "dir/.rs", "a.RS", "a.rsx", "a.r", "", "a/b", "dir.rs/file", "é.rs",
        "no_extension", "a.", "./a.rs", "../a.rs",
    ] {
        let by_std = Path::new(path).extension().and_then(|e| e.to_str()) == Some("rs");
        assert_eq!(indexer.is_rust_file(path), by_std, "{:?}", path);
    }
}
