use code_intel::indexer::{
    entry_action, watched_path, parse_source_file, CodeIndexer, EntryAction, IndexStats, ParsedFile,
    SourceFile, WatchEvent, WatchEventKind,
};
use std::collections::HashMap;
use code_intel::protocol::SymbolType;

fn file(path: &str, content: &str) -> SourceFile {
    SourceFile { path: path.to_string(), content: Some(content.to_string()), modified: Some(1) }
}

fn event(kind: WatchEventKind, files: Vec<SourceFile>) -> WatchEvent {
    WatchEvent { kind, files }
}

fn sorted(mut names: Vec<String>) -> Vec<String> {
    names.sort();
    names
}

fn snapshot(indexer: &CodeIndexer) -> (Vec<String>, Vec<String>, IndexStats) {
    let mut symbols = Vec::new();
    for entry in indexer.get_all_symbols() {
        for s in &entry.symbols {
            symbols.push(format!(
                "{}|{:?}|{}|{}|{}|{}|{}|{:?}",
                s.name, s.symbol_type, s.file_path, s.line, s.column, s.signature, s.visibility,
                s.generics
            ));
        }
    }
    let calls = indexer
        .get_parser()
        .get_call_graph()
        .iter()
        .map(|c| {
            format!(
                "{}|{}|{}|{}|{}|{}|{}",
                c.caller, c.caller_file, c.caller_line, c.callee, c.call_line, c.call_column,
                c.call_context
            )
        })
        .collect();
    (symbols, calls, indexer.get_stats())
}

#[test]
fn test_index_directory() {
    let files = vec![
        file(
            "/tmp/project/main.rs",
            r#"
fn main() {
    println!("Hello, world!");
}

pub fn helper() -> i32 {
    42
}
"#,
        ),
        file(
            "/tmp/project/lib.rs",
            r#"
pub fn library_function(x: i32) -> i32 {
    x * 2
}
"#,
        ),
    ];
    let mut indexer = CodeIndexer::new();
    indexer.index_directory(&files);

    let stats = indexer.get_stats();
    assert_eq!(stats.total_functions, 3);
    assert_eq!(stats.indexed_files_count, 2);
    assert!(!stats.is_watching);

    let main_funcs = indexer.find_definition("main", Some(SymbolType::Function)).unwrap();
    assert_eq!(main_funcs.len(), 1);
    assert_eq!(main_funcs[0].name, "main");
}

#[test]
fn stats_count_each_kind() {
    let mut indexer = CodeIndexer::new();
    indexer.index_file(&file(
        "a.rs",
        "fn f() {}\nfn g() {}\nstruct S;\nenum E {}\nenum F {}\nenum G {}\ntrait T {}\nstruct f;\n",
    ));
    indexer.index_file(&SourceFile {
        path: "b.rs".to_string(),
        content: Some("fn f() {}\n".to_string()),
        modified: None,
    });
    indexer.start_watching();
    let stats = indexer.get_stats();
    assert_eq!(
        stats,
        IndexStats {
            total_symbols: 9,
            total_functions: 3,
            total_structs: 2,
            total_enums: 3,
            total_traits: 1,
            unique_symbol_names: 7,
            indexed_files_count: 1,
            is_watching: true,
        }
    );
    assert_eq!(
        stats.to_text(),
        "IndexStats { total_symbols: 9, functions: 3, structs: 2, enums: 3, traits: 1, unique_names: 7, files: 1, watching: true }"
    );
    indexer.stop_watching();
    assert!(!indexer.get_stats().is_watching);
}

#[test]
fn an_empty_index_counts_nothing() {
    let stats = CodeIndexer::new().get_stats();
    assert_eq!(stats.total_symbols, 0);
    assert_eq!(stats.unique_symbol_names, 0);
    assert_eq!(stats.indexed_files_count, 0);
    assert_eq!(
        stats.to_text(),
        "IndexStats { total_symbols: 0, functions: 0, structs: 0, enums: 0, traits: 0, unique_names: 0, files: 0, watching: false }"
    );
}

#[test]
fn only_source_files_are_indexed() {
    let mut indexer = CodeIndexer::new();
    for path in ["notes.txt", "rs", ".rs", "dir/.rs", "a.rs.bak", "a.RS", "Makefile"] {
        indexer.index_file(&file(path, "fn f() {}\n"));
        assert!(!indexer.is_rust_file(path), "{}", path);
    }
    assert_eq!(indexer.get_stats().total_symbols, 0);
    assert_eq!(indexer.get_stats().indexed_files_count, 0);
    for path in ["a.rs", "src/lib.rs", "/x/y/z.rs", "a.b.rs", "..rs", "é.rs"] {
        assert!(indexer.is_rust_file(path), "{}", path);
    }
}

#[test]
fn some_directories_are_not_walked_into() {
    let indexer = CodeIndexer::new();
    for name in [".git", "target", "node_modules", ".idea", ".vscode"] {
        assert!(indexer.should_skip_directory(name), "{}", name);
    }
    for name in ["src", "git", ".github", "Target", "targets", ""] {
        assert!(!indexer.should_skip_directory(name), "{}", name);
    }
}

#[test]
fn a_file_that_cannot_be_read_or_parsed_is_left_out() {
    let mut indexer = CodeIndexer::new();
    indexer.index_directory(&vec![
        file("good.rs", "fn good() {}\n"),
        file("broken.rs", "fn broken( {"),
        SourceFile { path: "gone.rs".to_string(), content: None, modified: Some(3) },
        file("also_good.rs", "fn also_good() {}\n"),
    ]);
    let stats = indexer.get_stats();
    assert_eq!(stats.total_functions, 2);
    assert_eq!(stats.indexed_files_count, 2);
    assert!(indexer.find_definition("broken", None).is_none());
    let parsed = parse_source_file(&file("broken.rs", "fn broken( {"));
    assert!(parsed.items.is_none());
    assert_eq!(parsed.path, "broken.rs");
    assert_eq!(parsed.content, "fn broken( {");
    assert_eq!(parsed.modified, Some(1));
    assert!(parse_source_file(&file("good.txt", "fn f() {}")).items.is_none());
    assert_eq!(parse_source_file(&file("good.rs", "fn f() {}")).items.map(|i| i.len()), Some(1));
}

#[test]
fn indexing_twice_without_removing_adds_twice() {
    let mut indexer = CodeIndexer::new();
    let f = file("a.rs", "fn f() { g(); }\n");
    indexer.index_file(&f);
    indexer.index_file(&f);
    assert_eq!(indexer.find_definition("f", None).unwrap().len(), 2);
    assert_eq!(indexer.get_parser().get_call_graph().len(), 2);
    assert_eq!(indexer.get_stats().indexed_files_count, 1);
}

#[test]
fn indexing_an_unchanged_file_anew_changes_nothing() {
    let mut indexer = CodeIndexer::new();
    indexer.index_directory(&vec![
        file("a.rs", "fn shared() { helper(); }\nfn helper() {}\nstruct Only;\n"),
        file("b.rs", "fn shared() { shared(); }\npub enum E {}\n"),
    ]);
    let a = file("a.rs", "fn shared() { helper(); }\nfn helper() {}\nstruct Only;\n");
    indexer.handle_watch_event(&event(WatchEventKind::Modify, vec![a.clone()]));
    let once = snapshot(&indexer);
    indexer.handle_watch_event(&event(WatchEventKind::Modify, vec![a.clone()]));
    let twice = snapshot(&indexer);
    assert_eq!(once, twice);
    indexer.reindex_file(&a);
    assert_eq!(snapshot(&indexer), once);
    assert_eq!(once.2.total_symbols, 5);
    assert_eq!(once.1.len(), 2);
    assert_eq!(indexer.find_definition("shared", None).unwrap().len(), 2);
}

#[test]
fn a_name_that_a_file_no_longer_defines_is_forgotten() {
    let mut indexer = CodeIndexer::new();
    indexer.index_file(&file("a.rs", "fn f() { g(); }\nfn g() {}\n"));
    assert!(indexer.find_definition("f", None).is_some());
    assert_eq!(indexer.get_parser().get_calls_from_function("f").len(), 1);

    let names = indexer
        .handle_watch_event(&event(WatchEventKind::Modify, vec![file("a.rs", "fn g() {}\n")]));
    assert_eq!(sorted(names), vec!["f", "g"]);
    assert!(indexer.find_definition("f", None).is_none());
    assert!(indexer.get_parser().get_calls_from_function("f").is_empty());
    assert_eq!(indexer.get_parser().get_call_graph().len(), 0);
    assert_eq!(indexer.find_definition("g", None).unwrap().len(), 1);
    assert_eq!(indexer.get_stats().unique_symbol_names, 1);
}

#[test]
fn a_name_that_another_file_defines_too_stays_found() {
    let mut indexer = CodeIndexer::new();
    indexer.index_file(&file("a.rs", "fn f() {}\n"));
    indexer.index_file(&file("b.rs", "fn f() {}\n"));
    indexer.handle_watch_event(&event(WatchEventKind::Modify, vec![file("a.rs", "")]));
    let left = indexer.find_definition("f", None).unwrap();
    assert_eq!(left.len(), 1);
    assert_eq!(left[0].file_path, "b.rs");
}

#[test]
fn a_change_reports_old_and_new_names_once() {
    let mut indexer = CodeIndexer::new();
    indexer.index_file(&file("a.rs", "fn old() {}\nfn kept() {}\n"));
    indexer.index_file(&file("b.rs", "fn other() {}\n"));
    let names = indexer.handle_watch_event(&event(
        WatchEventKind::Create,
        vec![file("a.rs", "fn kept() {}\nfn fresh() {}\n"), file("notes.md", "fn no() {}")],
    ));
    assert_eq!(names, vec!["old", "kept", "fresh"]);
    assert!(indexer.find_definition("no", None).is_none());
}

#[test]
fn a_change_that_cannot_be_parsed_removes_the_file() {
    let mut indexer = CodeIndexer::new();
    indexer.index_file(&file("a.rs", "fn f() {}\n"));
    let names =
        indexer.handle_watch_event(&event(WatchEventKind::Modify, vec![file("a.rs", "fn f( {")]));
    assert_eq!(names, vec!["f"]);
    assert!(indexer.find_definition("f", None).is_none());
    assert_eq!(indexer.get_stats().indexed_files_count, 0);
}

#[test]
fn a_removal_reports_the_names_of_the_file() {
    let mut indexer = CodeIndexer::new();
    indexer.index_file(&file("a.rs", "fn f() {}\nfn g() { f(); }\n"));
    indexer.index_file(&file("b.rs", "fn f() {}\n"));
    let gone = SourceFile { path: "a.rs".to_string(), content: None, modified: None };
    let other = SourceFile { path: "b.rs".to_string(), content: None, modified: None };
    let names = indexer.handle_watch_event(&event(WatchEventKind::Remove, vec![gone, other]));
    assert_eq!(names, vec!["f", "g", "f"]);
    assert_eq!(indexer.get_stats().total_symbols, 0);
    assert_eq!(indexer.get_stats().indexed_files_count, 0);
    assert!(indexer.get_parser().get_call_graph().is_empty());
}

#[test]
fn other_events_change_nothing() {
    let mut indexer = CodeIndexer::new();
    indexer.index_file(&file("a.rs", "fn f() {}\n"));
    let before = snapshot(&indexer);
    let names =
        indexer.handle_watch_event(&event(WatchEventKind::Other, vec![file("a.rs", "fn g() {}")]));
    assert!(names.is_empty());
    assert_eq!(snapshot(&indexer), before);
}

#[test]
fn events_can_be_applied_to_files_parsed_before() {
    let mut indexer = CodeIndexer::new();
    let parsed: Vec<ParsedFile> = vec![parse_source_file(&file("a.rs", "fn f() {}\n"))];
    assert_eq!(indexer.apply_event(WatchEventKind::Modify, &parsed), vec!["f"]);
    assert_eq!(indexer.apply_event(WatchEventKind::Modify, &parsed), vec!["f"]);
    assert_eq!(indexer.find_definition("f", None).unwrap().len(), 1);
    indexer.remove_file_from_index("a.rs");
    assert!(indexer.find_definition("f", None).is_none());
    indexer.index_parsed(&parsed[0]);
    indexer.reindex_parsed(&parsed[0]);
    assert_eq!(indexer.find_definition("f", None).unwrap().len(), 1);
}

#[test]
fn a_walk_descends_indexes_or_skips() {
    assert_eq!(entry_action(Some("src"), "/p/src", true), EntryAction::Descend);
    assert_eq!(entry_action(Some("a.rs"), "/p/a.rs", true), EntryAction::Descend);
    assert_eq!(entry_action(Some("target"), "/p/target", true), EntryAction::Skip);
    assert_eq!(entry_action(Some(".git"), "/p/.git", true), EntryAction::Skip);
    assert_eq!(entry_action(None, "/p/..", true), EntryAction::Skip);
    assert_eq!(entry_action(Some("a.rs"), "/p/a.rs", false), EntryAction::Index);
    assert_eq!(entry_action(None, "/p/a.rs", false), EntryAction::Index);
    assert_eq!(entry_action(Some("target"), "/p/target", false), EntryAction::Skip);
    assert_eq!(entry_action(Some("a.txt"), "/p/a.txt", false), EntryAction::Skip);
}

/// A second way to keep the records, by a map from the name.
fn by_map(files: &[(String, Vec<(String, SymbolType)>)]) -> HashMap<String, Vec<(String, SymbolType)>> {
    let mut map: HashMap<String, Vec<(String, SymbolType)>> = HashMap::new();
    for (path, symbols) in files {
        for (name, kind) in symbols {
            map.entry(name.clone()).or_default().push((path.clone(), *kind));
        }
    }
    map
}

#[test]
fn the_index_agrees_with_a_map_over_many_changes() {
    let kinds = [SymbolType::Function, SymbolType::Struct, SymbolType::Enum, SymbolType::Trait];
    let keywords = ["fn", "struct", "enum", "trait"];
    let names = ["alpha", "beta", "gamma", "delta", "eps"];
    let paths = ["a.rs", "b.rs", "c.rs", "d.rs"];
    let mut indexer = CodeIndexer::new();
    // What each file defines at present, in the order in which the files were indexed last.
    let mut present: Vec<(String, Vec<(String, SymbolType)>)> = Vec::new();
    let mut seed: u32 = 12345;
    let mut next = |limit: u32| {
        seed = seed.wrapping_mul(1103515245).wrapping_add(12345);
        (seed >> 16) % limit
    };
    for _ in 0..200 {
        let path = paths[next(4) as usize];
        present.retain(|(p, _)| p != path);
        if next(4) == 0 {
            let gone = SourceFile { path: path.to_string(), content: None, modified: None };
            indexer.handle_watch_event(&event(WatchEventKind::Remove, vec![gone]));
        } else {
            let mut content = String::new();
            let mut symbols = Vec::new();
            for _ in 0..next(4) {
                let k = next(4) as usize;
                let name = names[next(5) as usize];
                let body = if k == 0 { "() {}" } else if k == 1 { ";" } else { " {}" };
                content.push_str(&format!("{} {}{}\n", keywords[k], name, body));
                symbols.push((name.to_string(), kinds[k]));
            }
            indexer.handle_watch_event(&event(WatchEventKind::Modify, vec![file(path, &content)]));
            present.push((path.to_string(), symbols));
        }

        let map = by_map(&present);
        let stats = indexer.get_stats();
        assert_eq!(stats.unique_symbol_names, map.len());
        assert_eq!(stats.total_symbols, map.values().map(|v| v.len()).sum::<usize>());
        assert_eq!(
            stats.indexed_files_count,
            present.len(),
        );
        for (k, kind) in kinds.iter().enumerate() {
            let count = map.values().flatten().filter(|(_, t)| t == kind).count();
            let counted = [
                stats.total_functions,
                stats.total_structs,
                stats.total_enums,
                stats.total_traits,
            ][k];
            assert_eq!(counted, count);
        }
        for name in names {
            let found = indexer.find_definition(name, None);
            match map.get(name) {
                None => assert!(found.is_none()),
                Some(records) => {
                    let found: Vec<(String, SymbolType)> = found
                        .unwrap()
                        .iter()
                        .map(|s| (s.file_path.clone(), s.symbol_type))
                        .collect();
                    assert_eq!(&found, records);
                    assert!(!found.is_empty());
                }
            }
            for kind in kinds {
                let of_kind = indexer.find_definition(name, Some(kind)).map(|v| v.len());
                let expected = map.get(name).map(|r| r.iter().filter(|(_, t)| *t == kind).count());
                assert_eq!(of_kind, expected);
            }
        }
        let mut seen: Vec<&str> = Vec::new();
        for entry in indexer.get_all_symbols() {
            assert!(!entry.symbols.is_empty());
            assert!(!seen.contains(&entry.name.as_str()));
            assert!(entry.symbols.iter().all(|s| s.name == entry.name));
            seen.push(&entry.name);
        }
    }
}

#[test]
fn paths_below_skipped_directories_are_not_watched() {
    for path in ["a.rs", "src/a.rs", "/p/src/deep/a.rs", "targets/a.rs", "src/target.rs", "x/.gitx/a.rs"] {
        assert!(watched_path(path), "{}", path);
    }
    for path in [
        "target/a.rs",
        "/p/target/debug/build/a.rs",
        ".git/hooks/x.rs",
        "/p/node_modules/m/a.rs",
        "a/.idea/b.rs",
        "a/.vscode/b.rs",
        "src/a.txt",
        "target",
        "",
    ] {
        assert!(!watched_path(path), "{}", path);
    }
}

#[test]
fn a_change_below_a_skipped_directory_is_passed_over() {
    let mut indexer = CodeIndexer::new();
    indexer.index_file(&file("src/a.rs", "fn a() {}\n"));
    let before = snapshot(&indexer);
    let names = indexer.handle_watch_event(&event(
        WatchEventKind::Modify,
        vec![file("target/debug/gen.rs", "fn generated() {}\n"), file(".git/x.rs", "fn g() {}\n")],
    ));
    assert!(names.is_empty());
    assert_eq!(snapshot(&indexer), before);
    let gone = SourceFile { path: "target/src/a.rs".to_string(), content: None, modified: None };
    assert!(indexer.handle_watch_event(&event(WatchEventKind::Remove, vec![gone])).is_empty());
    assert_eq!(snapshot(&indexer), before);
}
