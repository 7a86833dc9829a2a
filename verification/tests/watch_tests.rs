use code_intel::indexer::{parse_source_file, CodeIndexer, SourceFile};
use code_intel::watch::{process_file_changes, BatchState, Debouncer, DEBOUNCE_SECONDS};

fn paths(names: &[&str]) -> Vec<String> {
    names.iter().map(|n| n.to_string()).collect()
}

fn source(path: &str, content: &str) -> SourceFile {
    SourceFile { path: path.to_string(), content: Some(content.to_string()), modified: Some(1) }
}

#[test]
fn the_clock_ticks_every_two_seconds() {
    assert_eq!(DEBOUNCE_SECONDS, 2);
}

#[test]
fn a_burst_of_changes_to_one_file_gives_one_entry() {
    let mut debouncer = Debouncer::new();
    for _ in 0..25 {
        debouncer.on_event(&paths(&["src/a.rs"]));
    }
    assert_eq!(debouncer.pending_count(), 1);
    assert_eq!(debouncer.on_tick(), Some(paths(&["src/a.rs"])));
    assert_eq!(debouncer.pending_count(), 0);
}

#[test]
fn only_source_files_wait() {
    let mut debouncer = Debouncer::new();
    debouncer.on_event(&paths(&["a.txt", "target/debug/x", "b.rs", "b.rs", "c.rs"]));
    debouncer.on_event(&paths(&["README.md"]));
    debouncer.on_event(&paths(&["c.rs", "a.rs"]));
    assert_eq!(debouncer.on_tick(), Some(paths(&["b.rs", "c.rs", "a.rs"])));
}

#[test]
fn a_tick_with_nothing_waiting_starts_no_batch() {
    let mut debouncer = Debouncer::new();
    assert_eq!(debouncer.on_tick(), None);
    assert!(!debouncer.is_processing());
    debouncer.on_event(&paths(&["x.md"]));
    assert_eq!(debouncer.on_tick(), None);
    assert!(!debouncer.is_processing());
}

#[test]
fn files_wait_while_a_batch_is_handled() {
    let mut debouncer = Debouncer::new();
    debouncer.on_event(&paths(&["a.rs"]));
    assert_eq!(debouncer.on_tick(), Some(paths(&["a.rs"])));
    assert!(debouncer.is_processing());

    debouncer.on_event(&paths(&["a.rs", "b.rs"]));
    assert_eq!(debouncer.on_tick(), None);
    assert_eq!(debouncer.on_tick(), None);
    assert_eq!(debouncer.pending_count(), 2);
    assert!(debouncer.is_processing());

    debouncer.on_batch_done();
    assert!(!debouncer.is_processing());
    assert_eq!(debouncer.on_tick(), Some(paths(&["a.rs", "b.rs"])));
    assert_eq!(debouncer.pending_count(), 0);
    debouncer.on_batch_done();
    assert_eq!(debouncer.on_tick(), None);
}

#[test]
fn batch_states_are_told_apart() {
    assert_ne!(BatchState::Idle, BatchState::Processing);
}

#[test]
fn a_batch_reports_the_union_of_the_names_once() {
    let mut indexer = CodeIndexer::new();
    indexer.index_file(&source("a.rs", "fn shared() {}\nfn a_only() {}\n"));
    indexer.index_file(&source("b.rs", "fn shared() {}\n"));
    let batch = vec![
        parse_source_file(&source("a.rs", "fn shared() {}\nfn a_new() {}\n")),
        parse_source_file(&source("b.rs", "fn shared() {}\nfn b_new() {}\n")),
    ];
    let report = process_file_changes(&mut indexer, &batch);
    assert_eq!(report.files_processed, 2);
    assert_eq!(report.updated_symbols, vec!["shared", "a_only", "a_new", "b_new"]);
    assert_eq!(
        report.message.as_deref(),
        Some("Batch file update completed: 2 files processed, 4 symbols updated: shared, a_only, a_new, b_new")
    );
    let stats = report.stats.unwrap();
    assert_eq!(stats.total_functions, 4);
    assert_eq!(stats, indexer.get_stats());
    assert!(indexer.find_definition("a_only", None).is_none());
    assert_eq!(indexer.find_definition("shared", None).unwrap().len(), 2);
}

#[test]
fn a_batch_without_symbols_reports_a_check() {
    let mut indexer = CodeIndexer::new();
    let batch = vec![parse_source_file(&source("empty.rs", "// nothing\n"))];
    let report = process_file_changes(&mut indexer, &batch);
    assert!(report.updated_symbols.is_empty());
    assert_eq!(
        report.message.as_deref(),
        Some("Batch file check completed: 1 files processed, no symbol changes detected")
    );
    assert!(report.stats.is_none());

    let none = process_file_changes(&mut indexer, &vec![]);
    assert_eq!(none.files_processed, 0);
    assert!(none.message.is_none());
    assert!(none.stats.is_none());
}

#[test]
fn files_below_skipped_directories_do_not_wait() {
    let mut debouncer = Debouncer::new();
    debouncer.on_event(&paths(&["target/debug/a.rs", ".git/b.rs", "p/node_modules/c.rs"]));
    assert_eq!(debouncer.pending_count(), 0);
    assert_eq!(debouncer.on_tick(), None);
    debouncer.on_event(&paths(&["src/target/a.rs", "src/ok.rs"]));
    assert_eq!(debouncer.on_tick(), Some(paths(&["src/ok.rs"])));
}
