use crate::extract::{join, push_joined, texts};
use crate::indexer::{
    after_event, is_watched_path, lemma_merged, lemma_merged_known, merge_names, merged,
    parsed_views, stats_of, watched_path, CodeIndexer, IndexStats, ParsedFile, WatchEventKind,
};
use crate::text::{decimal, push_decimal};
use vstd::prelude::*;
use vstd::string::StringExecFns;

verus! {

/// The seconds between two ticks.
pub const DEBOUNCE_SECONDS: u64 = 2;

/// Whether a batch of changed files is being handled.
#[derive(Debug, Clone, Copy, PartialEq, Eq, Structural)]
pub enum BatchState {
    Idle,
    Processing,
}

/// What a `Debouncer` holds: the files that changed and wait for the next
/// batch, each once, and whether a batch is being handled.
pub struct DebounceState {
    pub pending: Seq<Seq<char>>,
    pub state: BatchState,
}

/// Collects the files that change and hands them out in batches, one batch
/// at a time.
pub struct Debouncer {
    pending: Vec<String>,
    state: BatchState,
}

impl View for Debouncer {
    type V = DebounceState;

    closed spec fn view(&self) -> DebounceState {
        DebounceState { pending: texts(self.pending@), state: self.state }
    }
}

/// Those of the first `n` of `paths` that are watched, in order.
pub open spec fn source_paths(paths: Seq<Seq<char>>, n: int) -> Seq<Seq<char>>
    decreases n,
{
    if n <= 0 || n > paths.len() {
        Seq::empty()
    } else if is_watched_path(paths[n - 1]) {
        source_paths(paths, n - 1).push(paths[n - 1])
    } else {
        source_paths(paths, n - 1)
    }
}

/// The files that wait after an event with the paths `paths` came: those
/// that waited, then the watched files among `paths` that did not wait yet.
pub open spec fn pending_after(pending: Seq<Seq<char>>, paths: Seq<Seq<char>>) -> Seq<Seq<char>> {
    merged(pending, source_paths(paths, paths.len() as int))
}

/// The files that wait after `n` events came, each with the paths `paths`.
pub open spec fn pending_after_burst(pending: Seq<Seq<char>>, paths: Seq<Seq<char>>, n: nat) -> Seq<
    Seq<char>,
>
    decreases n,
{
    if n == 0 {
        pending
    } else {
        pending_after(pending_after_burst(pending, paths, (n - 1) as nat), paths)
    }
}

/// What a tick does to the state `s`: nothing while a batch is handled or
/// where no file waits; otherwise the files that wait become the batch, no
/// file waits any more, and a batch is being handled.
pub open spec fn after_tick(s: DebounceState) -> (DebounceState, Option<Seq<Seq<char>>>) {
    if s.state == BatchState::Processing || s.pending.len() == 0 {
        (s, None)
    } else {
        (DebounceState { pending: Seq::empty(), state: BatchState::Processing }, Some(s.pending))
    }
}

/// A burst of events on the same files leaves the files waiting that one
/// such event leaves waiting: each file waits once, however often it changed.
pub proof fn lemma_burst_coalesces(pending: Seq<Seq<char>>, paths: Seq<Seq<char>>, n: nat)
    requires
        n >= 1,
    ensures
        pending_after_burst(pending, paths, n) == pending_after(pending, paths),
    decreases n,
{
    if n == 1 {
        assert(pending_after_burst(pending, paths, 0) == pending);
    } else {
        lemma_burst_coalesces(pending, paths, (n - 1) as nat);
        let once = pending_after(pending, paths);
        lemma_merged(pending, source_paths(paths, paths.len() as int));
        lemma_merged_known(once, source_paths(paths, paths.len() as int));
    }
}

/// No file waits twice after an event, where none waited twice before.
pub proof fn lemma_pending_unique(pending: Seq<Seq<char>>, paths: Seq<Seq<char>>)
    requires
        pending.no_duplicates(),
    ensures
        pending_after(pending, paths).no_duplicates(),
{
    lemma_merged(pending, source_paths(paths, paths.len() as int));
}

impl Debouncer {
    /// No file waits twice.
    pub open spec fn wf(&self) -> bool {
        self@.pending.no_duplicates()
    }

    /// A debouncer with no file waiting and no batch being handled.
    pub fn new() -> (r: Self)
        ensures
            r@.pending.len() == 0,
            r@.state == BatchState::Idle,
            r.wf(),
    {
        Debouncer { pending: Vec::new(), state: BatchState::Idle }
    }

    /// Takes note of an event: the watched files among its paths wait from
    /// now on, each once.
    pub fn on_event(&mut self, paths: &Vec<String>)
        requires
            old(self).wf(),
        ensures
            final(self)@.pending == pending_after(old(self)@.pending, texts(paths@)),
            final(self)@.state == old(self)@.state,
            final(self).wf(),
    {
        let ghost ps = texts(paths@);
        let mut sources: Vec<String> = Vec::new();
        let mut i: usize = 0;
        assert(texts(sources@) =~= source_paths(ps, 0));
        while i < paths.len()
            invariant
                i <= paths@.len(),
                ps == texts(paths@),
                texts(sources@) == source_paths(ps, i as int),
            decreases paths.len() - i,
        {
            if watched_path(paths[i].as_str()) {
                let ghost before = texts(sources@);
                let path = paths[i].clone();
                sources.push(path);
                assert(texts(sources@) =~= before.push(path@));
            }
            i += 1;
        }
        proof {
            lemma_pending_unique(self@.pending, ps);
        }
        merge_names(&mut self.pending, &sources);
    }

    /// A tick of the clock. See `after_tick`. The files of a batch are
    /// handed out once each; `on_batch_done` is to be called when they were
    /// handled.
    pub fn on_tick(&mut self) -> (r: Option<Vec<String>>)
        requires
            old(self).wf(),
        ensures
            final(self)@ == after_tick(old(self)@).0,
            match r {
                Some(batch) => after_tick(old(self)@).1 == Some(texts(batch@)) && texts(
                    batch@,
                ).no_duplicates() && batch@.len() > 0,
                None => after_tick(old(self)@).1 is None,
            },
            final(self).wf(),
    {
        match self.state {
            BatchState::Processing => None,
            BatchState::Idle => {
                if self.pending.len() == 0 {
                    None
                } else {
                    let mut batch: Vec<String> = Vec::new();
                    let ghost before = texts(self.pending@);
                    batch.append(&mut self.pending);
                    assert(texts(batch@) =~= before);
                    assert(texts(self.pending@) =~= Seq::<Seq<char>>::empty());
                    self.state = BatchState::Processing;
                    Some(batch)
                }
            },
        }
    }

    /// Takes note that the batch was handled.
    pub fn on_batch_done(&mut self)
        ensures
            final(self)@.pending == old(self)@.pending,
            final(self)@.state == BatchState::Idle,
    {
        self.state = BatchState::Idle;
    }

    /// Whether a batch is being handled.
    pub fn is_processing(&self) -> (r: bool)
        ensures
            r == (self@.state == BatchState::Processing),
    {
        match self.state {
            BatchState::Processing => true,
            BatchState::Idle => false,
        }
    }

    /// How many files wait.
    pub fn pending_count(&self) -> (r: usize)
        ensures
            r == self@.pending.len(),
    {
        self.pending.len()
    }
}

/// What handling a batch gave: how many files it held, the names of the
/// symbols that it touched, each once, what is to be logged of it, and the
/// counts of the index where a symbol was touched.
#[derive(Debug, Clone)]
pub struct BatchReport {
    pub files_processed: usize,
    pub updated_symbols: Vec<String>,
    pub message: Option<String>,
    pub stats: Option<IndexStats>,
}

/// What is logged of a batch of `files` files that touched `names`: nothing
/// for an empty batch.
pub open spec fn batch_message(files: nat, names: Seq<Seq<char>>) -> Option<Seq<char>> {
    if names.len() > 0 {
        Some(
            "Batch file update completed: "@ + decimal(files) + " files processed, "@ + decimal(
                names.len(),
            ) + " symbols updated: "@ + join(names, ", "@),
        )
    } else if files > 0 {
        Some(
            "Batch file check completed: "@ + decimal(files)
                + " files processed, no symbol changes detected"@,
        )
    } else {
        None
    }
}

/// Handles a batch of files that changed: each file is indexed anew, in
/// order, and the names of the symbols that they defined before or define
/// now are reported once for the whole batch.
pub fn process_file_changes(indexer: &mut CodeIndexer, changed_files: &Vec<ParsedFile>) -> (r:
    BatchReport)
    requires
        old(indexer).wf(),
    ensures
        final(indexer).wf(),
        (final(indexer)@, texts(r.updated_symbols@)) == after_event(
            old(indexer)@,
            WatchEventKind::Modify,
            parsed_views(changed_files@),
            changed_files@.len() as int,
        ),
        r.files_processed == changed_files@.len(),
        crate::parser::opt_text(r.message) == batch_message(
            changed_files@.len(),
            texts(r.updated_symbols@),
        ),
        r.stats == if r.updated_symbols@.len() > 0 {
            Some(stats_of(final(indexer)@))
        } else {
            None
        },
{
    let updated = indexer.apply_event(WatchEventKind::Modify, changed_files);
    let files_processed = changed_files.len();
    if updated.len() > 0 {
        let mut message = "Batch file update completed: ".to_string();
        push_decimal(&mut message, files_processed);
        message.append(" files processed, ");
        push_decimal(&mut message, updated.len());
        message.append(" symbols updated: ");
        push_joined(&mut message, &updated, ", ");
        assert(Some(message@) =~= batch_message(changed_files@.len(), texts(updated@)));
        let stats = indexer.get_stats();
        BatchReport {
            files_processed,
            updated_symbols: updated,
            message: Some(message),
            stats: Some(stats),
        }
    } else if files_processed > 0 {
        let mut message = "Batch file check completed: ".to_string();
        push_decimal(&mut message, files_processed);
        message.append(" files processed, no symbol changes detected");
        assert(Some(message@) =~= batch_message(changed_files@.len(), texts(updated@)));
        BatchReport { files_processed, updated_symbols: updated, message: Some(message), stats: None }
    } else {
        BatchReport { files_processed, updated_symbols: updated, message: None, stats: None }
    }
}

} // verus!
