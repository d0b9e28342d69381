//! The parse → embed → store pipeline for one repo: what a run does, and what it
//! hands to the store and to the vector index.

use vstd::prelude::*;
use vstd::seq_lib::*;

use crate::embedding::batches;
use crate::embedding::batches::split_batches;
use crate::embedding::batches::BatchRun;
use crate::embedding::voyage::VoyageClient;
use crate::embedding::voyage::MAX_BATCH_SIZE;
use crate::embedding::InputType;
use crate::indexing::edges;
use crate::indexing::edges::build_symbol_index;
use crate::indexing::edges::resolve_edges;
use crate::indexing::transaction;
use crate::indexing::transaction::format_embedding;
use crate::indexing::transaction::full_rebuild_txn;
use crate::indexing::transaction::incremental_txn;
use crate::parsing::chunker;
use crate::parsing::chunker::Chunk;
use crate::parsing::chunker::ChunkView;
use crate::parsing::relations;
use crate::parsing::relations::RawEdge;
use crate::parsing::relations::RawEdgeView;
use crate::parsing::symbols;
use crate::parsing::symbols::QualifiedSymbol;
use crate::parsing::symbols::Symbol;
use crate::parsing::symbols::SymbolView;
use crate::parsing::ParseResult;
use crate::store::ops;
use crate::store::ops::FileMeta;
use crate::store::statement;
use crate::store::statement::Statement;
use crate::text;
use crate::text::clone_range;
use crate::text::clone_strings;
use crate::vector;
use crate::vector::ChunkId;
use crate::vector::ChunkIdView;
use crate::vector::Entry;
use crate::vector::VectorIndex;

verus! {

/// What a run has achieved.
#[derive(Debug, Clone, Copy, PartialEq, Eq, Structural)]
pub struct IndexPipelineStats {
    pub indexed_files: u64,
    pub total_files: u64,
}

/// What happened to a file.
#[derive(Debug, Clone, Copy, PartialEq, Eq, Structural)]
pub enum ChangeKind {
    Added,
    Modified,
    Deleted,
}

/// A change of a file.
#[derive(Debug)]
pub struct FileChange {
    pub path: String,
    pub kind: ChangeKind,
}

/// Runs the parse → embed → store pipeline for one repo.
#[derive(Debug)]
pub struct IndexPipeline {
    repo: String,
    voyage: Option<VoyageClient>,
}

impl IndexPipeline {
    /// The path of the repo.
    pub closed spec fn repo_path(&self) -> Seq<char> {
        self.repo@
    }

    /// The embedding client.
    pub closed spec fn client(&self) -> Option<VoyageClient> {
        self.voyage
    }

    /// A pipeline for the repo; without a client, embeddings stay empty.
    pub fn new(repo: String, voyage: Option<VoyageClient>) -> (r: Self)
        ensures
            r.repo_path() == repo@,
            r.client() == voyage,
    {
        IndexPipeline { repo, voyage }
    }

    /// The path of the repo.
    pub fn repo(&self) -> (r: &str)
        ensures
            r@ == self.repo_path(),
    {
        self.repo.as_str()
    }

    /// The embedding client.
    pub fn voyage(&self) -> (r: Option<&VoyageClient>)
        ensures
            match r {
                Some(c) => self.client() == Some(*c),
                None => self.client() is None,
            },
    {
        match &self.voyage {
            Some(c) => Some(c),
            None => None,
        }
    }
}

// ─── What to do ──────────────────────────────────────────────────────────

/// What a run does.
pub enum RunAction {
    /// Clear and re-embed everything.
    FullRebuild,
    /// Detect changes by comparing the files with what is stored of them, then
    /// see [`IndexPipeline::on_detected`].
    DetectChanges,
    /// Process these changes.
    Incremental(Vec<FileChange>),
    /// Nothing changed.
    UpToDate(IndexPipelineStats),
}

/// The counts of a run that ends with metadata of `stored_files` files stored.
pub open spec fn stats_of(stored_files: usize, total_files: u64) -> IndexPipelineStats {
    IndexPipelineStats { indexed_files: stored_files as u64, total_files }
}

/// What a run does about changes: nothing if there are none.
pub open spec fn action_for(
    changes: Vec<FileChange>,
    stored_files: usize,
    total_files: u64,
    action: RunAction,
) -> bool {
    match action {
        RunAction::Incremental(c) => changes@.len() > 0 && c == changes,
        RunAction::UpToDate(stats) => changes@.len() == 0 && stats == stats_of(
            stored_files,
            total_files,
        ),
        _ => false,
    }
}

/// What a run does: everything anew on the first run, when nothing is stored, or if
/// forced; otherwise what the changes ask for, which are detected if none are
/// given.
pub open spec fn run_does(
    stored_files: usize,
    total_files: u64,
    changes: Option<Vec<FileChange>>,
    force_rebuild: bool,
    action: RunAction,
) -> bool {
    if stored_files == 0 || force_rebuild {
        action is FullRebuild
    } else {
        match changes {
            Some(list) => action_for(list, stored_files, total_files, action),
            None => action is DetectChanges,
        }
    }
}

impl IndexPipeline {
    /// Decides on a run when metadata of `stored_files` files is stored and the
    /// repo has `total_files` files.
    /// - `changes = None` → incremental scan (detect changes from mtime).
    /// - `changes = Some(list)` → process only the given file changes.
    /// - `force_rebuild = true` → clear and re-embed everything, ignoring
    ///   staleness. The first run, when nothing is stored, does the same.
    pub fn run(
        &self,
        stored_files: usize,
        total_files: u64,
        changes: Option<Vec<FileChange>>,
        force_rebuild: bool,
    ) -> (r: RunAction)
        ensures
            run_does(stored_files, total_files, changes, force_rebuild, r),
    {
        if stored_files == 0 || force_rebuild {
            return RunAction::FullRebuild;
        }
        match changes {
            Some(list) => self.on_detected(stored_files, total_files, list),
            None => RunAction::DetectChanges,
        }
    }

    /// Goes on with the changes that were detected.
    pub fn on_detected(
        &self,
        stored_files: usize,
        total_files: u64,
        detected: Vec<FileChange>,
    ) -> (r: RunAction)
        ensures
            action_for(detected, stored_files, total_files, r),
    {
        if detected.len() == 0 {
            RunAction::UpToDate(
                IndexPipelineStats { indexed_files: stored_files as u64, total_files },
            )
        } else {
            RunAction::Incremental(detected)
        }
    }

    /// What a run that has written returns: metadata of `stored_after` files is
    /// stored now.
    pub fn on_written(&self, stored_after: usize, total_files: u64) -> (r: IndexPipelineStats)
        ensures
            r == stats_of(stored_after, total_files),
    {
        IndexPipelineStats { indexed_files: stored_after as u64, total_files }
    }
}

// ─── Changed files ───────────────────────────────────────────────────────

/// The paths of the deleted files, or of the others, in order.
pub open spec fn paths_of(changes: Seq<FileChange>, deleted: bool) -> Seq<Seq<char>>
    decreases changes.len(),
{
    if changes.len() == 0 {
        seq![]
    } else {
        let before = paths_of(changes.drop_last(), deleted);
        if (changes.last().kind == ChangeKind::Deleted) == deleted {
            before.push(changes.last().path@)
        } else {
            before
        }
    }
}

/// The files that a list of changes speaks of.
#[derive(Debug)]
pub struct ChangeSets {
    /// Added and modified files.
    pub to_process: Vec<String>,
    /// Deleted files.
    pub to_delete: Vec<String>,
    /// All files whose old data must be purged.
    pub all_affected: Vec<String>,
}

fn select_paths(changes: &Vec<FileChange>, deleted: bool) -> (r: Vec<String>)
    ensures
        text::texts(r@) == paths_of(changes@, deleted),
{
    let mut out: Vec<String> = Vec::new();
    let mut i: usize = 0;
    assert(text::texts(out@) =~= paths_of(changes@.take(0), deleted));
    while i < changes.len()
        invariant
            i <= changes.len(),
            text::texts(out@) == paths_of(changes@.take(i as int), deleted),
        decreases changes.len() - i,
    {
        let ghost before = text::texts(out@);
        assert(changes@.take(i + 1).drop_last() =~= changes@.take(i as int));
        if (changes[i].kind == ChangeKind::Deleted) == deleted {
            out.push(changes[i].path.clone());
            assert(text::texts(out@) =~= before.push(changes@[i as int].path@));
        }
        i = i + 1;
    }
    assert(changes@.take(i as int) =~= changes@);
    out
}

/// Separates added and modified files from deleted ones. The data of all of them
/// is purged, of the deleted ones first.
pub fn split_changes(changes: &Vec<FileChange>) -> (r: ChangeSets)
    ensures
        text::texts(r.to_process@) == paths_of(changes@, false),
        text::texts(r.to_delete@) == paths_of(changes@, true),
        text::texts(r.all_affected@) == paths_of(changes@, true) + paths_of(changes@, false),
{
    let to_process = select_paths(changes, false);
    let to_delete = select_paths(changes, true);
    let mut all_affected = clone_strings(&to_delete);
    let mut rest = clone_strings(&to_process);
    let ghost a = all_affected@;
    let ghost b = rest@;
    all_affected.append(&mut rest);
    assert(all_affected@ =~= a + b);
    assert(text::texts(a + b) =~= text::texts(a) + text::texts(b));
    ChangeSets { to_process, to_delete, all_affected }
}

/// Every changed file is purged, and none but the changed files; a file that is
/// neither added nor modified is not processed.
pub proof fn law_changes_are_split(changes: Seq<FileChange>)
    ensures
        paths_of(changes, true).len() + paths_of(changes, false).len() == changes.len(),
        forall|i: int|
            0 <= i < changes.len() ==> paths_of(
                changes,
                (#[trigger] changes[i]).kind == ChangeKind::Deleted,
            ).contains(changes[i].path@),
        forall|deleted: bool, p: Seq<char>| #[trigger]
            paths_of(changes, deleted).contains(p) ==> exists|i: int|
                0 <= i < changes.len() && (#[trigger] changes[i]).path@ == p && (changes[i].kind
                    == ChangeKind::Deleted) == deleted,
    decreases changes.len(),
{
    if changes.len() > 0 {
        let front = changes.drop_last();
        let last = changes.last();
        law_changes_are_split(front);
        assert forall|i: int| 0 <= i < changes.len() implies paths_of(
            changes,
            (#[trigger] changes[i]).kind == ChangeKind::Deleted,
        ).contains(changes[i].path@) by {
            let d = changes[i].kind == ChangeKind::Deleted;
            let before = paths_of(front, d);
            let all = paths_of(changes, d);
            if i < front.len() {
                assert(front[i] == changes[i]);
                let k = choose|k: int| 0 <= k < before.len() && before[k] == changes[i].path@;
                assert(all[k] == changes[i].path@);
            } else {
                assert(all[all.len() - 1] == changes[i].path@);
            }
        }
        assert forall|deleted: bool, p: Seq<char>| #[trigger]
            paths_of(changes, deleted).contains(p) implies exists|i: int|
            0 <= i < changes.len() && (#[trigger] changes[i]).path@ == p && (changes[i].kind
                == ChangeKind::Deleted) == deleted by {
            let before = paths_of(front, deleted);
            let all = paths_of(changes, deleted);
            let k = choose|k: int| 0 <= k < all.len() && all[k] == p;
            if k < before.len() {
                assert(before[k] == p);
                assert(before.contains(p));
                let i = choose|i: int|
                    0 <= i < front.len() && (#[trigger] front[i]).path@ == p && (front[i].kind
                        == ChangeKind::Deleted) == deleted;
                assert(changes[i].path@ == p);
            } else {
                assert(changes[changes.len() - 1].path@ == p);
            }
        }
    }
}

// ─── What parsing yielded ────────────────────────────────────────────────

/// What the parsed files hold, all together.
#[derive(Debug)]
pub struct Parsed {
    pub symbols: Vec<Symbol>,
    /// The chunks of each file.
    pub chunks_by_file: Vec<(String, Vec<Chunk>)>,
    pub edges: Vec<RawEdge>,
}

/// The symbols of all files, in order.
pub open spec fn all_symbols(results: Seq<(String, ParseResult)>) -> Seq<SymbolView>
    decreases results.len(),
{
    if results.len() == 0 {
        seq![]
    } else {
        all_symbols(results.drop_last()) + symbols::symbol_views(results.last().1.symbols@)
    }
}

/// The edges of all files, in order.
pub open spec fn all_edges(results: Seq<(String, ParseResult)>) -> Seq<RawEdgeView>
    decreases results.len(),
{
    if results.len() == 0 {
        seq![]
    } else {
        all_edges(results.drop_last()) + relations::edge_views(results.last().1.edges@)
    }
}

/// The chunks of each file.
pub open spec fn chunks_of_files(results: Seq<(String, ParseResult)>) -> Seq<
    (Seq<char>, Seq<ChunkView>),
> {
    Seq::new(
        results.len(),
        |i: int| (results[i].0@, chunker::chunk_views(results[i].1.chunks@)),
    )
}

/// The model of chunks by file.
pub open spec fn by_file_views(s: Seq<(String, Vec<Chunk>)>) -> Seq<(Seq<char>, Seq<ChunkView>)> {
    Seq::new(s.len(), |i: int| (s[i].0@, chunker::chunk_views(s[i].1@)))
}

fn clone_chunks(v: &Vec<Chunk>) -> (r: Vec<Chunk>)
    ensures
        chunker::chunk_views(r@) == chunker::chunk_views(v@),
{
    let mut out: Vec<Chunk> = Vec::new();
    let mut i: usize = 0;
    while i < v.len()
        invariant
            i <= v.len(),
            chunker::chunk_views(out@) == chunker::chunk_views(v@).take(i as int),
        decreases v.len() - i,
    {
        let ghost before = chunker::chunk_views(out@);
        out.push(v[i].clone());
        assert(chunker::chunk_views(out@) =~= before.push(v@[i as int]@));
        assert(chunker::chunk_views(out@) =~= chunker::chunk_views(v@).take(i + 1));
        i = i + 1;
    }
    assert(chunker::chunk_views(v@).take(i as int) =~= chunker::chunk_views(v@));
    out
}

fn append_symbol_clones(out: &mut Vec<Symbol>, v: &Vec<Symbol>)
    ensures
        symbols::symbol_views(final(out)@) == symbols::symbol_views(old(out)@)
            + symbols::symbol_views(v@),
{
    let ghost views = symbols::symbol_views(v@);
    let ghost start = symbols::symbol_views(out@);
    let mut i: usize = 0;
    assert(start + views.take(0) =~= start);
    while i < v.len()
        invariant
            i <= v.len(),
            views == symbols::symbol_views(v@),
            symbols::symbol_views(out@) == start + views.take(i as int),
        decreases v.len() - i,
    {
        let ghost before = symbols::symbol_views(out@);
        out.push(v[i].clone());
        assert(symbols::symbol_views(out@) =~= before.push(v@[i as int]@));
        assert(symbols::symbol_views(out@) =~= start + views.take(i + 1));
        i = i + 1;
    }
    assert(views.take(i as int) =~= views);
}

fn append_edge_clones(out: &mut Vec<RawEdge>, v: &Vec<RawEdge>)
    ensures
        relations::edge_views(final(out)@) == relations::edge_views(old(out)@)
            + relations::edge_views(v@),
{
    let ghost views = relations::edge_views(v@);
    let ghost start = relations::edge_views(out@);
    let mut i: usize = 0;
    assert(start + views.take(0) =~= start);
    while i < v.len()
        invariant
            i <= v.len(),
            views == relations::edge_views(v@),
            relations::edge_views(out@) == start + views.take(i as int),
        decreases v.len() - i,
    {
        let ghost before = relations::edge_views(out@);
        out.push(v[i].clone());
        assert(relations::edge_views(out@) =~= before.push(v@[i as int]@));
        assert(relations::edge_views(out@) =~= start + views.take(i + 1));
        i = i + 1;
    }
    assert(views.take(i as int) =~= views);
}

/// Collects symbols, chunks and edges of the parsed files.
pub fn collect_parsed(results: &Vec<(String, ParseResult)>) -> (r: Parsed)
    ensures
        symbols::symbol_views(r.symbols@) == all_symbols(results@),
        by_file_views(r.chunks_by_file@) == chunks_of_files(results@),
        relations::edge_views(r.edges@) == all_edges(results@),
{
    let mut syms: Vec<Symbol> = Vec::new();
    let mut by_file: Vec<(String, Vec<Chunk>)> = Vec::new();
    let mut raw: Vec<RawEdge> = Vec::new();
    let mut i: usize = 0;
    assert(symbols::symbol_views(syms@) =~= seq![]);
    assert(relations::edge_views(raw@) =~= seq![]);
    assert(by_file_views(by_file@) =~= chunks_of_files(results@).take(0));
    while i < results.len()
        invariant
            i <= results.len(),
            symbols::symbol_views(syms@) == all_symbols(results@.take(i as int)),
            by_file_views(by_file@) == chunks_of_files(results@).take(i as int),
            relations::edge_views(raw@) == all_edges(results@.take(i as int)),
        decreases results.len() - i,
    {
        let ghost before = by_file_views(by_file@);
        assert(results@.take(i + 1).drop_last() =~= results@.take(i as int));
        let (file, pr) = &results[i];
        append_symbol_clones(&mut syms, &pr.symbols);
        by_file.push((file.clone(), clone_chunks(&pr.chunks)));
        append_edge_clones(&mut raw, &pr.edges);
        assert(by_file_views(by_file@) =~= before.push(chunks_of_files(results@)[i as int]));
        assert(by_file_views(by_file@) =~= chunks_of_files(results@).take(i + 1));
        i = i + 1;
    }
    assert(results@.take(i as int) =~= results@);
    assert(chunks_of_files(results@).take(i as int) =~= chunks_of_files(results@));
    Parsed { symbols: syms, chunks_by_file: by_file, edges: raw }
}

// ─── Embedding ───────────────────────────────────────────────────────────

/// The contents of chunks.
pub open spec fn contents(chunks: Seq<ChunkView>) -> Seq<Seq<char>> {
    Seq::new(chunks.len(), |i: int| chunks[i].content)
}

/// For each file, the number of the chunk behind its last one, in the list of all
/// chunks.
pub open spec fn chunk_ends(by_file: Seq<(String, Vec<Chunk>)>) -> Seq<nat> {
    Seq::new(by_file.len(), |i: int| transaction::flat_chunks(by_file.take(i + 1)).len())
}

/// The number of ends that are at most `done`, provided that the ends do not
/// decrease.
pub open spec fn is_completed(ends: Seq<nat>, done: nat, n: nat) -> bool {
    &&& n <= ends.len()
    &&& forall|i: int| 0 <= i < n ==> #[trigger] ends[i] <= done
    &&& forall|i: int| n <= i < ends.len() ==> #[trigger] ends[i] > done
}

/// The texts of all chunks being embedded in batches. `T` is the type of an
/// embedding's components.
///
/// Progress advances at batch boundaries. The numerator counts files whose last
/// chunk has been embedded, using the end of each file in the flattened chunk
/// list, so the denominator and numerator always use the same file set and the
/// bar reaches exactly 100%.
pub struct EmbedRun<T> {
    texts: Vec<String>,
    ends: Vec<usize>,
    has_client: bool,
    batches: BatchRun<Vec<T>>,
}

/// Texts that are embedded together.
#[derive(Debug)]
pub struct DocumentBatch {
    pub texts: Vec<String>,
    pub input_type: InputType,
}

/// The model of an [`EmbedRun`].
#[verifier::ext_equal]
pub struct EmbedRunView<T> {
    pub texts: Seq<Seq<char>>,
    pub ends: Seq<nat>,
    pub has_client: bool,
    pub ranges: Seq<(nat, nat)>,
    /// How many batches are done.
    pub next: nat,
    pub collected: Seq<Vec<T>>,
}

impl<T> View for EmbedRun<T> {
    type V = EmbedRunView<T>;

    closed spec fn view(&self) -> EmbedRunView<T> {
        EmbedRunView {
            texts: text::texts(self.texts@),
            ends: Seq::new(self.ends@.len(), |i: int| self.ends@[i] as nat),
            has_client: self.has_client,
            ranges: self.batches@.ranges,
            next: self.batches@.next,
            collected: self.batches@.collected,
        }
    }
}

impl<T> EmbedRunView<T> {
    /// The ends do not decrease and are within the texts, and so are the batches, of
    /// which no more are done than there are.
    pub open spec fn wf(self) -> bool {
        &&& forall|i: int, j: int|
            0 <= i <= j < self.ends.len() ==> #[trigger] self.ends[i] <= #[trigger] self.ends[j]
        &&& forall|i: int| 0 <= i < self.ends.len() ==> #[trigger] self.ends[i] <= self.texts.len()
        &&& self.next <= self.ranges.len()
        &&& forall|i: int|
            0 <= i < self.ranges.len() ==> (#[trigger] self.ranges[i]).0 <= self.ranges[i].1
                <= self.texts.len()
    }
}

proof fn lemma_flat_chunks_grow(by_file: Seq<(String, Vec<Chunk>)>, i: int, j: int)
    requires
        0 <= i <= j <= by_file.len(),
    ensures
        transaction::flat_chunks(by_file.take(i)).len() <= transaction::flat_chunks(
            by_file.take(j),
        ).len(),
    decreases j - i,
{
    if i < j {
        lemma_flat_chunks_grow(by_file, i, j - 1);
        assert(by_file.take(j).drop_last() =~= by_file.take(j - 1));
    }
}

impl IndexPipeline {
    /// Starts to embed all chunks, in batches of up to [`MAX_BATCH_SIZE`]. Without
    /// a client there are no batches.
    pub fn embed_all_chunks<T>(&self, chunks_by_file: &Vec<(String, Vec<Chunk>)>) -> (r: EmbedRun<
        T,
    >)
        ensures
            r@.wf(),
            r@ == (EmbedRunView::<T> {
                texts: contents(transaction::flat_chunks(chunks_by_file@)),
                ends: chunk_ends(chunks_by_file@),
                has_client: self.client() is Some,
                ranges: if self.client() is Some {
                    batches::batch_ranges(
                        0,
                        transaction::flat_chunks(chunks_by_file@).len(),
                        MAX_BATCH_SIZE as nat,
                    )
                } else {
                    seq![]
                },
                next: 0,
                collected: seq![],
            }),
    {
        let ghost flat = transaction::flat_chunks(chunks_by_file@);
        let mut all: Vec<String> = Vec::new();
        let mut ends: Vec<usize> = Vec::new();
        let mut f: usize = 0;
        assert(text::texts(all@) =~= contents(transaction::flat_chunks(chunks_by_file@.take(0))));
        while f < chunks_by_file.len()
            invariant
                f <= chunks_by_file.len(),
                text::texts(all@) == contents(
                    transaction::flat_chunks(chunks_by_file@.take(f as int)),
                ),
                ends@.len() == f,
                forall|i: int|
                    0 <= i < f ==> (#[trigger] ends@[i]) as nat == transaction::flat_chunks(
                        chunks_by_file@.take(i + 1),
                    ).len(),
            decreases chunks_by_file.len() - f,
        {
            let chunks = &chunks_by_file[f].1;
            let ghost before = transaction::flat_chunks(chunks_by_file@.take(f as int));
            let ghost views = chunker::chunk_views(chunks@);
            let mut i: usize = 0;
            assert(before + views.take(0) =~= before);
            while i < chunks.len()
                invariant
                    i <= chunks.len(),
                    views == chunker::chunk_views(chunks@),
                    text::texts(all@) == contents(before + views.take(i as int)),
                decreases chunks.len() - i,
            {
                let ghost sofar = text::texts(all@);
                all.push(chunks[i].content.clone());
                assert(text::texts(all@) =~= sofar.push(chunks@[i as int].content@));
                assert(text::texts(all@) =~= contents(before + views.take(i + 1)));
                i = i + 1;
            }
            assert(views.take(i as int) =~= views);
            assert(chunks_by_file@.take(f + 1).drop_last() =~= chunks_by_file@.take(f as int));
            assert(text::texts(all@).len() == all@.len());
            ends.push(all.len());
            f = f + 1;
        }
        assert(chunks_by_file@.take(f as int) =~= chunks_by_file@);
        assert(text::texts(all@).len() == all@.len());
        let has_client = self.voyage.is_some();
        let ranges: Vec<(usize, usize)> = if has_client {
            split_batches(all.len(), MAX_BATCH_SIZE)
        } else {
            Vec::new()
        };
        assert(!has_client ==> batches::range_views(ranges@) =~= seq![]);
        let r = EmbedRun { texts: all, ends, has_client, batches: BatchRun::new(ranges) };
        proof {
            batches::lemma_ranges_are_within(0, all@.len(), MAX_BATCH_SIZE as nat);
            assert(r@.ends =~= chunk_ends(chunks_by_file@));
            assert forall|i: int, j: int| 0 <= i <= j < r@.ends.len() implies #[trigger] r@.ends[i]
                <= #[trigger] r@.ends[j] by {
                lemma_flat_chunks_grow(chunks_by_file@, i + 1, j + 1);
            }
            assert forall|i: int| 0 <= i < r@.ends.len() implies #[trigger] r@.ends[i]
                <= r@.texts.len() by {
                lemma_flat_chunks_grow(chunks_by_file@, i + 1, chunks_by_file@.len() as int);
                assert(chunks_by_file@.take(chunks_by_file@.len() as int) =~= chunks_by_file@);
            }
        }
        r
    }
}

impl<T> EmbedRun<T> {
    /// The texts, in the order of the chunks.
    pub fn texts(&self) -> (r: &Vec<String>)
        ensures
            text::texts(r@) == self@.texts,
    {
        &self.texts
    }

    /// The number of files, the denominator of the progress.
    pub fn total_files(&self) -> (r: u64)
        ensures
            r == self@.ends.len(),
    {
        self.ends.len() as u64
    }

    /// The number of files to report as processed before anything is requested:
    /// all of them if nothing is to be requested, so that the bar completes.
    pub fn processed_at_start(&self) -> (r: Option<u64>)
        ensures
            r == if self@.texts.len() == 0 || !self@.has_client {
                Some(self@.ends.len() as u64)
            } else {
                None
            },
    {
        assert(text::texts(self.texts@).len() == self.texts@.len());
        if self.texts.len() == 0 || !self.has_client {
            Some(self.ends.len() as u64)
        } else {
            None
        }
    }

    /// The range of texts to request next, or `None` when all are done.
    pub fn pending(&self) -> (r: Option<(usize, usize)>)
        ensures
            match r {
                Some((from, to)) => self@.next < self@.ranges.len()
                    && self@.ranges[self@.next as int] == (from as nat, to as nat),
                None => self@.next >= self@.ranges.len(),
            },
    {
        self.batches.pending()
    }

    /// The texts to embed next, as documents, or `None` when all are done.
    pub fn pending_batch(&self) -> (r: Option<DocumentBatch>)
        requires
            self@.wf(),
        ensures
            match r {
                Some(b) => {
                    &&& self@.next < self@.ranges.len()
                    &&& text::texts(b.texts@) == self@.texts.subrange(
                        self@.ranges[self@.next as int].0 as int,
                        self@.ranges[self@.next as int].1 as int,
                    )
                    &&& b.input_type == InputType::Document
                },
                None => self@.next >= self@.ranges.len(),
            },
    {
        match self.batches.pending() {
            Some((from, to)) => {
                Some(
                    DocumentBatch {
                        texts: clone_range(self.texts.as_slice(), from, to),
                        input_type: InputType::Document,
                    },
                )
            },
            None => None,
        }
    }

    /// Takes what came back for the pending range, and returns the number of
    /// files to report as processed: those with all of their chunks done.
    pub fn absorb(&mut self, reply: Vec<Vec<T>>) -> (r: u64)
        requires
            old(self)@.wf(),
            old(self)@.next < old(self)@.ranges.len(),
        ensures
            final(self)@.wf(),
            final(self)@ == (EmbedRunView::<T> {
                next: old(self)@.next + 1,
                collected: old(self)@.collected + reply@,
                ..old(self)@
            }),
            is_completed(final(self)@.ends, final(self)@.collected.len(), r as nat),
    {
        self.batches.absorb(reply);
        let done: usize = self.batches.count();
        assert forall|i: int, j: int| 0 <= i <= j < self.ends@.len() implies self.ends@[i]
            <= self.ends@[j] by {
            assert(self@.ends[i] <= self@.ends[j]);
        }
        completed_files(&self.ends, done)
    }

    /// The embeddings, in the order of the texts. Without a client each is empty.
    pub fn finish(self) -> (r: Vec<Vec<T>>)
        ensures
            self@.has_client ==> r@ == self@.collected,
            !self@.has_client ==> r@.len() == self@.texts.len() && forall|i: int|
                0 <= i < r@.len() ==> (#[trigger] r@[i])@.len() == 0,
    {
        if self.has_client {
            return self.batches.finish();
        }
        let mut out: Vec<Vec<T>> = Vec::new();
        let n: usize = self.texts.len();
        assert(text::texts(self.texts@).len() == n);
        while out.len() < n
            invariant
                out.len() <= n,
                forall|i: int| 0 <= i < out@.len() ==> (#[trigger] out@[i])@.len() == 0,
            decreases n - out.len(),
        {
            out.push(Vec::new());
        }
        out
    }
}

/// The number of files whose last chunk is among the first `done` chunks.
/// Binary-searches for the rightmost file whose end is at most `done`.
pub fn completed_files(ends: &Vec<usize>, done: usize) -> (r: u64)
    requires
        forall|i: int, j: int| 0 <= i <= j < ends@.len() ==> ends@[i] <= ends@[j],
    ensures
        is_completed(
            Seq::new(ends@.len(), |i: int| ends@[i] as nat),
            done as nat,
            r as nat,
        ),
{
    let mut lo: usize = 0;
    let mut hi: usize = ends.len();
    while lo < hi
        invariant
            lo <= hi <= ends.len(),
            forall|i: int, j: int| 0 <= i <= j < ends@.len() ==> ends@[i] <= ends@[j],
            forall|i: int| 0 <= i < lo ==> ends@[i] <= done,
            forall|i: int| hi <= i < ends@.len() ==> ends@[i] > done,
        decreases hi - lo,
    {
        let mid: usize = lo + (hi - lo) / 2;
        if ends[mid] <= done {
            lo = mid + 1;
        } else {
            hi = mid;
        }
    }
    lo as u64
}

/// The number of completed files is determined, never exceeds the number of
/// files, and does not fall as more chunks are done.
pub proof fn law_progress_does_not_fall(ends: Seq<nat>, a: nat, b: nat, m: nat, n: nat)
    requires
        a <= b,
        is_completed(ends, a, m),
        is_completed(ends, b, n),
    ensures
        m <= n <= ends.len(),
        a == b ==> m == n,
{
    if n < m {
        assert(ends[n as int] <= a);
    }
    if a == b && m < n {
        assert(ends[m as int] <= b);
    }
}

impl<T> EmbedRunView<T> {
    /// The requests of the run and what came back for them.
    pub open spec fn requests(self) -> batches::BatchRunView<Vec<T>> {
        batches::BatchRunView {
            ranges: self.ranges,
            next: self.next,
            collected: self.collected,
        }
    }
}

/// When all batches are done and each gave one embedding per text, there is one
/// embedding for each text, and all files are completed: the bar reaches exactly
/// 100%.
pub proof fn law_progress_reaches_the_end<T>(run: EmbedRunView<T>, n: nat)
    requires
        run.wf(),
        run.ranges == batches::batch_ranges(0, run.texts.len(), MAX_BATCH_SIZE as nat),
        run.requests().on_track(),
        run.next == run.ranges.len(),
        is_completed(run.ends, run.collected.len(), n),
    ensures
        run.collected.len() == run.texts.len(),
        n == run.ends.len(),
{
    batches::law_batches_hold_every_item(0, run.texts.len(), MAX_BATCH_SIZE as nat);
    assert(run.ranges.take(run.next as int) =~= run.ranges);
    if n < run.ends.len() {
        assert(run.ends[n as int] <= run.texts.len());
    }
}

// ─── What is written ─────────────────────────────────────────────────────

/// The identity of a chunk.
pub open spec fn id_of(chunk: ChunkView) -> ChunkIdView {
    ChunkIdView {
        file: chunk.file,
        line_start: chunk.line_start,
        line_end: chunk.line_end,
    }
}

/// The chunks with their embeddings: each has the embedding of its number, or an
/// empty one if there are fewer.
pub open spec fn paired<T>(chunks: Seq<ChunkView>, embeddings: Seq<Vec<T>>) -> Seq<Entry<T>> {
    Seq::new(
        chunks.len(),
        |k: int|
            Entry {
                id: id_of(chunks[k]),
                embedding: if k < embeddings.len() {
                    embeddings[k]@
                } else {
                    seq![]
                },
            },
    )
}

/// Pairs the chunks with their embeddings.
pub fn pair_chunks<T: Copy>(
    by_file: &Vec<(String, Vec<Chunk>)>,
    embeddings: &Vec<Vec<T>>,
) -> (r: Vec<(ChunkId, Vec<T>)>)
    ensures
        vector::entries_of(r@) == paired(transaction::flat_chunks(by_file@), embeddings@),
{
    let mut out: Vec<(ChunkId, Vec<T>)> = Vec::new();
    let mut f: usize = 0;
    assert(vector::entries_of(out@) =~= paired(
        transaction::flat_chunks(by_file@.take(0)),
        embeddings@,
    ));
    while f < by_file.len()
        invariant
            f <= by_file.len(),
            vector::entries_of(out@) == paired(
                transaction::flat_chunks(by_file@.take(f as int)),
                embeddings@,
            ),
        decreases by_file.len() - f,
    {
        let chunks = &by_file[f].1;
        let ghost before = transaction::flat_chunks(by_file@.take(f as int));
        let ghost views = chunker::chunk_views(chunks@);
        let mut i: usize = 0;
        assert(before + views.take(0) =~= before);
        while i < chunks.len()
            invariant
                i <= chunks.len(),
                views == chunker::chunk_views(chunks@),
                vector::entries_of(out@) == paired(before + views.take(i as int), embeddings@),
            decreases chunks.len() - i,
        {
            let ghost sofar = vector::entries_of(out@);
            let ghost all = before + views.take(i + 1);
            assert(sofar.len() == before.len() + i);
            let k: usize = out.len();
            let embedding = if k < embeddings.len() {
                vector::copy_vector(&embeddings[k])
            } else {
                Vec::new()
            };
            let id = ChunkId {
                file: chunks[i].file.clone(),
                line_start: chunks[i].line_start,
                line_end: chunks[i].line_end,
            };
            out.push((id, embedding));
            assert(all[k as int] == chunks@[i as int]@);
            assert(embedding@ =~= paired(all, embeddings@)[k as int].embedding);
            assert(vector::entries_of(out@) =~= sofar.push(paired(all, embeddings@)[k as int]));
            assert(vector::entries_of(out@) =~= paired(all, embeddings@)) by {
                assert forall|j: int| 0 <= j < k implies sofar[j] == paired(
                    all,
                    embeddings@,
                )[j] by {
                    assert(all[j] == (before + views.take(i as int))[j]);
                }
            }
            i = i + 1;
        }
        assert(views.take(i as int) =~= views);
        assert(by_file@.take(f + 1).drop_last() =~= by_file@.take(f as int));
        f = f + 1;
    }
    assert(by_file@.take(f as int) =~= by_file@);
    out
}

/// Chunks, texts and embeddings stay aligned: where one embedding came back for
/// each text, every chunk gets the embedding of its own content.
pub proof fn law_chunks_and_embeddings_align<T>(
    chunks: Seq<ChunkView>,
    embeddings: Seq<Vec<T>>,
    k: int,
)
    requires
        embeddings.len() == contents(chunks).len(),
        0 <= k < chunks.len(),
    ensures
        paired(chunks, embeddings).len() == chunks.len(),
        contents(chunks)[k] == chunks[k].content,
        paired(chunks, embeddings)[k] == (Entry {
            id: id_of(chunks[k]),
            embedding: embeddings[k]@,
        }),
{
}

/// The array literals of embeddings, given the numerals of their components.
pub open spec fn literals_of(numerals: Seq<Vec<String>>) -> Seq<Seq<char>> {
    Seq::new(
        numerals.len(),
        |i: int| transaction::embedding_literal(text::texts(numerals[i]@)),
    )
}

fn format_embeddings(numerals: &Vec<Vec<String>>) -> (r: Vec<String>)
    ensures
        text::texts(r@) == literals_of(numerals@),
{
    let mut out: Vec<String> = Vec::new();
    let mut i: usize = 0;
    while i < numerals.len()
        invariant
            i <= numerals.len(),
            text::texts(out@) == literals_of(numerals@).take(i as int),
        decreases numerals.len() - i,
    {
        let ghost before = text::texts(out@);
        out.push(format_embedding(&numerals[i]));
        assert(text::texts(out@) =~= before.push(literals_of(numerals@)[i as int]));
        assert(text::texts(out@) =~= literals_of(numerals@).take(i + 1));
        i = i + 1;
    }
    assert(literals_of(numerals@).take(i as int) =~= literals_of(numerals@));
    out
}

/// Queries the names of all stored symbols. See
/// [`symbols_from_rows`](crate::store::ops::symbols_from_rows).
pub fn query_all_symbols_from_db() -> (r: Statement)
    ensures
        r@ == statement::plain("SELECT file, name FROM symbol"@, "query all symbols"@),
{
    Statement::new("SELECT file, name FROM symbol", "query all symbols")
}

/// What a run writes: a transaction for the store, and for the vector index which
/// entries go and which come.
pub struct RunWrite<T> {
    pub txn: String,
    /// The files whose entries go; `None` for all of the repo.
    pub removed_files: Option<Vec<String>>,
    pub vectors: Vec<(ChunkId, Vec<T>)>,
}

impl IndexPipeline {
    /// The transaction of a full rebuild, and the chunks with their embeddings
    /// for the vector index. Edges are resolved among the parsed symbols.
    /// `numerals` are the components of `embeddings` as they are written.
    pub fn full_rebuild<T: Copy>(
        &self,
        parsed: &Parsed,
        embeddings: &Vec<Vec<T>>,
        numerals: &Vec<Vec<String>>,
        file_stats: &Vec<(String, i64, i64)>,
    ) -> (r: RunWrite<T>)
        ensures
            r.removed_files is None,
            r.txn@ == transaction::full_rebuild_text(
                symbols::symbol_views(parsed.symbols@),
                edges::resolved(
                    relations::edge_views(parsed.edges@),
                    edges::index_add_all(
                        Map::empty(),
                        edges::qualified_of(symbols::symbol_views(parsed.symbols@)),
                    ),
                ),
                transaction::flat_chunks(parsed.chunks_by_file@),
                literals_of(numerals@),
                transaction::stat_views(file_stats@),
                self.repo_path(),
            ),
            vector::entries_of(r.vectors@) == paired(
                transaction::flat_chunks(parsed.chunks_by_file@),
                embeddings@,
            ),
    {
        let index = build_symbol_index(parsed.symbols.as_slice());
        let resolved = resolve_edges(parsed.edges.as_slice(), &index);
        let txn = full_rebuild_txn(
            &parsed.symbols,
            &resolved,
            &parsed.chunks_by_file,
            &format_embeddings(numerals),
            file_stats,
            self.repo.as_str(),
        );
        RunWrite {
            txn,
            removed_files: None,
            vectors: pair_chunks(&parsed.chunks_by_file, embeddings),
        }
    }

    /// The transaction of an incremental run, and the chunks with their embeddings
    /// for the vector index. Edges are resolved among the parsed symbols, then
    /// among those that are stored.
    pub fn incremental_run<T: Copy>(
        &self,
        sets: &ChangeSets,
        parsed: &Parsed,
        stored_symbols: &Vec<QualifiedSymbol>,
        embeddings: &Vec<Vec<T>>,
        numerals: &Vec<Vec<String>>,
        file_stats: &Vec<(String, i64, i64)>,
    ) -> (r: RunWrite<T>)
        ensures
            r.removed_files matches Some(files) && text::texts(files@) == text::texts(
                sets.all_affected@,
            ),
            r.txn@ == transaction::incremental_text(
                text::texts(sets.all_affected@),
                symbols::symbol_views(parsed.symbols@),
                edges::resolved(
                    relations::edge_views(parsed.edges@),
                    edges::index_add_all(
                        edges::index_add_all(
                            Map::empty(),
                            edges::qualified_of(symbols::symbol_views(parsed.symbols@)),
                        ),
                        symbols::qualified_views(stored_symbols@),
                    ),
                ),
                transaction::flat_chunks(parsed.chunks_by_file@),
                literals_of(numerals@),
                transaction::stat_views(file_stats@),
                self.repo_path(),
                text::texts(sets.to_delete@),
            ),
            vector::entries_of(r.vectors@) == paired(
                transaction::flat_chunks(parsed.chunks_by_file@),
                embeddings@,
            ),
    {
        let mut index = build_symbol_index(parsed.symbols.as_slice());
        index.add_all(stored_symbols.as_slice());
        let resolved = resolve_edges(parsed.edges.as_slice(), &index);
        let txn = incremental_txn(
            &sets.all_affected,
            &parsed.symbols,
            &resolved,
            &parsed.chunks_by_file,
            &format_embeddings(numerals),
            file_stats,
            self.repo.as_str(),
            &sets.to_delete,
        );
        RunWrite {
            txn,
            removed_files: Some(clone_strings(&sets.all_affected)),
            vectors: pair_chunks(&parsed.chunks_by_file, embeddings),
        }
    }
}

// ─── The vector index ────────────────────────────────────────────────────

/// The entries after those of the files were removed, file by file.
pub open spec fn swept_files<T>(entries: Seq<Entry<T>>, files: Seq<Seq<char>>) -> Seq<Entry<T>>
    decreases files.len(),
{
    if files.len() == 0 {
        entries
    } else {
        vector::swept(swept_files(entries, files.drop_last()), 0, files.last(), false)
    }
}

/// Brings the vector index up to date after a full rebuild of a repo: its entries
/// are replaced by the new vectors, which are normalized.
pub fn apply_rebuild<T: Copy>(
    index: &mut VectorIndex<T>,
    repo: &str,
    new_vectors: &Vec<(ChunkId, Vec<T>)>,
)
    requires
        old(index).wf(),
    ensures
        final(index).wf(),
        final(index)@ == (vector::IndexView {
            entries: vector::swept(old(index)@.entries, 0, repo@, true),
            dimension: old(index)@.dimension,
        }).add_all(vector::entries_of(new_vectors@)),
{
    index.remove_repo(repo);
    assert(index@ =~= (vector::IndexView {
        entries: vector::swept(old(index)@.entries, 0, repo@, true),
        dimension: old(index)@.dimension,
    }));
    index.insert(new_vectors.as_slice());
}

/// Brings the vector index up to date after an incremental run: the entries of
/// the affected files are replaced by the new vectors, which are normalized.
pub fn apply_incremental<T: Copy>(
    index: &mut VectorIndex<T>,
    removed_files: &Vec<String>,
    new_vectors: &Vec<(ChunkId, Vec<T>)>,
)
    requires
        old(index).wf(),
    ensures
        final(index).wf(),
        final(index)@ == (vector::IndexView {
            entries: swept_files(old(index)@.entries, text::texts(removed_files@)),
            dimension: old(index)@.dimension,
        }).add_all(vector::entries_of(new_vectors@)),
{
    let ghost files = text::texts(removed_files@);
    let mut i: usize = 0;
    assert(files.take(0) =~= seq![]);
    while i < removed_files.len()
        invariant
            i <= removed_files.len(),
            files == text::texts(removed_files@),
            index.wf(),
            index@.dimension == old(index)@.dimension,
            index@.entries == swept_files(old(index)@.entries, files.take(i as int)),
        decreases removed_files.len() - i,
    {
        index.remove_file(removed_files[i].as_str());
        assert(files.take(i + 1).drop_last() =~= files.take(i as int));
        i = i + 1;
    }
    assert(files.take(i as int) =~= files);
    assert(index@ =~= (vector::IndexView {
        entries: swept_files(old(index)@.entries, files),
        dimension: old(index)@.dimension,
    }));
    index.insert(new_vectors.as_slice());
}

/// The vector index after a run; without a write it stays as it is.
pub open spec fn index_after<T>(
    index: vector::IndexView<T>,
    repo: Seq<char>,
    write: Option<RunWrite<T>>,
) -> vector::IndexView<T> {
    match write {
        None => index,
        Some(w) => (vector::IndexView {
            entries: match w.removed_files {
                Some(files) => swept_files(index.entries, text::texts(files@)),
                None => vector::swept(index.entries, 0, repo, true),
            },
            dimension: index.dimension,
        }).add_all(vector::entries_of(w.vectors@)),
    }
}

/// The transactions that the store was sent, after a run; without a write there is
/// no new one.
pub open spec fn sent_after<T>(
    sent: Seq<Seq<char>>,
    write: Option<RunWrite<T>>,
) -> Seq<Seq<char>> {
    match write {
        None => sent,
        Some(w) => sent.push(w.txn@),
    }
}

/// Brings the vector index up to date after a run. The new vectors are normalized.
pub fn apply_run<T: Copy>(
    index: &mut VectorIndex<T>,
    repo: &str,
    write: &Option<RunWrite<T>>,
)
    requires
        old(index).wf(),
    ensures
        final(index).wf(),
        final(index)@ == index_after(old(index)@, repo@, *write),
{
    if let Some(w) = write {
        match &w.removed_files {
            Some(files) => apply_incremental(index, files, &w.vectors),
            None => apply_rebuild(index, repo, &w.vectors),
        }
    }
}

/// Whether a write is what an action of a run leads to.
pub open spec fn write_fits<T>(action: RunAction, write: Option<RunWrite<T>>) -> bool {
    match action {
        RunAction::UpToDate(_) => write is None,
        RunAction::FullRebuild => write matches Some(w) && w.removed_files is None,
        RunAction::Incremental(_) => write matches Some(w) && w.removed_files is Some,
        RunAction::DetectChanges => false,
    }
}

/// A run without changes, on a repo of which something is stored and without force,
/// leaves the store and the vector index as they are, and returns the number of
/// files that are stored and of those there are. `changes` are given or detected.
pub proof fn law_run_without_changes_changes_nothing<T>(
    stored_files: usize,
    total_files: u64,
    changes: Vec<FileChange>,
    action: RunAction,
    write: Option<RunWrite<T>>,
    index: vector::IndexView<T>,
    sent: Seq<Seq<char>>,
    repo: Seq<char>,
)
    requires
        stored_files > 0,
        changes@.len() == 0,
        run_does(stored_files, total_files, Some(changes), false, action) || action_for(
            changes,
            stored_files,
            total_files,
            action,
        ),
        write_fits(action, write),
    ensures
        action == RunAction::UpToDate(stats_of(stored_files, total_files)),
        index_after(index, repo, write) == index,
        sent_after(sent, write) == sent,
{
}

/// What a query that counts `n` rows in one group returns: their number, or no row
/// if there is nothing to count.
pub open spec fn counts_rows(n: nat, rows: Seq<i64>) -> bool {
    if n == 0 {
        rows.len() == 0 || (rows.len() == 1 && rows[0] == 0)
    } else {
        rows.len() == 1 && rows[0] == n
    }
}

/// The metadata of the files of a repo: what selecting the rows of a table by the
/// repo gives.
pub open spec fn selected(table: Seq<FileMeta>, repo: Seq<char>) -> Seq<FileMeta> {
    table.filter(|m: FileMeta| m.repo@ == repo)
}

/// What a run returns: it said so at once if nothing changed; otherwise it counts
/// what is stored in the end.
pub open spec fn run_returns(
    action: RunAction,
    stored_after: usize,
    total_files: u64,
    stats: IndexPipelineStats,
) -> bool {
    match action {
        RunAction::UpToDate(s) => stats == s,
        _ => stats == stats_of(stored_after, total_files),
    }
}

/// What a run returns are the counts of the store and of the repo: whatever it does,
/// the number of indexed files is the one that counting the rows right afterwards
/// gives, and the total is the number of files there are. `before` and `after` are
/// the table of files' metadata around the run, which only a write changes, and
/// `counted` is what the query that counts returns of the latter; `changes` are
/// given or detected.
pub proof fn law_run_returns_the_counts_of_the_store<T>(
    before: Seq<FileMeta>,
    after: Seq<FileMeta>,
    repo: Seq<char>,
    files: Seq<Seq<char>>,
    changes: Option<Vec<FileChange>>,
    detected: Vec<FileChange>,
    force_rebuild: bool,
    action: RunAction,
    write: Option<RunWrite<T>>,
    stats: IndexPipelineStats,
    counted: Seq<i64>,
)
    requires
        selected(before, repo).len() <= usize::MAX,
        selected(after, repo).len() <= usize::MAX,
        files.len() <= u64::MAX,
        run_does(
            selected(before, repo).len() as usize,
            files.len() as u64,
            changes,
            force_rebuild,
            action,
        ) || action_for(
            detected,
            selected(before, repo).len() as usize,
            files.len() as u64,
            action,
        ),
        write_fits(action, write),
        write is None ==> after == before,
        run_returns(
            action,
            selected(after, repo).len() as usize,
            files.len() as u64,
            stats,
        ),
        counts_rows(selected(after, repo).len(), counted),
    ensures
        stats.indexed_files == ops::count_in(counted),
        stats.total_files == files.len(),
{
}

/// Removing files removes all of their entries and nothing else.
pub proof fn law_files_are_swept<T>(entries: Seq<Entry<T>>, files: Seq<Seq<char>>, e: Entry<T>)
    ensures
        swept_files(entries, files).to_multiset().count(e) == if files.contains(e.id.file) {
            0
        } else {
            entries.to_multiset().count(e)
        },
    decreases files.len(),
{
    if files.len() > 0 {
        let front = files.drop_last();
        law_files_are_swept(entries, front, e);
        vector::law_sweep_is_exact(swept_files(entries, front), files.last(), false, e);
        if front.contains(e.id.file) {
            let k = choose|k: int| 0 <= k < front.len() && front[k] == e.id.file;
            assert(files[k] == e.id.file);
        }
        if files.last() == e.id.file {
            assert(files[files.len() - 1] == e.id.file);
        }
        if files.contains(e.id.file) && files.last() != e.id.file {
            let k = choose|k: int| 0 <= k < files.len() && files[k] == e.id.file;
            assert(front[k] == e.id.file);
        }
    }
}

/// After an incremental run nothing old is left of an affected file, and the other
/// files are left alone: an entry that the run did not hand in is gone if its file
/// was affected, and is held as often as before if not.
pub proof fn law_incremental_run_is_exact<T>(
    before: vector::IndexView<T>,
    files: Seq<Seq<char>>,
    new: Seq<Entry<T>>,
    e: Entry<T>,
)
    requires
        !new.contains(e),
    ensures
        (vector::IndexView {
            entries: swept_files(before.entries, files),
            dimension: before.dimension,
        }).add_all(new).entries.to_multiset().count(e) == if files.contains(e.id.file) {
            0
        } else {
            before.entries.to_multiset().count(e)
        },
{
    let left = vector::IndexView {
        entries: swept_files(before.entries, files),
        dimension: before.dimension,
    };
    law_files_are_swept(before.entries, files, e);
    lemma_adding_others(left, new, e);
}

proof fn lemma_adding_others<T>(index: vector::IndexView<T>, new: Seq<Entry<T>>, e: Entry<T>)
    requires
        !new.contains(e),
    ensures
        index.add_all(new).entries.to_multiset().count(e) == index.entries.to_multiset().count(e),
    decreases new.len(),
{
    broadcast use group_to_multiset_ensures;

    if new.len() > 0 {
        let front = new.drop_last();
        assert(!front.contains(e)) by {
            if front.contains(e) {
                let k = choose|k: int| 0 <= k < front.len() && front[k] == e;
                assert(new[k] == e);
            }
        }
        assert(new[new.len() - 1] != e);
        lemma_adding_others(index, front, e);
        let mid = index.add_all(front).entries;
        assert(mid.push(new.last()).to_multiset() =~= mid.to_multiset().insert(new.last()));
    }
}


// ─── Laws ────────────────────────────────────────────────────────────────

/// What a run does: on the first run, or if forced, everything anew; otherwise it
/// detects changes where none are given, processes exactly the given ones, and does
/// nothing where the list of them is empty, but says how many files are stored and
/// how many there are.
pub proof fn law_what_a_run_does(
    stored_files: usize,
    total_files: u64,
    changes: Option<Vec<FileChange>>,
    force_rebuild: bool,
    action: RunAction,
)
    requires
        run_does(stored_files, total_files, changes, force_rebuild, action),
    ensures
        stored_files == 0 || force_rebuild ==> action == RunAction::FullRebuild,
        stored_files > 0 && !force_rebuild && changes is None ==> action
            == RunAction::DetectChanges,
        stored_files > 0 && !force_rebuild ==> (changes matches Some(list) ==> list@.len() > 0
            ==> action == RunAction::Incremental(list)),
        stored_files > 0 && !force_rebuild ==> (changes matches Some(list) ==> list@.len() == 0
            ==> action == RunAction::UpToDate(
            IndexPipelineStats { indexed_files: stored_files as u64, total_files },
        )),
{
}

/// Changes that were detected are treated as given ones are.
pub proof fn law_detected_changes(
    detected: Vec<FileChange>,
    stored_files: usize,
    total_files: u64,
    action: RunAction,
)
    requires
        action_for(detected, stored_files, total_files, action),
    ensures
        detected@.len() > 0 ==> action == RunAction::Incremental(detected),
        detected@.len() == 0 ==> action == RunAction::UpToDate(
            IndexPipelineStats { indexed_files: stored_files as u64, total_files },
        ),
{
}

/// The changed files keep their order, each under its own path: a deleted one is
/// listed among the deleted, any other among those to process.
pub proof fn law_changes_keep_their_order(
    a: Seq<FileChange>,
    b: Seq<FileChange>,
    deleted: bool,
)
    ensures
        paths_of(a + b, deleted) == paths_of(a, deleted) + paths_of(b, deleted),
        a.len() == 0 ==> paths_of(a, deleted).len() == 0,
        a.len() == 1 && a[0].kind == ChangeKind::Deleted ==> paths_of(a, true) == seq![a[0].path@]
            && paths_of(a, false).len() == 0,
        a.len() == 1 && (a[0].kind == ChangeKind::Added || a[0].kind == ChangeKind::Modified)
            ==> paths_of(a, false) == seq![a[0].path@] && paths_of(a, true).len() == 0,
    decreases b.len(),
{
    if b.len() == 0 {
        assert(a + b =~= a);
    } else {
        law_changes_keep_their_order(a, b.drop_last(), deleted);
        assert((a + b).drop_last() =~= a + b.drop_last());
    }
    assert(paths_of(a + b, deleted) =~= paths_of(a, deleted) + paths_of(b, deleted));
    if a.len() == 1 {
        assert(a.drop_last() =~= seq![]);
        assert(paths_of(a.drop_last(), true) =~= seq![]);
        assert(paths_of(a.drop_last(), false) =~= seq![]);
        if a[0].kind == ChangeKind::Deleted {
            assert(paths_of(a, true) =~= seq![a[0].path@]);
        } else {
            assert(paths_of(a, false) =~= seq![a[0].path@]);
        }
    }
}

/// What the parsed files hold is collected file by file, each file's symbols and
/// edges in their order, and the chunks under the file that they came from.
pub proof fn law_parsed_files_are_collected_in_order(
    a: Seq<(String, ParseResult)>,
    b: Seq<(String, ParseResult)>,
    i: int,
)
    ensures
        all_symbols(a + b) == all_symbols(a) + all_symbols(b),
        all_edges(a + b) == all_edges(a) + all_edges(b),
        a.len() == 0 ==> all_symbols(a).len() == 0 && all_edges(a).len() == 0,
        a.len() == 1 ==> all_symbols(a).len() == a[0].1.symbols@.len(),
        a.len() == 1 && 0 <= i < a[0].1.symbols@.len() ==> all_symbols(a)[i]
            == a[0].1.symbols@[i]@,
        a.len() == 1 ==> all_edges(a).len() == a[0].1.edges@.len(),
        a.len() == 1 && 0 <= i < a[0].1.edges@.len() ==> all_edges(a)[i] == a[0].1.edges@[i]@,
        chunks_of_files(a).len() == a.len(),
        0 <= i < a.len() ==> chunks_of_files(a)[i].0 == a[i].0@ && chunks_of_files(a)[i].1
            == chunker::chunk_views(a[i].1.chunks@),
    decreases b.len(),
{
    if b.len() == 0 {
        assert(a + b =~= a);
    } else {
        law_parsed_files_are_collected_in_order(a, b.drop_last(), i);
        assert((a + b).drop_last() =~= a + b.drop_last());
    }
    assert(all_symbols(a + b) =~= all_symbols(a) + all_symbols(b));
    assert(all_edges(a + b) =~= all_edges(a) + all_edges(b));
    if a.len() == 1 {
        assert(a.drop_last() =~= seq![]);
        assert(all_symbols(a.drop_last()) =~= seq![]);
        assert(all_edges(a.drop_last()) =~= seq![]);
        assert(all_symbols(a) =~= symbols::symbol_views(a[0].1.symbols@));
        assert(all_edges(a) =~= relations::edge_views(a[0].1.edges@));
    }
}

/// A file ends, in the list of all chunks, as many chunks behind the file before it
/// as it has itself; the last one ends with the list.
pub proof fn law_files_end_behind_their_chunks(by_file: Seq<(String, Vec<Chunk>)>, i: int)
    requires
        0 <= i < by_file.len(),
    ensures
        chunk_ends(by_file).len() == by_file.len(),
        i == 0 ==> chunk_ends(by_file)[i] == by_file[0].1@.len(),
        i > 0 ==> chunk_ends(by_file)[i] == chunk_ends(by_file)[i - 1] + by_file[i].1@.len(),
        i == by_file.len() - 1 ==> chunk_ends(by_file)[i] == transaction::flat_chunks(
            by_file,
        ).len(),
{
    assert(by_file.take(i + 1).drop_last() =~= by_file.take(i));
    if i == 0 {
        assert(by_file.take(0) =~= seq![]);
        assert(transaction::flat_chunks(by_file.take(0)).len() == 0);
    }
    if i == by_file.len() - 1 {
        assert(by_file.take(i + 1) =~= by_file);
    }
}

/// A file counts as completed exactly where all chunks up to its end are done.
pub proof fn law_completed_files_are_done(ends: Seq<nat>, done: nat, n: nat, i: int)
    requires
        is_completed(ends, done, n),
        0 <= i < ends.len(),
    ensures
        i < n <==> ends[i] <= done,
        n <= ends.len(),
{
}

/// Every chunk is listed with its own file and lines, and with the embedding of its
/// number; one beyond the embeddings has an empty one.
pub proof fn law_each_chunk_has_its_embedding<T>(
    chunks: Seq<ChunkView>,
    embeddings: Seq<Vec<T>>,
    k: int,
)
    requires
        0 <= k < chunks.len(),
    ensures
        paired(chunks, embeddings).len() == chunks.len(),
        paired(chunks, embeddings)[k].id.file == chunks[k].file,
        paired(chunks, embeddings)[k].id.line_start == chunks[k].line_start,
        paired(chunks, embeddings)[k].id.line_end == chunks[k].line_end,
        k < embeddings.len() ==> paired(chunks, embeddings)[k].embedding == embeddings[k]@,
        k >= embeddings.len() ==> paired(chunks, embeddings)[k].embedding.len() == 0,
        contents(chunks).len() == chunks.len(),
        contents(chunks)[k] == chunks[k].content,
{
}

/// The literal of an embedding holds the numerals of that embedding, in order,
/// between brackets.
pub proof fn law_each_embedding_has_its_literal(numerals: Seq<Vec<String>>, k: int)
    requires
        0 <= k < numerals.len(),
    ensures
        literals_of(numerals).len() == numerals.len(),
        literals_of(numerals)[k] == seq!['['] + text::join(text::texts(numerals[k]@), ","@)
            + seq![']'],
{
    reveal_strlit("[");
    reveal_strlit("]");
    assert("["@ =~= seq!['[']);
    assert("]"@ =~= seq![']']);
}

/// What a run does to the vector index: a full rebuild takes out what belongs to the
/// repo, an incremental run what belongs to the affected files, and both leave any
/// other entry as it is; what is handed in comes behind, where it fits the dimension.
/// `e` is an entry that is not handed in.
pub proof fn law_index_after_a_run<T>(
    index: vector::IndexView<T>,
    repo: Seq<char>,
    write: RunWrite<T>,
    e: Entry<T>,
)
    requires
        !vector::entries_of(write.vectors@).contains(e),
    ensures
        write.removed_files is None ==> index_after(
            index,
            repo,
            Some(write),
        ).entries.to_multiset().count(e) == (if crate::in_repo(e.id.file, repo) {
            0
        } else {
            index.entries.to_multiset().count(e)
        }),
        write.removed_files matches Some(files) ==> index_after(
            index,
            repo,
            Some(write),
        ).entries.to_multiset().count(e) == (if text::texts(files@).contains(e.id.file) {
            0
        } else {
            index.entries.to_multiset().count(e)
        }),
        index_after(index, repo, None) == index,
{
    let new = vector::entries_of(write.vectors@);
    match write.removed_files {
        None => {
            let left = vector::IndexView {
                entries: vector::swept(index.entries, 0, repo, true),
                dimension: index.dimension,
            };
            vector::law_sweep_is_exact(index.entries, repo, true, e);
            lemma_adding_others(left, new, e);
        },
        Some(files) => {
            law_incremental_run_is_exact(index, text::texts(files@), new, e);
        },
    }
}

/// Every vector that a run hands in is in the index afterwards, if the index has no
/// dimension or that of the vectors.
pub proof fn law_index_holds_what_was_handed_in<T>(
    index: vector::IndexView<T>,
    repo: Seq<char>,
    write: RunWrite<T>,
    d: nat,
    i: int,
)
    requires
        d > 0,
        index.dimension is None || index.dimension == Some(d),
        forall|k: int|
            0 <= k < write.vectors@.len() ==> (#[trigger] write.vectors@[k]).1@.len() == d
                || write.vectors@[k].1@.len() == 0,
        0 <= i < write.vectors@.len(),
    ensures
        index_after(index, repo, Some(write)).entries.contains(
            Entry { id: write.vectors@[i].0@, embedding: write.vectors@[i].1@ },
        ),
{
    let new = vector::entries_of(write.vectors@);
    let left = vector::IndexView {
        entries: match write.removed_files {
            Some(files) => swept_files(index.entries, text::texts(files@)),
            None => vector::swept(index.entries, 0, repo, true),
        },
        dimension: index.dimension,
    };
    assert forall|k: int| 0 <= k < new.len() implies (#[trigger] new[k]).embedding.len() == d
        || new[k].embedding.len() == 0 by {
        assert(new[k].embedding == write.vectors@[k].1@);
    }
    vector::law_insert_takes_fitting_vectors(left, new, d);
    let after = index_after(index, repo, Some(write)).entries;
    assert(after[left.entries.len() + i] == new[i]);
}

/// A run that writes sends its transaction, behind those that were sent before.
pub proof fn law_a_write_is_sent<T>(sent: Seq<Seq<char>>, write: RunWrite<T>)
    ensures
        sent_after(sent, Some(write)) == sent + seq![write.txn@],
        sent_after::<T>(sent, None) == sent,
{
    assert(sent_after(sent, Some(write)) =~= sent + seq![write.txn@]);
}


/// The model of chunks by file has each file at its place, with its own path and
/// chunks.
pub proof fn law_by_file_models(list: Seq<(String, Vec<Chunk>)>, i: int)
    requires
        0 <= i < list.len(),
    ensures
        by_file_views(list).len() == list.len(),
        by_file_views(list)[i].0 == list[i].0@,
        by_file_views(list)[i].1 == chunker::chunk_views(list[i].1@),
{
}

} // verus!
