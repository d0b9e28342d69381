//! In-memory index of embeddings.

use vstd::prelude::*;
use vstd::seq_lib::*;

use crate::path_in_repo;
use crate::store::statement;
use crate::store::statement::Statement;
use crate::text::same_text;
use crate::vector::ranking::to_unit_score;
use crate::vector::ranking::top_positions;

pub mod ranking;

verus! {

// ─── Public types ─────────────────────────────────────────────────────────

/// Identifies a chunk by its location in the source tree.
#[derive(Debug)]
pub struct ChunkId {
    pub file: String,
    pub line_start: u32,
    pub line_end: u32,
}

/// The model of a [`ChunkId`].
#[verifier::ext_equal]
pub struct ChunkIdView {
    pub file: Seq<char>,
    pub line_start: u32,
    pub line_end: u32,
}

impl View for ChunkId {
    type V = ChunkIdView;

    open spec fn view(&self) -> ChunkIdView {
        ChunkIdView {
            file: self.file@,
            line_start: self.line_start,
            line_end: self.line_end,
        }
    }
}

impl Clone for ChunkId {
    fn clone(&self) -> (r: Self)
        ensures
            r@ == self@,
    {
        ChunkId {
            file: self.file.clone(),
            line_start: self.line_start,
            line_end: self.line_end,
        }
    }
}

impl ChunkId {
    /// The identity of a stored chunk. The line numbers come back from the
    /// database as 64-bit integers, of which the low half counts.
    pub fn from_row(file: String, line_start: i64, line_end: i64) -> (r: Self)
        ensures
            r@.file == file@,
            r@.line_start == line_start as u32,
            r@.line_end == line_end as u32,
    {
        ChunkId { file, line_start: line_start as u32, line_end: line_end as u32 }
    }
}

/// A single result returned by [`VectorIndex::search`].
#[derive(Debug)]
pub struct SearchResult {
    pub chunk_id: ChunkId,
    /// Cosine similarity in [0, 1], as the bits of an IEEE 754 single.
    pub score: u32,
}

impl Clone for SearchResult {
    fn clone(&self) -> (r: Self)
        ensures
            r.chunk_id@ == self.chunk_id@,
            r.score == self.score,
    {
        SearchResult { chunk_id: self.chunk_id.clone(), score: self.score }
    }
}

// ─── VectorIndex ─────────────────────────────────────────────────────────

/// In-memory flat index of embeddings with components of type `T`.
///
/// The vectors it holds are normalized before they are inserted, so the cosine
/// similarity of a normalized query and an entry is their dot product.
pub struct VectorIndex<T> {
    /// Row-major storage: entry i holds the embedding for chunk i.
    embeddings: Vec<Vec<T>>,
    /// Parallel array: chunk_ids[i] corresponds to embeddings[i].
    chunk_ids: Vec<ChunkId>,
    /// Dimensionality of the first inserted vector with components; all subsequent
    /// ones must match. `None` until the first such insert.
    dimension: Option<usize>,
}

/// One indexed vector.
#[verifier::ext_equal]
pub struct Entry<T> {
    pub id: ChunkIdView,
    pub embedding: Seq<T>,
}

/// The model of a [`VectorIndex`].
#[verifier::ext_equal]
pub struct IndexView<T> {
    pub entries: Seq<Entry<T>>,
    pub dimension: Option<nat>,
}

impl<T> IndexView<T> {
    /// Every entry with components has the dimension of the index; without a
    /// dimension there is no such entry.
    pub open spec fn wf(self) -> bool {
        match self.dimension {
            None => forall|i: int|
                0 <= i < self.entries.len() ==> (#[trigger] self.entries[i]).embedding.len() == 0,
            Some(d) => d > 0 && forall|i: int|
                0 <= i < self.entries.len() ==> (#[trigger] self.entries[i]).embedding.len() == d
                    || self.entries[i].embedding.len() == 0,
        }
    }

    /// The index after one more vector was handed in. One without components is
    /// stored as it is and fixes no dimension; one of another dimension than the
    /// index's is passed over.
    pub open spec fn add_one(self, e: Entry<T>) -> Self {
        if e.embedding.len() == 0 {
            IndexView { entries: self.entries.push(e), dimension: self.dimension }
        } else if self.dimension matches Some(d) && d != e.embedding.len() {
            self
        } else {
            IndexView {
                entries: self.entries.push(e),
                dimension: Some(e.embedding.len()),
            }
        }
    }

    /// The index after the vectors `new` were handed in, in order.
    pub open spec fn add_all(self, new: Seq<Entry<T>>) -> Self
        decreases new.len(),
    {
        if new.len() == 0 {
            self
        } else {
            self.add_all(new.drop_last()).add_one(new.last())
        }
    }

    /// The index after `other` was merged into it: unless both have a dimension and
    /// the two differ, the entries of `other` go behind its own.
    pub open spec fn join(self, other: Self) -> Self {
        if self.dimension is Some && other.dimension is Some && self.dimension
            != other.dimension {
            self
        } else {
            IndexView {
                entries: self.entries + other.entries,
                dimension: if self.dimension is Some || other.entries.len() == 0 {
                    self.dimension
                } else {
                    other.dimension
                },
            }
        }
    }
}

/// The model of a batch of identified vectors.
pub open spec fn entries_of<T>(batch: Seq<(ChunkId, Vec<T>)>) -> Seq<Entry<T>> {
    Seq::new(batch.len(), |i: int| Entry { id: batch[i].0@, embedding: batch[i].1@ })
}

/// Whether a chunk is in the repository `target`, or, if it is not a repository
/// that is meant, in the file `target`.
pub open spec fn matches_target(id: ChunkIdView, target: Seq<char>, is_repo: bool) -> bool {
    if is_repo {
        crate::in_repo(id.file, target)
    } else {
        id.file == target
    }
}

/// The entries that do not match, in order.
pub open spec fn others<T>(
    entries: Seq<Entry<T>>,
    target: Seq<char>,
    is_repo: bool,
) -> Seq<Entry<T>>
    decreases entries.len(),
{
    if entries.len() == 0 {
        seq![]
    } else if matches_target(entries.last().id, target, is_repo) {
        others(entries.drop_last(), target, is_repo)
    } else {
        others(entries.drop_last(), target, is_repo).push(entries.last())
    }
}

/// The entries after those that match were removed from position `i` on, each by
/// putting the last entry in its place.
pub open spec fn swept<T>(
    entries: Seq<Entry<T>>,
    i: int,
    target: Seq<char>,
    is_repo: bool,
) -> Seq<Entry<T>>
    decreases entries.len() - i, entries.len(),
{
    if i < 0 || i >= entries.len() {
        entries
    } else if matches_target(entries[i].id, target, is_repo) {
        swept(entries.update(i, entries.last()).drop_last(), i, target, is_repo)
    } else {
        swept(entries, i + 1, target, is_repo)
    }
}

impl<T> View for VectorIndex<T> {
    type V = IndexView<T>;

    closed spec fn view(&self) -> IndexView<T> {
        IndexView {
            entries: Seq::new(
                self.chunk_ids@.len(),
                |i: int| Entry { id: self.chunk_ids@[i]@, embedding: self.embeddings@[i]@ },
            ),
            dimension: match self.dimension {
                Some(d) => Some(d as nat),
                None => None,
            },
        }
    }
}

impl<T> VectorIndex<T> {
    /// The two arrays run in parallel, and the model is well formed.
    pub closed spec fn wf(&self) -> bool {
        self.chunk_ids@.len() == self.embeddings@.len() && self@.wf()
    }

    /// A well-formed index has a well-formed model.
    pub proof fn law_model_is_wf(&self)
        requires
            self.wf(),
        ensures
            self@.wf(),
    {
    }

    /// Create an empty index.
    pub fn new() -> (r: Self)
        ensures
            r.wf(),
            r@ == (IndexView::<T> { entries: seq![], dimension: None }),
    {
        VectorIndex { embeddings: Vec::new(), chunk_ids: Vec::new(), dimension: None }
    }

    /// Remove all entries from the index, and forget its dimension.
    pub fn clear(&mut self)
        ensures
            final(self).wf(),
            final(self)@ == (IndexView::<T> { entries: seq![], dimension: None }),
    {
        self.embeddings.clear();
        self.chunk_ids.clear();
        self.dimension = None;
    }

    /// Number of indexed vectors.
    pub fn len(&self) -> (r: usize)
        requires
            self.wf(),
        ensures
            r == self@.entries.len(),
    {
        self.embeddings.len()
    }

    /// Returns `true` if the index contains no vectors.
    pub fn is_empty(&self) -> (r: bool)
        requires
            self.wf(),
        ensures
            r == (self@.entries.len() == 0),
    {
        self.embeddings.len() == 0
    }

    /// The identities of the indexed chunks, in the order of the entries.
    pub fn chunk_ids(&self) -> (r: &Vec<ChunkId>)
        requires
            self.wf(),
        ensures
            r@.len() == self@.entries.len(),
            forall|i: int| 0 <= i < r@.len() ==> (#[trigger] r@[i])@ == self@.entries[i].id,
    {
        &self.chunk_ids
    }

    /// The indexed vectors, in the order of the entries.
    pub fn embeddings(&self) -> (r: &Vec<Vec<T>>)
        requires
            self.wf(),
        ensures
            r@.len() == self@.entries.len(),
            forall|i: int|
                0 <= i < r@.len() ==> (#[trigger] r@[i])@ == self@.entries[i].embedding,
    {
        &self.embeddings
    }

    /// Remove all embeddings whose `file` field matches `file`.
    ///
    /// Uses swap-remove to avoid O(n) shifts; rebuilds both parallel arrays.
    pub fn remove_file(&mut self, file: &str)
        requires
            old(self).wf(),
        ensures
            final(self).wf(),
            final(self)@.dimension == old(self)@.dimension,
            final(self)@.entries == swept(old(self)@.entries, 0, file@, false),
            final(self)@.entries.to_multiset() == others(
                old(self)@.entries,
                file@,
                false,
            ).to_multiset(),
    {
        self.remove_matching(file, false)
    }

    /// Remove all embeddings belonging to a repo.
    ///
    /// Uses [`path_in_repo`] for boundary-safe matching (no `/foo` vs `/foobar`
    /// collision). O(n) swap-remove pass over the parallel arrays.
    pub fn remove_repo(&mut self, repo: &str)
        requires
            old(self).wf(),
        ensures
            final(self).wf(),
            final(self)@.dimension == old(self)@.dimension,
            final(self)@.entries == swept(old(self)@.entries, 0, repo@, true),
            final(self)@.entries.to_multiset() == others(
                old(self)@.entries,
                repo@,
                true,
            ).to_multiset(),
    {
        self.remove_matching(repo, true)
    }

    fn remove_matching(&mut self, target: &str, is_repo: bool)
        requires
            old(self).wf(),
        ensures
            final(self).wf(),
            final(self)@.dimension == old(self)@.dimension,
            final(self)@.entries == swept(old(self)@.entries, 0, target@, is_repo),
            final(self)@.entries.to_multiset() == others(
                old(self)@.entries,
                target@,
                is_repo,
            ).to_multiset(),
    {
        let mut i: usize = 0;
        while i < self.chunk_ids.len()
            invariant
                self.wf(),
                i <= self.chunk_ids.len(),
                self@.dimension == old(self)@.dimension,
                swept(self@.entries, i as int, target@, is_repo) == swept(
                    old(self)@.entries,
                    0,
                    target@,
                    is_repo,
                ),
            decreases self.chunk_ids.len() - i, self.chunk_ids.len(),
        {
            let ghost before = self@.entries;
            let matched = if is_repo {
                path_in_repo(self.chunk_ids[i].file.as_str(), target)
            } else {
                same_text(self.chunk_ids[i].file.as_str(), target)
            };
            if matched {
                let _ = self.chunk_ids.swap_remove(i);
                let _ = self.embeddings.swap_remove(i);
                assert(self@.entries =~= before.update(i as int, before.last()).drop_last());
                // The entry swapped in now stands at i.
            } else {
                i = i + 1;
            }
        }
        proof {
            assert(others(old(self)@.entries.take(0), target@, is_repo) =~= old(
                self,
            )@.entries.take(0));
            lemma_swept_is_others(old(self)@.entries, 0, target@, is_repo);
        }
    }
}

/// The entries of two runs that do not match are those of the one and those of
/// the other.
proof fn lemma_others_concat<T>(
    a: Seq<Entry<T>>,
    b: Seq<Entry<T>>,
    target: Seq<char>,
    is_repo: bool,
)
    ensures
        others(a + b, target, is_repo) == others(a, target, is_repo) + others(b, target, is_repo),
    decreases b.len(),
{
    if b.len() == 0 {
        assert(a + b =~= a);
        assert(others(a, target, is_repo) + others(b, target, is_repo) =~= others(
            a,
            target,
            is_repo,
        ));
    } else {
        lemma_others_concat(a, b.drop_last(), target, is_repo);
        assert((a + b).drop_last() =~= a + b.drop_last());
        assert(others(a + b, target, is_repo) =~= others(a, target, is_repo) + others(
            b,
            target,
            is_repo,
        ));
    }
}

/// Swapping the last entry into the place of one that matches leaves, order
/// aside, the same entries that do not match.
proof fn lemma_swap_keeps_others<T>(
    entries: Seq<Entry<T>>,
    i: int,
    target: Seq<char>,
    is_repo: bool,
)
    requires
        0 <= i < entries.len(),
        matches_target(entries[i].id, target, is_repo),
    ensures
        others(
            entries.update(i, entries.last()).drop_last(),
            target,
            is_repo,
        ).to_multiset() == others(entries, target, is_repo).to_multiset(),
{
    let next = entries.update(i, entries.last()).drop_last();
    if i == entries.len() - 1 {
        assert(next =~= entries.drop_last());
    } else {
        let head = entries.take(i);
        let x = seq![entries[i]];
        let mid = entries.subrange(i + 1, entries.len() - 1);
        let last = seq![entries.last()];
        let oh = others(head, target, is_repo);
        let om = others(mid, target, is_repo);
        let ol = others(last, target, is_repo);
        assert(entries =~= head + x + mid + last);
        assert(next =~= head + last + mid);
        lemma_others_concat(head, x, target, is_repo);
        lemma_others_concat(head + x, mid, target, is_repo);
        lemma_others_concat(head + x + mid, last, target, is_repo);
        lemma_others_concat(head, last, target, is_repo);
        lemma_others_concat(head + last, mid, target, is_repo);
        assert(others(x.drop_last(), target, is_repo) =~= seq![]);
        assert(others(x, target, is_repo) =~= seq![]);
        assert(oh + others(x, target, is_repo) =~= oh);
        lemma_multiset_commutative(oh, om);
        lemma_multiset_commutative(oh + om, ol);
        lemma_multiset_commutative(oh, ol);
        lemma_multiset_commutative(oh + ol, om);
    }
}

/// What the sweep leaves, order aside, are the entries before `i` and those from
/// `i` on that do not match.
proof fn lemma_swept_is_others<T>(
    entries: Seq<Entry<T>>,
    i: int,
    target: Seq<char>,
    is_repo: bool,
)
    requires
        0 <= i <= entries.len(),
        others(entries.take(i), target, is_repo) == entries.take(i),
    ensures
        swept(entries, i, target, is_repo).to_multiset() == others(
            entries,
            target,
            is_repo,
        ).to_multiset(),
    decreases entries.len() - i, entries.len(),
{
    if i < entries.len() {
        if matches_target(entries[i].id, target, is_repo) {
            let next = entries.update(i, entries.last()).drop_last();
            assert(next.take(i) =~= entries.take(i));
            lemma_swept_is_others(next, i, target, is_repo);
            lemma_swap_keeps_others(entries, i, target, is_repo);
        } else {
            assert(entries.take(i + 1).drop_last() =~= entries.take(i));
            assert(entries.take(i + 1) =~= entries.take(i).push(entries[i]));
            lemma_swept_is_others(entries, i + 1, target, is_repo);
        }
    } else {
        assert(entries.take(i) =~= entries);
    }
}

impl<T: Copy> VectorIndex<T> {
    /// Insert a batch of (ChunkId, embedding) pairs.
    ///
    /// The embeddings are normalized already. Zero-length or zero-magnitude vectors
    /// are stored as-is (they will score 0 against everything, which is correct).
    /// The first one with components fixes the dimension; one of another dimension
    /// is skipped.
    pub fn insert(&mut self, chunks: &[(ChunkId, Vec<T>)])
        requires
            old(self).wf(),
        ensures
            final(self).wf(),
            final(self)@ == old(self)@.add_all(entries_of(chunks@)),
    {
        let ghost new = entries_of(chunks@);
        let mut n: usize = 0;
        assert(new.take(0) =~= seq![]);
        while n < chunks.len()
            invariant
                n <= chunks.len(),
                new == entries_of(chunks@),
                self.wf(),
                self@ == old(self)@.add_all(new.take(n as int)),
            decreases chunks.len() - n,
        {
            let ghost before = self@;
            assert(new.take(n + 1).drop_last() =~= new.take(n as int));
            let (id, raw) = &chunks[n];
            assert(new.take(n + 1).last() == (Entry { id: id@, embedding: raw@ }));
            let accepted = match self.dimension {
                None => true,
                Some(d) => raw.len() == 0 || d == raw.len(),
            };
            if accepted {
                if raw.len() > 0 {
                    self.dimension = Some(raw.len());
                }
                self.embeddings.push(copy_vector(raw));
                self.chunk_ids.push(id.clone());
                assert(self@.entries =~= before.entries.push(
                    Entry { id: id@, embedding: raw@ },
                ));
            }
            n = n + 1;
        }
        assert(new.take(n as int) =~= new);
    }
}

/// A stored embedding, as [`embeddings_query`] returns it.
#[derive(Debug)]
pub struct EmbeddingRow<T> {
    pub file: String,
    pub line_start: i64,
    pub line_end: i64,
    pub embedding: Vec<T>,
}

/// The vector that a row stands for.
pub open spec fn entry_of_row<T>(row: EmbeddingRow<T>) -> Entry<T> {
    Entry {
        id: ChunkIdView {
            file: row.file@,
            line_start: row.line_start as u32,
            line_end: row.line_end as u32,
        },
        embedding: row.embedding@,
    }
}

/// The vectors that rows stand for, of those with a non-empty embedding.
pub open spec fn entries_of_rows<T>(rows: Seq<EmbeddingRow<T>>) -> Seq<Entry<T>>
    decreases rows.len(),
{
    if rows.len() == 0 {
        seq![]
    } else if rows.last().embedding@.len() == 0 {
        entries_of_rows(rows.drop_last())
    } else {
        entries_of_rows(rows.drop_last()).push(entry_of_row(rows.last()))
    }
}

/// The statement that reads all embeddings, without the empty ones.
pub fn embeddings_query() -> (r: Statement)
    ensures
        r@ == statement::plain(
            "SELECT file, line_start, line_end, embedding FROM chunk WHERE embedding != []"@,
            "load embeddings from chunk table"@,
        ),
{
    Statement::new(
        "SELECT file, line_start, line_end, embedding FROM chunk WHERE embedding != []",
        "load embeddings from chunk table",
    )
}

impl<T: Copy> VectorIndex<T> {
    /// The index of the embeddings that were stored. Only rows that have a non-empty
    /// embedding vector are loaded; they hold it normalized.
    pub fn load_from_db(rows: &Vec<EmbeddingRow<T>>) -> (r: Self)
        ensures
            r.wf(),
            r@ == (IndexView::<T> { entries: seq![], dimension: None }).add_all(
                entries_of_rows(rows@),
            ),
    {
        let mut pairs: Vec<(ChunkId, Vec<T>)> = Vec::new();
        let mut i: usize = 0;
        assert(entries_of(pairs@) =~= entries_of_rows(rows@.take(0)));
        while i < rows.len()
            invariant
                i <= rows.len(),
                entries_of(pairs@) == entries_of_rows(rows@.take(i as int)),
            decreases rows.len() - i,
        {
            let ghost before = entries_of(pairs@);
            assert(rows@.take(i + 1).drop_last() =~= rows@.take(i as int));
            let row = &rows[i];
            if row.embedding.len() > 0 {
                pairs.push(
                    (
                        ChunkId::from_row(row.file.clone(), row.line_start, row.line_end),
                        copy_vector(&row.embedding),
                    ),
                );
                assert(entries_of(pairs@) =~= before.push(entry_of_row(rows@[i as int])));
            }
            i = i + 1;
        }
        assert(rows@.take(i as int) =~= rows@);
        let mut index = VectorIndex::new();
        index.insert(pairs.as_slice());
        index
    }
}

/// A copy of a vector.
pub fn copy_vector<T: Copy>(v: &Vec<T>) -> (r: Vec<T>)
    ensures
        r@ == v@,
{
    let mut out: Vec<T> = Vec::new();
    let mut i: usize = 0;
    while i < v.len()
        invariant
            i <= v.len(),
            out@ == v@.take(i as int),
        decreases v.len() - i,
    {
        out.push(v[i]);
        i = i + 1;
    }
    out
}

impl<T> VectorIndex<T> {
    /// Merge another `VectorIndex` into this one, consuming it.
    ///
    /// If `self` has no dimension yet, it adopts `other`'s. If both have one and
    /// they differ, the merge is skipped.
    pub fn merge(&mut self, other: VectorIndex<T>)
        requires
            old(self).wf(),
            other.wf(),
        ensures
            final(self).wf(),
            final(self)@ == old(self)@.join(other@),
    {
        let mut other = other;
        if other.is_empty() {
            return;
        }
        match (self.dimension, other.dimension) {
            (None, dim) => {
                self.dimension = dim;
            },
            (Some(a), Some(b)) => {
                if a != b {
                    return;
                }
            },
            _ => {},
        }
        let ghost mine = old(self)@.entries;
        let ghost theirs = other@.entries;
        self.embeddings.append(&mut other.embeddings);
        self.chunk_ids.append(&mut other.chunk_ids);
        assert(self@.entries =~= mine + theirs);
    }
}

impl<T> Default for VectorIndex<T> {
    fn default() -> (r: Self)
        ensures
            r.wf(),
            r@ == (IndexView::<T> { entries: seq![], dimension: None }),
    {
        Self::new()
    }
}

// ─── Search ──────────────────────────────────────────────────────────────

impl<T> VectorIndex<T> {
    /// The top-k most similar chunks, best first, at most `top_k` of them.
    ///
    /// `scores` holds the similarity of the query to each entry, in the order of
    /// the entries; a query without components has no scores. Results are ordered
    /// by it, and report it within [0, 1].
    pub fn search(&self, scores: &Vec<u32>, top_k: usize) -> (r: Vec<SearchResult>)
        requires
            self.wf(),
            scores@.len() == 0 || scores@.len() == self@.entries.len(),
        ensures
            exists|top: Seq<usize>| #[trigger]
                ranking::is_top(scores@, scores@.len() as int, top_k as int, top) && r@.len() == top.len()
                    && forall|i: int|
                    0 <= i < r@.len() ==> (#[trigger] r@[i]).chunk_id@
                        == self@.entries[top[i] as int].id && r@[i].score == ranking::unit_score(
                        scores@[top[i] as int],
                    ),
    {
        let top = top_positions(scores, top_k);
        let mut out: Vec<SearchResult> = Vec::new();
        let mut n: usize = 0;
        while n < top.len()
            invariant
                n <= top.len(),
                self.wf(),
                scores@.len() == 0 || scores@.len() == self@.entries.len(),
                ranking::is_top(scores@, scores@.len() as int, top_k as int, top@),
                out@.len() == n,
                forall|i: int|
                    0 <= i < n ==> (#[trigger] out@[i]).chunk_id@
                        == self@.entries[top@[i] as int].id && out@[i].score
                        == ranking::unit_score(scores@[top@[i] as int]),
            decreases top.len() - n,
        {
            let at: usize = top[n];
            out.push(
                SearchResult {
                    chunk_id: self.chunk_ids[at].clone(),
                    score: to_unit_score(scores[at]),
                },
            );
            n = n + 1;
        }
        out
    }
}

// ─── Laws ────────────────────────────────────────────────────────────────

/// How often an entry is among those that do not match.
proof fn lemma_others_count<T>(
    entries: Seq<Entry<T>>,
    target: Seq<char>,
    is_repo: bool,
    e: Entry<T>,
)
    ensures
        others(entries, target, is_repo).to_multiset().count(e) == if matches_target(
            e.id,
            target,
            is_repo,
        ) {
            0
        } else {
            entries.to_multiset().count(e)
        },
    decreases entries.len(),
{
    broadcast use group_to_multiset_ensures;

    if entries.len() > 0 {
        let front = entries.drop_last();
        lemma_others_count(front, target, is_repo, e);
        assert(entries =~= front.push(entries.last()));
        assert(entries.to_multiset() =~= front.to_multiset().insert(entries.last()));
        let o = others(front, target, is_repo);
        assert(o.push(entries.last()).to_multiset() =~= o.to_multiset().insert(entries.last()));
    } else {
        assert(entries.to_multiset() =~= vstd::multiset::Multiset::empty());
        assert(others(entries, target, is_repo).to_multiset()
            =~= vstd::multiset::Multiset::empty());
    }
}

/// Removing a repository (or a file) removes all that belongs to it and nothing
/// else: `after`, what the index holds then, has no entry that matches, and every
/// other entry as often as before.
pub proof fn law_removal_is_exact<T>(
    before: Seq<Entry<T>>,
    after: Seq<Entry<T>>,
    target: Seq<char>,
    is_repo: bool,
    e: Entry<T>,
)
    requires
        after.to_multiset() == others(before, target, is_repo).to_multiset(),
    ensures
        matches_target(e.id, target, is_repo) ==> !after.contains(e),
        !matches_target(e.id, target, is_repo) ==> after.to_multiset().count(e)
            == before.to_multiset().count(e),
{
    broadcast use group_to_multiset_ensures;

    lemma_others_count(before, target, is_repo, e);
    assert(after.contains(e) <==> after.to_multiset().count(e) > 0);
}

/// What a removal leaves, counted: nothing that matches, and every other entry as
/// often as before.
pub proof fn law_sweep_is_exact<T>(
    entries: Seq<Entry<T>>,
    target: Seq<char>,
    is_repo: bool,
    e: Entry<T>,
)
    ensures
        swept(entries, 0, target, is_repo).to_multiset().count(e) == if matches_target(
            e.id,
            target,
            is_repo,
        ) {
            0
        } else {
            entries.to_multiset().count(e)
        },
{
    assert(others(entries.take(0), target, is_repo) =~= entries.take(0));
    lemma_swept_is_others(entries, 0, target, is_repo);
    lemma_others_count(entries, target, is_repo, e);
}

/// Inserting keeps what is there, in place, and only adds vectors of the batch.
pub proof fn law_insert_only_adds<T>(index: IndexView<T>, new: Seq<Entry<T>>)
    requires
        index.wf(),
    ensures
        index.add_all(new).wf(),
        index.entries.len() <= index.add_all(new).entries.len(),
        index.add_all(new).entries.take(index.entries.len() as int) == index.entries,
        forall|i: int|
            index.entries.len() <= i < index.add_all(new).entries.len() ==> new.contains(
                #[trigger] index.add_all(new).entries[i],
            ),
        index.dimension is Some ==> index.add_all(new).dimension == index.dimension,
    decreases new.len(),
{
    let n = index.entries.len() as int;
    if new.len() == 0 {
        assert(index.entries.take(n) =~= index.entries);
    } else {
        let front = new.drop_last();
        law_insert_only_adds(index, front);
        let mid = index.add_all(front);
        let all = index.add_all(new);
        assert(all.entries.take(n) =~= mid.entries.take(n));
        assert forall|i: int| n <= i < all.entries.len() implies new.contains(
            #[trigger] all.entries[i],
        ) by {
            if i < mid.entries.len() {
                assert(all.entries[i] == mid.entries[i]);
                let j = choose|j: int| 0 <= j < front.len() && front[j] == mid.entries[i];
                assert(new[j] == front[j]);
            } else {
                assert(new[new.len() - 1] == all.entries[i]);
            }
        }
    }
}

/// In an index of their dimension, every vector of a batch is inserted, and so is
/// one without components.
pub proof fn law_insert_takes_fitting_vectors<T>(index: IndexView<T>, new: Seq<Entry<T>>, d: nat)
    requires
        d > 0,
        index.dimension is None || index.dimension == Some(d),
        forall|i: int|
            0 <= i < new.len() ==> (#[trigger] new[i]).embedding.len() == d
                || new[i].embedding.len() == 0,
    ensures
        index.add_all(new).entries == index.entries + new,
        index.add_all(new).dimension is None || index.add_all(new).dimension == Some(d),
        (exists|i: int| 0 <= i < new.len() && (#[trigger] new[i]).embedding.len() > 0)
            ==> index.add_all(new).dimension == Some(d),
    decreases new.len(),
{
    if new.len() == 0 {
        assert(index.entries + new =~= index.entries);
    } else {
        let front = new.drop_last();
        assert forall|i: int| 0 <= i < front.len() implies (#[trigger] front[i]).embedding.len()
            == d || front[i].embedding.len() == 0 by {
            assert(front[i] == new[i]);
        }
        assert(new[new.len() - 1] == new.last());
        law_insert_takes_fitting_vectors(index, front, d);
        assert(index.add_all(new).entries =~= index.entries + new);
        if exists|i: int| 0 <= i < new.len() && (#[trigger] new[i]).embedding.len() > 0 {
            let i = choose|i: int|
                0 <= i < new.len() && (#[trigger] new[i]).embedding.len() > 0;
            if i < front.len() {
                assert(front[i].embedding.len() > 0);
            }
        }
    }
}

/// A vector without components is stored, and leaves the dimension alone.
pub proof fn law_empty_vectors_are_stored<T>(index: IndexView<T>, e: Entry<T>)
    requires
        e.embedding.len() == 0,
    ensures
        index.add_one(e).entries == index.entries.push(e),
        index.add_one(e).dimension == index.dimension,
{
}

/// Two batches one after the other are as good as one batch of both.
pub proof fn law_batches_compose<T>(index: IndexView<T>, a: Seq<Entry<T>>, b: Seq<Entry<T>>)
    ensures
        index.add_all(a + b) == index.add_all(a).add_all(b),
    decreases b.len(),
{
    if b.len() == 0 {
        assert(a + b =~= a);
    } else {
        law_batches_compose(index, a, b.drop_last());
        assert((a + b).drop_last() =~= a + b.drop_last());
    }
}

/// Rebuilding one repository leaves the others alone: when its entries are
/// removed and new ones of its own inserted, an entry outside the repository is
/// held as often as before.
pub proof fn law_rebuild_keeps_other_repos<T>(
    before: IndexView<T>,
    removed: IndexView<T>,
    repo: Seq<char>,
    new: Seq<Entry<T>>,
    e: Entry<T>,
)
    requires
        removed.entries.to_multiset() == others(before.entries, repo, true).to_multiset(),
        forall|i: int| 0 <= i < new.len() ==> crate::in_repo((#[trigger] new[i]).id.file, repo),
        !crate::in_repo(e.id.file, repo),
    ensures
        removed.add_all(new).entries.to_multiset().count(e) == before.entries.to_multiset().count(
            e,
        ),
    decreases new.len(),
{
    broadcast use group_to_multiset_ensures;

    if new.len() == 0 {
        law_removal_is_exact(before.entries, removed.entries, repo, true, e);
    } else {
        let front = new.drop_last();
        assert forall|i: int| 0 <= i < front.len() implies crate::in_repo(
            (#[trigger] front[i]).id.file,
            repo,
        ) by {
            assert(front[i] == new[i]);
        }
        law_rebuild_keeps_other_repos(before, removed, repo, front, e);
        let mid = removed.add_all(front).entries;
        assert(mid.push(new.last()).to_multiset() =~= mid.to_multiset().insert(new.last()));
        assert(crate::in_repo(new[new.len() - 1].id.file, repo));
    }
}

/// What belongs to a file are the chunks of exactly that path; what belongs to a
/// repository are the chunks whose path is the repository's, or goes on behind it
/// with a separator.
pub proof fn law_target_is_a_file_or_a_repo(id: ChunkIdView, target: Seq<char>)
    ensures
        matches_target(id, target, false) <==> id.file == target,
        matches_target(id, target, true) <==> crate::in_repo(id.file, target),
{
}

/// A removal leaves nothing of the file (or the repository), and every other entry
/// with its vector; how many there are of an entry does not change unless it goes.
/// Where nothing belongs to the target, the entries stay as they are, in place.
pub proof fn law_removal_leaves_the_rest<T>(entries: Seq<Entry<T>>, target: Seq<char>, e: Entry<T>)
    ensures
        e.id.file == target ==> !swept(entries, 0, target, false).contains(e),
        e.id.file != target ==> swept(entries, 0, target, false).to_multiset().count(e)
            == entries.to_multiset().count(e),
        crate::in_repo(e.id.file, target) ==> !swept(entries, 0, target, true).contains(e),
        !crate::in_repo(e.id.file, target) ==> swept(entries, 0, target, true).to_multiset().count(
            e,
        ) == entries.to_multiset().count(e),
        (forall|i: int| 0 <= i < entries.len() ==> (#[trigger] entries[i]).id.file != target)
            ==> swept(entries, 0, target, false) == entries,
        (forall|i: int|
            0 <= i < entries.len() ==> !crate::in_repo((#[trigger] entries[i]).id.file, target))
            ==> swept(entries, 0, target, true) == entries,
{
    broadcast use group_to_multiset_ensures;

    law_sweep_is_exact(entries, target, false, e);
    law_sweep_is_exact(entries, target, true, e);
    let a = swept(entries, 0, target, false);
    let b = swept(entries, 0, target, true);
    assert(a.contains(e) <==> a.to_multiset().count(e) > 0);
    assert(b.contains(e) <==> b.to_multiset().count(e) > 0);
    if forall|i: int| 0 <= i < entries.len() ==> (#[trigger] entries[i]).id.file != target {
        lemma_nothing_swept(entries, 0, target, false);
    }
    if forall|i: int|
        0 <= i < entries.len() ==> !crate::in_repo((#[trigger] entries[i]).id.file, target) {
        lemma_nothing_swept(entries, 0, target, true);
    }
}

proof fn lemma_nothing_swept<T>(entries: Seq<Entry<T>>, i: int, target: Seq<char>, is_repo: bool)
    requires
        0 <= i <= entries.len(),
        forall|k: int|
            i <= k < entries.len() ==> !matches_target(
                (#[trigger] entries[k]).id,
                target,
                is_repo,
            ),
    ensures
        swept(entries, i, target, is_repo) == entries,
    decreases entries.len() - i,
{
    if i < entries.len() {
        lemma_nothing_swept(entries, i + 1, target, is_repo);
    }
}

/// One vector handed in is stored behind the others, with its identity and its
/// components as they are, unless it has components and the index has another
/// dimension; then the index stays as it is. The first one with components fixes the
/// dimension.
pub proof fn law_one_vector_is_inserted<T>(index: IndexView<T>, e: Entry<T>)
    ensures
        index.add_all(seq![]) == index,
        e.embedding.len() == 0 ==> index.add_all(seq![e]) == (IndexView {
            entries: index.entries.push(e),
            dimension: index.dimension,
        }),
        e.embedding.len() > 0 && index.dimension is None ==> index.add_all(seq![e]) == (IndexView {
            entries: index.entries.push(e),
            dimension: Some(e.embedding.len()),
        }),
        e.embedding.len() > 0 && index.dimension == Some(e.embedding.len()) ==> index.add_all(
            seq![e],
        ) == (IndexView { entries: index.entries.push(e), dimension: index.dimension }),
        e.embedding.len() > 0 && index.dimension is Some && index.dimension != Some(
            e.embedding.len(),
        ) ==> index.add_all(seq![e]) == index,
{
    assert(seq![e].drop_last() =~= seq![]);
    assert(index.add_all(seq![e].drop_last()) == index);
}

/// Merging puts the entries of the other index behind the own ones; an index without
/// a dimension takes over the other's. Where both have one and they differ, nothing
/// changes.
pub proof fn law_merging<T>(a: IndexView<T>, b: IndexView<T>)
    requires
        a.wf(),
        b.wf(),
    ensures
        a.dimension is None || b.dimension is None || a.dimension == b.dimension ==> a.join(
            b,
        ).entries == a.entries + b.entries,
        a.dimension is Some && b.dimension is Some && a.dimension != b.dimension ==> a.join(b) == a,
        a.dimension is Some ==> a.join(b).dimension == a.dimension,
        a.dimension is None && b.entries.len() > 0 ==> a.join(b).dimension == b.dimension,
        a.dimension is None && b.entries.len() == 0 ==> a.join(b).dimension is None,
        a.join(b).wf(),
{
    let r = a.join(b);
    assert forall|i: int| 0 <= i < r.entries.len() implies (match r.dimension {
        None => (#[trigger] r.entries[i]).embedding.len() == 0,
        Some(d) => r.entries[i].embedding.len() == d || r.entries[i].embedding.len() == 0,
    }) by {
        if i < a.entries.len() {
            assert(r.entries[i] == a.entries[i]);
        } else {
            assert(r.entries[i] == b.entries[i - a.entries.len()]);
        }
    }
}

/// The stored rows are loaded in their order, each with its own path, lines and
/// embedding; only a row without components is left out.
pub proof fn law_rows_are_loaded_in_order<T>(
    a: Seq<EmbeddingRow<T>>,
    b: Seq<EmbeddingRow<T>>,
)
    ensures
        entries_of_rows(a + b) == entries_of_rows(a) + entries_of_rows(b),
        a.len() == 1 && a[0].embedding@.len() == 0 ==> entries_of_rows(a).len() == 0,
        a.len() == 1 && a[0].embedding@.len() > 0 ==> entries_of_rows(a).len() == 1
            && entries_of_rows(a)[0].id.file == a[0].file@ && entries_of_rows(a)[0].embedding
            == a[0].embedding@,
        a.len() == 1 && a[0].embedding@.len() > 0 && 0 <= a[0].line_start <= u32::MAX
            ==> entries_of_rows(a)[0].id.line_start == a[0].line_start,
        a.len() == 1 && a[0].embedding@.len() > 0 && 0 <= a[0].line_end <= u32::MAX
            ==> entries_of_rows(a)[0].id.line_end == a[0].line_end,
    decreases b.len(),
{
    if b.len() == 0 {
        assert(a + b =~= a);
    } else {
        law_rows_are_loaded_in_order(a, b.drop_last());
        assert((a + b).drop_last() =~= a + b.drop_last());
    }
    assert(entries_of_rows(a + b) =~= entries_of_rows(a) + entries_of_rows(b));
    if a.len() == 1 {
        assert(a.drop_last() =~= seq![]);
        assert(entries_of_rows(a.drop_last()) =~= seq![]);
    }
}

/// What a search reports: the identities of the entries with the best scores, and
/// those scores, never a worse one before a better one.
pub proof fn law_search_is_best_first(scores: Seq<u32>, top_k: int, top: Seq<usize>, a: int, b: int)
    requires
        scores.len() <= usize::MAX,
        ranking::is_top(scores, scores.len() as int, top_k, top),
        0 <= a < b < top.len(),
    ensures
        ranking::unit_score(scores[top[a] as int]) >= ranking::unit_score(scores[top[b] as int]),
{
    let x = scores[top[a] as int];
    let y = scores[top[b] as int];
    assert(ranking::ranks_before(scores, top[a] as int, top[b] as int));
}


/// The model of a batch has each vector at its place, with its own identity and
/// components.
pub proof fn law_batch_models<T>(batch: Seq<(ChunkId, Vec<T>)>, i: int)
    requires
        0 <= i < batch.len(),
    ensures
        entries_of(batch).len() == batch.len(),
        entries_of(batch)[i].id.file == batch[i].0.file@,
        entries_of(batch)[i].id.line_start == batch[i].0.line_start,
        entries_of(batch)[i].id.line_end == batch[i].0.line_end,
        entries_of(batch)[i].embedding == batch[i].1@,
{
}

} // verus!
