use context_engine_rs::path_in_repo;
use context_engine_rs::vector::embeddings_query;
use context_engine_rs::vector::ranking::score_rank;
use context_engine_rs::vector::ranking::top_positions;
use context_engine_rs::vector::ChunkId;
use context_engine_rs::vector::EmbeddingRow;
use context_engine_rs::vector::VectorIndex;

/// A ChunkId for a given file and line range.
fn chunk(file: &str, start: u32, end: u32) -> ChunkId {
    ChunkId {
        file: file.to_string(),
        line_start: start,
        line_end: end,
    }
}

/// A simple non-zero embedding of the given dimension.
fn emb(dim: usize, seed: f32) -> Vec<f32> {
    (0..dim).map(|i| seed + i as f32 * 0.1).collect()
}

fn files(index: &VectorIndex<f32>) -> Vec<String> {
    index.chunk_ids().iter().map(|c| c.file.clone()).collect()
}

fn bits(scores: &[f32]) -> Vec<u32> {
    scores.iter().map(|s| s.to_bits()).collect()
}

#[test]
fn remove_repo_no_prefix_collision() {
    // Two repos where one path PREFIXES the other:
    // /foo and /foobar: removing /foo must NOT evict /foobar entries.
    let mut index = VectorIndex::new();

    let foo_chunks: Vec<(ChunkId, Vec<f32>)> = vec![
        (chunk("/foo/a.rs", 1, 10), emb(4, 1.0)),
        (chunk("/foo/b.rs", 1, 5), emb(4, 2.0)),
    ];
    let foobar_chunks: Vec<(ChunkId, Vec<f32>)> = vec![
        (chunk("/foobar/c.rs", 1, 20), emb(4, 3.0)),
        (chunk("/foobar/d.rs", 5, 15), emb(4, 4.0)),
    ];

    index.insert(&foo_chunks);
    index.insert(&foobar_chunks);
    assert_eq!(index.len(), 4);

    // Remove /foo: only /foo entries should be evicted.
    index.remove_repo("/foo");
    assert_eq!(index.len(), 2);

    // Verify the remaining entries all belong to /foobar.
    for cid in index.chunk_ids() {
        assert!(
            cid.file.starts_with("/foobar/"),
            "unexpected file after remove_repo: {}",
            cid.file
        );
    }
}

#[test]
fn remove_repo_windows_paths_no_collision() {
    // Windows variant: D:\proj\foo vs D:\proj\foobar
    let mut index = VectorIndex::new();

    let foo_chunks: Vec<(ChunkId, Vec<f32>)> = vec![
        (chunk(r"D:\proj\foo\x.rs", 1, 10), emb(4, 1.0)),
    ];
    let foobar_chunks: Vec<(ChunkId, Vec<f32>)> = vec![
        (chunk(r"D:\proj\foobar\y.rs", 1, 10), emb(4, 2.0)),
    ];

    index.insert(&foo_chunks);
    index.insert(&foobar_chunks);
    assert_eq!(index.len(), 2);

    index.remove_repo(r"D:\proj\foo");
    assert_eq!(index.len(), 1);
    assert_eq!(index.chunk_ids()[0].file, r"D:\proj\foobar\y.rs");
}

#[test]
fn full_rebuild_one_repo_preserves_other() {
    // Index has repo A + repo B vectors.
    // Full rebuild of A: remove_repo(A) then insert(new A vectors).
    // B is untouched and A is refreshed.
    let mut index = VectorIndex::new();

    let repo_a_old: Vec<(ChunkId, Vec<f32>)> = vec![
        (chunk("/repo_a/old1.rs", 1, 10), emb(4, 1.0)),
        (chunk("/repo_a/old2.rs", 5, 20), emb(4, 2.0)),
    ];
    let repo_b: Vec<(ChunkId, Vec<f32>)> = vec![
        (chunk("/repo_b/file1.rs", 1, 5), emb(4, 3.0)),
        (chunk("/repo_b/file2.rs", 10, 30), emb(4, 4.0)),
        (chunk("/repo_b/file3.rs", 1, 100), emb(4, 5.0)),
    ];

    index.insert(&repo_a_old);
    index.insert(&repo_b);
    assert_eq!(index.len(), 5);

    // Full rebuild of repo A.
    index.remove_repo("/repo_a");
    assert_eq!(index.len(), 3); // Only B remains.

    let repo_a_new: Vec<(ChunkId, Vec<f32>)> = vec![
        (chunk("/repo_a/new1.rs", 1, 15), emb(4, 6.0)),
        (chunk("/repo_a/new2.rs", 1, 8), emb(4, 7.0)),
        (chunk("/repo_a/new3.rs", 1, 50), emb(4, 8.0)),
    ];
    index.insert(&repo_a_new);
    assert_eq!(index.len(), 6); // 3 B + 3 new A

    // Verify B is untouched.
    let b_files: Vec<&str> = index
        .chunk_ids()
        .iter()
        .filter(|c| path_in_repo(&c.file, "/repo_b"))
        .map(|c| c.file.as_str())
        .collect();
    assert_eq!(b_files.len(), 3);
    assert!(b_files.contains(&"/repo_b/file1.rs"));
    assert!(b_files.contains(&"/repo_b/file2.rs"));
    assert!(b_files.contains(&"/repo_b/file3.rs"));

    // Verify A is refreshed.
    let a_files: Vec<&str> = index
        .chunk_ids()
        .iter()
        .filter(|c| path_in_repo(&c.file, "/repo_a"))
        .map(|c| c.file.as_str())
        .collect();
    assert_eq!(a_files.len(), 3);
    assert!(a_files.contains(&"/repo_a/new1.rs"));
    assert!(a_files.contains(&"/repo_a/new2.rs"));
    assert!(a_files.contains(&"/repo_a/new3.rs"));
}

#[test]
fn merge_combines_two_indexes() {
    let mut a = VectorIndex::new();
    a.insert(&[(chunk("/a/f.rs", 1, 10), emb(4, 1.0))]);

    let mut b = VectorIndex::new();
    b.insert(&[(chunk("/b/g.rs", 1, 5), emb(4, 2.0))]);

    a.merge(b);
    assert_eq!(a.len(), 2);
}

#[test]
fn merge_dimension_mismatch_skips() {
    let mut a = VectorIndex::new();
    a.insert(&[(chunk("/a/f.rs", 1, 10), emb(4, 1.0))]);

    let mut b = VectorIndex::new();
    b.insert(&[(chunk("/b/g.rs", 1, 5), emb(8, 2.0))]);

    a.merge(b);
    // Merge skipped: a should still have only 1 entry.
    assert_eq!(a.len(), 1);
}

#[test]
fn remove_repo_with_trailing_sep() {
    let mut index = VectorIndex::new();
    index.insert(&[(chunk("/repo/file.rs", 1, 10), emb(4, 1.0))]);
    assert_eq!(index.len(), 1);

    // Repo path with trailing slash: should still match.
    index.remove_repo("/repo/");
    assert_eq!(index.len(), 0);
}

#[test]
fn merge_into_an_empty_index_adopts_the_dimension() {
    let mut a: VectorIndex<f32> = VectorIndex::default();
    let mut b = VectorIndex::new();
    b.insert(&[(chunk("/b/g.rs", 1, 5), emb(3, 2.0))]);
    a.merge(b);
    assert_eq!(a.len(), 1);
    a.insert(&[(chunk("/b/h.rs", 1, 5), emb(4, 2.0))]);
    assert_eq!(a.len(), 1);
    a.merge(VectorIndex::new());
    assert_eq!(files(&a), vec!["/b/g.rs"]);
}

#[test]
fn insert_stores_empty_vectors_and_skips_misfitting_ones() {
    let mut index = VectorIndex::new();
    index.insert(&[(chunk("/a.rs", 1, 1), vec![])]);
    assert_eq!(index.len(), 1);
    index.insert(&[
        (chunk("b", 1, 1), vec![1.0f32, 0.0]),
        (chunk("c", 1, 1), vec![1.0]),
        (chunk("d", 1, 1), vec![]),
        (chunk("e", 1, 1), vec![0.0, 0.0]),
    ]);
    assert_eq!(files(&index), vec!["/a.rs", "b", "d", "e"]);
    assert_eq!(index.embeddings()[3], vec![0.0, 0.0]);
}

#[test]
fn empty_vectors_fix_no_dimension_in_a_merge() {
    let mut a: VectorIndex<f32> = VectorIndex::new();
    a.insert(&[(chunk("a", 1, 1), vec![])]);
    let mut b = VectorIndex::new();
    b.insert(&[(chunk("b", 1, 1), vec![1.0f32])]);
    a.merge(b);
    assert_eq!(a.len(), 2);
    let mut c: VectorIndex<f32> = VectorIndex::new();
    c.insert(&[(chunk("c", 1, 1), vec![])]);
    a.merge(c);
    assert_eq!(files(&a), vec!["a", "b", "c"]);
    a.insert(&[(chunk("d", 1, 1), vec![1.0, 2.0])]);
    assert_eq!(a.len(), 3);
}

#[test]
fn two_batches_are_as_good_as_one() {
    let mut one = VectorIndex::new();
    one.insert(&[
        (chunk("a", 1, 1), vec![1.0f32]),
        (chunk("b", 1, 1), vec![2.0]),
    ]);
    let mut two = VectorIndex::new();
    two.insert(&[(chunk("a", 1, 1), vec![1.0f32])]);
    two.insert(&[(chunk("b", 1, 1), vec![2.0])]);
    assert_eq!(files(&one), files(&two));
    assert_eq!(one.embeddings(), two.embeddings());
}

#[test]
fn remove_file_puts_the_last_entry_in_the_gap() {
    let mut index = VectorIndex::new();
    index.insert(&[
        (chunk("a", 1, 1), vec![1.0f32]),
        (chunk("b", 1, 1), vec![2.0]),
        (chunk("a", 2, 2), vec![3.0]),
        (chunk("c", 1, 1), vec![4.0]),
        (chunk("d", 1, 1), vec![5.0]),
    ]);
    index.remove_file("a");
    assert_eq!(files(&index), vec!["d", "b", "c"]);
    assert_eq!(index.embeddings(), &vec![vec![5.0], vec![2.0], vec![4.0]]);
}

#[test]
fn clear_forgets_the_dimension() {
    let mut index = VectorIndex::new();
    index.insert(&[(chunk("a", 1, 1), vec![1.0f32])]);
    index.clear();
    assert!(index.is_empty());
    index.insert(&[(chunk("a", 1, 1), vec![1.0, 2.0])]);
    assert_eq!(index.len(), 1);
}

#[test]
fn search_returns_the_best_first() {
    let mut index = VectorIndex::new();
    index.insert(&[
        (chunk("low", 1, 1), vec![0.1f32]),
        (chunk("high", 2, 3), vec![0.9]),
        (chunk("mid", 1, 1), vec![0.5]),
        (chunk("negative", 1, 1), vec![-0.9]),
    ]);
    let found = index.search(&bits(&[0.1, 0.9, 0.5, -0.9]), 3);
    let names: Vec<&str> = found.iter().map(|r| r.chunk_id.file.as_str()).collect();
    assert_eq!(names, vec!["high", "mid", "low"]);
    assert_eq!(f32::from_bits(found[0].score), 0.9);
    assert_eq!(found[0].chunk_id.line_end, 3);
    assert!(index.search(&bits(&[0.1, 0.9, 0.5, -0.9]), 0).is_empty());
    assert!(index.search(&vec![], 3).is_empty());
    assert_eq!(index.search(&bits(&[0.1, 0.9, 0.5, -0.9]), 10).len(), 4);
}

#[test]
fn reported_scores_lie_between_zero_and_one() {
    let mut index = VectorIndex::new();
    let id = |n: &str| (chunk(n, 1, 1), vec![1.0f32]);
    index.insert(&[id("low"), id("lower"), id("over"), id("none"), id("half")]);
    let found = index.search(&bits(&[-0.25, -0.5, 1.0000001, f32::NAN, 0.5]), 5);
    let scores: Vec<(&str, f32)> =
        found.iter().map(|r| (r.chunk_id.file.as_str(), f32::from_bits(r.score))).collect();
    assert_eq!(
        scores,
        vec![("over", 1.0), ("half", 0.5), ("low", 0.0), ("lower", 0.0), ("none", 0.0)]
    );
}

#[test]
fn scores_rank_as_floats_do() {
    let ascending = [-1.0f32, -0.5, -0.0, 0.25, 0.5, 1.0];
    for pair in ascending.windows(2) {
        assert!(score_rank(pair[0].to_bits()) < score_rank(pair[1].to_bits()));
    }
    assert_eq!(score_rank((-0.0f32).to_bits()), score_rank(0.0f32.to_bits()));
}

#[test]
fn equal_scores_keep_their_order() {
    assert_eq!(top_positions(&bits(&[0.5, 0.7, 0.5, 0.7]), 3), vec![1, 3, 0]);
}

#[test]
fn stored_line_numbers_keep_their_low_half() {
    let id = ChunkId::from_row("f".to_string(), 4294967297, -1);
    assert_eq!(id.line_start, 1);
    assert_eq!(id.line_end, u32::MAX);
}

#[test]
fn stored_embeddings_are_loaded() {
    let rows = vec![
        EmbeddingRow { file: "a".to_string(), line_start: 1, line_end: 2, embedding: vec![1.0f32] },
        EmbeddingRow { file: "b".to_string(), line_start: 3, line_end: 4, embedding: vec![] },
    ];
    let index = VectorIndex::load_from_db(&rows);
    assert_eq!(index.len(), 1);
    assert_eq!(index.chunk_ids()[0].line_end, 2);
    assert_eq!(
        embeddings_query().sql,
        "SELECT file, line_start, line_end, embedding FROM chunk WHERE embedding != []"
    );
}

#[test]
fn a_repo_ends_at_a_boundary() {
    assert!(path_in_repo("/foo", "/foo"));
    assert!(path_in_repo("/foo/a.rs", "/foo"));
    assert!(path_in_repo("/foo/a.rs", "/foo/"));
    assert!(path_in_repo(r"D:\p\a.rs", r"D:\p"));
    assert!(!path_in_repo("/foobar/a.rs", "/foo"));
    assert!(!path_in_repo("/fo", "/foo"));
}
