use context_engine_rs::embedding::voyage::VoyageClient;
use context_engine_rs::embedding::InputType;
use context_engine_rs::indexing::events::dec_api_calls;
use context_engine_rs::indexing::events::inc_api_calls;
use context_engine_rs::indexing::pipeline::apply_incremental;
use context_engine_rs::indexing::pipeline::apply_rebuild;
use context_engine_rs::indexing::pipeline::apply_run;
use context_engine_rs::indexing::pipeline::collect_parsed;
use context_engine_rs::indexing::pipeline::completed_files;
use context_engine_rs::indexing::pipeline::pair_chunks;
use context_engine_rs::indexing::pipeline::query_all_symbols_from_db;
use context_engine_rs::indexing::pipeline::split_changes;
use context_engine_rs::indexing::pipeline::ChangeKind;
use context_engine_rs::indexing::pipeline::EmbedRun;
use context_engine_rs::indexing::pipeline::FileChange;
use context_engine_rs::indexing::pipeline::IndexPipeline;
use context_engine_rs::indexing::pipeline::IndexPipelineStats;
use context_engine_rs::indexing::pipeline::RunAction;
use context_engine_rs::indexing::pipeline::RunWrite;
use context_engine_rs::parsing::chunker::Chunk;
use context_engine_rs::parsing::relations::EdgeKind;
use context_engine_rs::parsing::relations::EdgeTarget;
use context_engine_rs::parsing::relations::RawEdge;
use context_engine_rs::parsing::symbols::QualifiedSymbol;
use context_engine_rs::parsing::symbols::Symbol;
use context_engine_rs::parsing::symbols::SymbolKind;
use context_engine_rs::parsing::ParseResult;
use context_engine_rs::store::ops::first_count;
use context_engine_rs::vector::ChunkId;
use context_engine_rs::vector::VectorIndex;

fn change(path: &str, kind: ChangeKind) -> FileChange {
    FileChange { path: path.to_string(), kind }
}

fn chunk(file: &str, content: &str) -> Chunk {
    Chunk {
        file: file.to_string(),
        line_start: 1,
        line_end: 2,
        content: content.to_string(),
        symbol_ref: None,
    }
}

fn qualified(file: &str, name: &str) -> QualifiedSymbol {
    QualifiedSymbol {
        file: file.to_string(),
        scope_path: vec![],
        name: name.to_string(),
    }
}

fn parsed_file(file: &str, symbol: &str, calls: &str, contents: &[&str]) -> (String, ParseResult) {
    let result = ParseResult {
        symbols: vec![Symbol {
            qualified: qualified(file, symbol),
            kind: SymbolKind::Function,
            line_start: 1,
            line_end: 2,
            signature: None,
            parent_fqn: None,
        }],
        chunks: contents.iter().map(|c| chunk(file, c)).collect(),
        edges: vec![RawEdge {
            from: qualified(file, symbol),
            to: EdgeTarget::Unresolved { name: calls.to_string() },
            kind: EdgeKind::Calls,
            line: 2,
        }],
    };
    (file.to_string(), result)
}

fn pipeline(with_client: bool) -> IndexPipeline {
    let client = if with_client {
        Some(VoyageClient::new("m".to_string(), vec!["k".to_string()]).unwrap())
    } else {
        None
    };
    IndexPipeline::new("/repo".to_string(), client)
}

#[test]
fn a_first_or_forced_run_rebuilds_everything() {
    let p = pipeline(false);
    assert_eq!(p.repo(), "/repo");
    assert!(p.voyage().is_none());
    assert!(matches!(p.run(0, 5, None, false), RunAction::FullRebuild));
    assert!(matches!(p.run(3, 5, Some(vec![]), true), RunAction::FullRebuild));
}

#[test]
fn an_incremental_run_takes_or_detects_changes() {
    let p = pipeline(true);
    assert!(p.voyage().is_some());
    assert!(matches!(p.run(3, 5, None, false), RunAction::DetectChanges));
    match p.run(3, 5, Some(vec![change("/a", ChangeKind::Added)]), false) {
        RunAction::Incremental(list) => assert_eq!(list[0].path, "/a"),
        _ => panic!("expected an incremental run"),
    }
    let expected = IndexPipelineStats { indexed_files: 3, total_files: 5 };
    match p.run(3, 5, Some(vec![]), false) {
        RunAction::UpToDate(stats) => assert_eq!(stats, expected),
        _ => panic!("expected nothing to do"),
    }
    match p.on_detected(3, 5, vec![]) {
        RunAction::UpToDate(stats) => assert_eq!(stats, expected),
        _ => panic!("expected nothing to do"),
    }
}

#[test]
fn deleted_files_are_purged_first_and_not_processed() {
    let sets = split_changes(&vec![
        change("/a", ChangeKind::Added),
        change("/d", ChangeKind::Deleted),
        change("/m", ChangeKind::Modified),
    ]);
    assert_eq!(sets.to_process, vec!["/a", "/m"]);
    assert_eq!(sets.to_delete, vec!["/d"]);
    assert_eq!(sets.all_affected, vec!["/d", "/a", "/m"]);
}

#[test]
fn parse_results_are_collected_in_order() {
    let parsed = collect_parsed(&vec![
        parsed_file("/a", "f", "g", &["one", "two"]),
        parsed_file("/b", "g", "f", &[]),
    ]);
    let names: Vec<&str> = parsed.symbols.iter().map(|s| s.qualified.name.as_str()).collect();
    assert_eq!(names, vec!["f", "g"]);
    assert_eq!(parsed.edges.len(), 2);
    assert_eq!(parsed.chunks_by_file.len(), 2);
    assert_eq!(parsed.chunks_by_file[0].0, "/a");
    assert_eq!(parsed.chunks_by_file[0].1[1].content, "two");
    assert!(parsed.chunks_by_file[1].1.is_empty());
}

#[test]
fn progress_counts_completed_files() {
    let ends = vec![0, 2, 2, 5];
    let done: Vec<u64> = (0..=5).map(|d| completed_files(&ends, d)).collect();
    assert_eq!(done, vec![1, 1, 3, 3, 3, 4]);
    assert_eq!(completed_files(&vec![], 3), 0);
}

#[test]
fn the_bar_reaches_the_end() {
    let many: Vec<String> = (0..130).map(|i| format!("text {i}")).collect();
    let texts: Vec<&str> = many.iter().map(|s| s.as_str()).collect();
    let parsed = collect_parsed(&vec![
        parsed_file("/a", "f", "g", &texts),
        parsed_file("/b", "g", "f", &["last"]),
    ]);
    let mut run: EmbedRun<u8> = pipeline(true).embed_all_chunks(&parsed.chunks_by_file);
    assert_eq!(run.total_files(), 2);
    assert_eq!(run.processed_at_start(), None);
    assert_eq!(run.texts().len(), 131);
    assert_eq!(run.texts()[130], "last");
    assert_eq!(run.pending(), Some((0, 128)));
    let first = run.pending_batch().unwrap();
    assert_eq!(first.texts.len(), 128);
    assert_eq!(first.texts[127], "text 127");
    assert_eq!(first.input_type, InputType::Document);
    assert_eq!(run.absorb(vec![vec![1u8]; 128]), 0);
    assert_eq!(run.pending(), Some((128, 131)));
    let second = run.pending_batch().unwrap();
    assert_eq!(second.texts, vec!["text 128", "text 129", "last"]);
    assert_eq!(second.input_type, InputType::Document);
    assert_eq!(run.absorb(vec![vec![2u8]; 3]), 2);
    assert_eq!(run.pending(), None);
    assert!(run.pending_batch().is_none());
    let embeddings = run.finish();
    assert_eq!(embeddings.len(), 131);
    assert_eq!(embeddings[127], vec![1]);
    assert_eq!(embeddings[128], vec![2]);
}

#[test]
fn without_a_client_embeddings_are_empty() {
    let parsed = collect_parsed(&vec![parsed_file("/a", "f", "g", &["one", "two"])]);
    let run: EmbedRun<u8> = pipeline(false).embed_all_chunks(&parsed.chunks_by_file);
    assert_eq!(run.processed_at_start(), Some(1));
    assert_eq!(run.pending(), None);
    let none: Vec<Vec<u8>> = vec![vec![], vec![]];
    assert_eq!(run.finish(), none);
}

#[test]
fn nothing_to_embed_completes_at_once() {
    let parsed = collect_parsed(&vec![parsed_file("/a", "f", "g", &[])]);
    let run: EmbedRun<u8> = pipeline(true).embed_all_chunks(&parsed.chunks_by_file);
    assert_eq!(run.processed_at_start(), Some(1));
    assert_eq!(run.pending(), None);
    assert!(run.finish().is_empty());
}

#[test]
fn chunks_and_embeddings_stay_aligned() {
    let parsed = collect_parsed(&vec![
        parsed_file("/a", "f", "g", &["one"]),
        parsed_file("/b", "g", "f", &["two", "three"]),
    ]);
    let pairs = pair_chunks(&parsed.chunks_by_file, &vec![vec![1u8], vec![2]]);
    let found: Vec<(&str, Vec<u8>)> =
        pairs.iter().map(|(id, e)| (id.file.as_str(), e.clone())).collect();
    assert_eq!(found, vec![("/a", vec![1]), ("/b", vec![2]), ("/b", vec![])]);
    assert_eq!((pairs[0].0.line_start, pairs[0].0.line_end), (1, 2));
}

#[test]
fn a_full_rebuild_resolves_among_parsed_symbols() {
    let parsed = collect_parsed(&vec![
        parsed_file("/a", "f", "g", &["one"]),
        parsed_file("/b", "g", "unknown", &[]),
    ]);
    let write = pipeline(false).full_rebuild(
        &parsed,
        &vec![vec![0.5f32]],
        &vec![vec!["0.5".to_string()]],
        &vec![("/a".to_string(), 3, 4)],
    );
    assert!(write.removed_files.is_none());
    let (txn, vectors) = (write.txn, write.vectors);
    assert!(txn.starts_with("BEGIN TRANSACTION;\nDELETE FROM calls;\n"));
    assert!(txn.ends_with(
        "UPSERT file_meta SET path = '/a', mtime = 3, size = 4, repo = '/repo' \
         WHERE path = '/a';\nCOMMIT TRANSACTION;\n"
    ));
    assert_eq!(txn.matches("RELATE").count(), 1);
    assert!(txn.contains("RELATE symbol:`⟨/a::f⟩`->calls->symbol:`⟨/b::g⟩` SET line = 2"));
    assert!(txn.contains("content = 'one', embedding = [0.5]"));
    assert_eq!(vectors.len(), 1);
    assert_eq!(vectors[0].1, vec![0.5]);
}

#[test]
fn an_incremental_run_resolves_among_stored_symbols_too() {
    let sets = split_changes(&vec![
        change("/a", ChangeKind::Modified),
        change("/gone", ChangeKind::Deleted),
    ]);
    let parsed = collect_parsed(&vec![parsed_file("/a", "f", "stored", &["one"])]);
    let write = pipeline(false).incremental_run(
        &sets,
        &parsed,
        &vec![qualified("/old", "stored")],
        &vec![vec![0.5f32]],
        &vec![vec!["0.5".to_string()]],
        &vec![],
    );
    assert_eq!(write.removed_files, Some(vec!["/gone".to_string(), "/a".to_string()]));
    let (txn, vectors) = (write.txn, write.vectors);
    let first_purge = txn.find("DELETE FROM symbol WHERE file = '/gone';").unwrap();
    let second_purge = txn.find("DELETE FROM symbol WHERE file = '/a';").unwrap();
    let upsert = txn.find("UPSERT symbol:`⟨/a::f⟩`").unwrap();
    assert!(first_purge < second_purge && second_purge < upsert);
    assert!(txn.contains("->calls->symbol:`⟨/old::stored⟩`"));
    assert!(txn.ends_with(
        "DELETE FROM file_meta WHERE path = '/gone';\nCOMMIT TRANSACTION;\n"
    ));
    assert_eq!(vectors.len(), 1);
}

fn id(file: &str) -> ChunkId {
    ChunkId { file: file.to_string(), line_start: 1, line_end: 1 }
}

#[test]
fn a_rebuild_replaces_the_entries_of_a_repo() {
    let mut index: VectorIndex<u8> = VectorIndex::new();
    index.insert(&[(id("/repo/a"), vec![1]), (id("/other/b"), vec![2])]);
    apply_rebuild(&mut index, "/repo", &vec![(id("/repo/c"), vec![3])]);
    let files: Vec<&str> = index.chunk_ids().iter().map(|c| c.file.as_str()).collect();
    assert_eq!(files, vec!["/other/b", "/repo/c"]);
}

#[test]
fn an_incremental_run_leaves_nothing_stale() {
    let mut index: VectorIndex<u8> = VectorIndex::new();
    index.insert(&[
        (id("/repo/a"), vec![1]),
        (id("/repo/b"), vec![2]),
        (id("/repo/c"), vec![3]),
        (id("/repo/a"), vec![4]),
    ]);
    apply_incremental(
        &mut index,
        &vec!["/repo/a".to_string(), "/repo/b".to_string()],
        &vec![(id("/repo/a"), vec![9])],
    );
    let files: Vec<&str> = index.chunk_ids().iter().map(|c| c.file.as_str()).collect();
    assert_eq!(files, vec!["/repo/c", "/repo/a"]);
    assert_eq!(index.embeddings(), &vec![vec![3], vec![9]]);
}

#[test]
fn a_run_updates_the_index_by_what_it_wrote() {
    let mut index: VectorIndex<u8> = VectorIndex::new();
    index.insert(&[(id("/repo/a"), vec![1]), (id("/repo/b"), vec![2])]);
    let none: Option<RunWrite<u8>> = None;
    apply_run(&mut index, "/repo", &none);
    assert_eq!(index.embeddings(), &vec![vec![1], vec![2]]);
    let update = RunWrite {
        txn: String::new(),
        removed_files: Some(vec!["/repo/a".to_string()]),
        vectors: vec![(id("/repo/a"), vec![3])],
    };
    apply_run(&mut index, "/repo", &Some(update));
    assert_eq!(index.embeddings(), &vec![vec![2], vec![3]]);
    let rebuild = RunWrite {
        txn: String::new(),
        removed_files: None,
        vectors: vec![(id("/repo/c"), vec![4])],
    };
    apply_run(&mut index, "/repo", &Some(rebuild));
    assert_eq!(index.embeddings(), &vec![vec![4]]);
}

#[test]
fn a_run_returns_the_counts_of_the_store() {
    let stats = pipeline(false).on_written(7, 9);
    assert_eq!(stats, IndexPipelineStats { indexed_files: 7, total_files: 9 });
    assert_eq!(stats.indexed_files, first_count(&vec![7]));
    assert_eq!(pipeline(false).on_written(0, 9).indexed_files, first_count(&vec![]));
}

#[test]
fn all_symbols_are_queried() {
    assert_eq!(query_all_symbols_from_db().sql, "SELECT file, name FROM symbol");
    assert_eq!(query_all_symbols_from_db().context, "query all symbols");
}

#[test]
fn active_calls_are_counted() {
    assert_eq!(inc_api_calls(0), 1);
    assert_eq!(dec_api_calls(inc_api_calls(4)), 4);
    assert_eq!(dec_api_calls(0), 0);
}
