use context_engine_rs::parsing::chunker::Chunk;
use context_engine_rs::parsing::relations::EdgeKind;
use context_engine_rs::parsing::symbols::QualifiedSymbol;
use context_engine_rs::parsing::symbols::Symbol;
use context_engine_rs::parsing::symbols::SymbolKind;
use context_engine_rs::store::db_path;
use context_engine_rs::store::get_or_open;
use context_engine_rs::store::open_db;
use context_engine_rs::store::ops;
use context_engine_rs::store::sanitize_flagged;
use context_engine_rs::store::sanitize_repo_name;
use context_engine_rs::store::statement::Statement;
use context_engine_rs::store::statement::Value;
use context_engine_rs::store::RepoDbMap;

/// The bound values, written out.
fn binds(s: &Statement) -> Vec<String> {
    s.binds
        .iter()
        .map(|b| match &b.value {
            Value::Text(t) => format!("{}={t}", b.name),
            Value::Int(n) => format!("{}={n}", b.name),
            Value::OptionalText(Some(t)) => format!("{}=some {t}", b.name),
            Value::OptionalText(None) => format!("{}=none", b.name),
            Value::Embedding => format!("{}=embedding", b.name),
        })
        .collect()
}

fn qualified(file: &str, name: &str) -> QualifiedSymbol {
    QualifiedSymbol {
        file: file.to_string(),
        scope_path: vec![],
        name: name.to_string(),
    }
}

/// A call between two symbols, each given by file, name and first line.
fn edge_row(from: (&str, Option<&str>, i64), to: (&str, Option<&str>, i64)) -> ops::EdgeRow {
    let known = |name: Option<&str>, line: i64| name.map(|_| line);
    ops::EdgeRow {
        in_name: from.1.map(|s| s.to_string()),
        in_kind: from.1.map(|_| "function".to_string()),
        in_line_start: known(from.1, from.2),
        in_line_end: known(from.1, from.2 + 1),
        in_file: from.0.to_string(),
        out_name: to.1.map(|s| s.to_string()),
        out_kind: to.1.map(|_| "method".to_string()),
        out_line_start: known(to.1, to.2),
        out_line_end: known(to.1, to.2 + 1),
        out_file: to.0.to_string(),
    }
}

fn ids(graph: &ops::CallGraph) -> Vec<&str> {
    graph.nodes.iter().map(|n| n.id.as_str()).collect()
}

fn ends(graph: &ops::CallGraph) -> Vec<(&str, &str)> {
    graph.edges.iter().map(|e| (e.source.as_str(), e.target.as_str())).collect()
}

#[test]
fn repo_names_are_sanitized() {
    assert_eq!(sanitize_repo_name("/home/me/my-repo.rs/"), "home_me_my_repo_rs");
    assert_eq!(sanitize_repo_name(r"D:\proj\größe"), "D__proj_größe");
    assert_eq!(sanitize_repo_name("///"), "");
    assert_eq!(sanitize_repo_name(&sanitize_repo_name("/a b/c")), "a_b_c");
}

#[test]
fn long_names_keep_their_last_bytes() {
    let path = format!("/{}", "abcdefghij".repeat(10));
    let name = sanitize_repo_name(&path);
    assert_eq!(name.len(), 64);
    assert!(path.ends_with(&name));
    assert_eq!(sanitize_repo_name(&"x".repeat(64)), "x".repeat(64));
    // 40 letters of two bytes: the last 32 of them.
    assert_eq!(sanitize_repo_name(&"é".repeat(40)), "é".repeat(32));
}

#[test]
fn a_cut_moves_to_the_next_character() {
    // 67 bytes; the last 64 start inside a character.
    let path = format!("{}{}", "\u{e9}".repeat(33), "a");
    let name = sanitize_repo_name(&path);
    assert_eq!(name, format!("{}{}", "\u{e9}".repeat(31), "a"));
    assert_eq!(name.len(), 63);
    assert!(name.chars().count() <= 64);
}

#[test]
fn separators_around_a_path_make_no_difference() {
    for p in ["home/me", "a", "", "x//y", "_p_", "C:/x"] {
        assert_eq!(sanitize_repo_name(&format!("/{p}/")), sanitize_repo_name(p));
        assert_eq!(sanitize_repo_name(&format!("\\\\{p}/")), sanitize_repo_name(p));
    }
}

#[test]
fn flags_tell_which_characters_stay() {
    assert_eq!(sanitize_flagged("a.b", &vec![true, false, true]), "a_b");
    assert_eq!(sanitize_flagged("a.b", &vec![true, true, true]), "a.b");
    assert_eq!(sanitize_flagged("abc", &vec![false, true, false]), "b");
    assert_eq!(sanitize_flagged("", &vec![]), "");
}

#[test]
fn data_lies_below_the_home_directory() {
    let home = vec!["/".to_string(), "home".to_string(), "me".to_string()];
    let expected =
        vec!["/", "home", "me", ".vibervn", "context-engine", "surreal", "proj_repo"];
    assert_eq!(db_path(&home, "/proj/repo"), expected);
    assert_eq!(db_path(&vec![], "/proj/repo"), &expected[3..]);
    let location = open_db(&home, "/proj/repo");
    assert_eq!(location.directory, expected);
    assert_eq!(location.namespace, "context_engine");
    assert_eq!(location.database, "proj_repo");
}

#[test]
fn data_never_leaves_the_data_directory() {
    let home = vec!["/home/me".to_string()];
    for p in ["../../etc", "/abs/../x", r"C:\x\..\y", "..", "."] {
        let parts = db_path(&home, p);
        assert_eq!(&parts[..4], &["/home/me", ".vibervn", "context-engine", "surreal"]);
        assert_eq!(parts.len(), 5);
        assert!(!parts[4].contains(['/', '\\', '.', ':']));
    }
    assert_eq!(db_path(&home, "/a/b"), db_path(&home, "a.b"));
}

#[test]
fn a_cached_handle_is_never_replaced() {
    let mut map: RepoDbMap<u32> = RepoDbMap::new();
    assert!(map.get("/a").is_none());
    assert_eq!(get_or_open(&mut map, "/a", 1), None);
    assert_eq!(get_or_open(&mut map, "/a", 2), Some(2));
    assert_eq!(get_or_open(&mut map, "/b", 3), None);
    assert_eq!(map.get("/a"), Some(&1));
    assert_eq!(map.get("/b"), Some(&3));
}

#[test]
fn kinds_have_names() {
    let kinds = [
        (SymbolKind::Function, "function"),
        (SymbolKind::Method, "method"),
        (SymbolKind::Struct, "struct"),
        (SymbolKind::Trait, "trait"),
        (SymbolKind::Impl, "impl"),
        (SymbolKind::Class, "class"),
        (SymbolKind::Module, "module"),
        (SymbolKind::Interface, "interface"),
    ];
    for (kind, name) in &kinds {
        assert_eq!(ops::kind_to_str(kind), *name);
    }
}

#[test]
fn deletions_start_with_the_edges() {
    let file = ops::delete_file_data("/a.rs");
    assert_eq!(file.len(), 8);
    assert_eq!(file[0].sql, "DELETE FROM calls WHERE in_file = $path OR out_file = $path");
    assert_eq!(file[0].context, "delete calls");
    assert_eq!(file[5].sql, "DELETE FROM symbol WHERE file = $path");
    assert_eq!(file[7].sql, "DELETE FROM file_meta WHERE path = $path");
    assert!(file.iter().all(|s| binds(s) == vec!["path=/a.rs"]));
    let all = ops::delete_all_data();
    let sql: Vec<&str> = all.iter().map(|s| s.sql.as_str()).collect();
    assert_eq!(
        sql,
        vec![
            "DELETE FROM calls",
            "DELETE FROM uses",
            "DELETE FROM imports",
            "DELETE FROM contains",
            "DELETE FROM implements",
            "DELETE FROM symbol",
            "DELETE FROM chunk",
            "DELETE FROM file_meta",
        ]
    );
    assert!(all.iter().all(|s| s.binds.is_empty()));
}

#[test]
fn a_symbol_is_bound() {
    let sym = Symbol {
        qualified: qualified("/a.rs", "f"),
        kind: SymbolKind::Trait,
        line_start: 1,
        line_end: 9,
        signature: None,
        parent_fqn: Some("/a.rs::m".to_string()),
    };
    let s = ops::upsert_symbol(&sym);
    assert!(s.sql.starts_with("UPSERT type::thing($id) SET name = $name, kind = $kind, file = $file, "));
    assert_eq!(
        binds(&s),
        vec![
            "id=symbol:⟨/a.rs::f⟩",
            "name=f",
            "kind=trait",
            "file=/a.rs",
            "line_start=1",
            "line_end=9",
            "signature=none",
            "parent=some symbol:⟨/a.rs::m⟩",
        ]
    );
}

#[test]
fn an_edge_is_bound() {
    let from = qualified("/a.rs", "f");
    let to = qualified("/b.rs", "g");
    let calls = ops::insert_edge(&from, &to, &EdgeKind::Calls, 5);
    assert_eq!(
        calls.sql,
        "RELATE type::thing($from)->calls->type::thing($to) \
         SET line = $line, in_file = $in_file, out_file = $out_file"
    );
    assert_eq!(
        binds(&calls),
        vec![
            "from=symbol:⟨/a.rs::f⟩",
            "to=symbol:⟨/b.rs::g⟩",
            "line=5",
            "in_file=/a.rs",
            "out_file=/b.rs",
        ]
    );
    let others = [
        (EdgeKind::Uses, "uses"),
        (EdgeKind::Imports, "imports"),
        (EdgeKind::Contains, "contains"),
        (EdgeKind::Implements, "implements"),
    ];
    for (kind, table) in &others {
        let s = ops::insert_edge(&from, &to, kind, 5);
        assert_eq!(
            s.sql,
            format!(
                "RELATE type::thing($from)->{table}->type::thing($to) \
                 SET in_file = $in_file, out_file = $out_file"
            )
        );
        assert_eq!(s.context, format!("insert {table} edge"));
        assert_eq!(s.binds.len(), 4);
    }
}

#[test]
fn a_chunk_and_metadata_are_bound() {
    let chunk = Chunk {
        file: "/a.rs".to_string(),
        line_start: 3,
        line_end: 4,
        content: "x".to_string(),
        symbol_ref: None,
    };
    assert_eq!(
        binds(&ops::insert_chunk(&chunk)),
        vec![
            "file=/a.rs",
            "line_start=3",
            "line_end=4",
            "content=x",
            "embedding=embedding",
            "symbol_ref=none",
        ]
    );
    let meta = ops::FileMeta {
        path: "/a.rs".to_string(),
        mtime: 7,
        size: 8,
        repo: "/".to_string(),
    };
    let s = ops::upsert_file_meta(&meta);
    assert_eq!(
        s.sql,
        "UPSERT file_meta SET path = $path, mtime = $mtime, size = $size, repo = $repo \
         WHERE path = $path"
    );
    assert_eq!(binds(&s), vec!["path=/a.rs", "mtime=7", "size=8", "repo=/"]);
}

#[test]
fn queries_bind_what_they_ask_for() {
    assert_eq!(
        ops::get_all_file_meta("/r").sql,
        "SELECT path, mtime, size, repo FROM file_meta WHERE repo = $repo"
    );
    assert_eq!(ops::get_meta("k").sql, "SELECT key, value FROM index_meta WHERE key = $key");
    assert_eq!(binds(&ops::set_meta("k", "v")), vec!["key=k", "value=v"]);
    assert_eq!(
        ops::get_symbols_for_file("/a").sql,
        "SELECT file, name FROM symbol WHERE file = $file"
    );
    assert_eq!(
        ops::find_symbol_by_name("f").sql,
        "SELECT file, name FROM symbol WHERE name = $name"
    );
    assert_eq!(
        ops::count_indexed_files("/r").sql,
        "SELECT count() AS count FROM file_meta WHERE repo = $repo GROUP ALL"
    );
    assert_eq!(ops::count_chunks().sql, "SELECT count() AS count FROM chunk GROUP ALL");
    assert_eq!(ops::count_symbols().sql, "SELECT count() AS count FROM symbol GROUP ALL");
    assert_eq!(
        ops::sample_embedding_dim().sql,
        "SELECT array::len(embedding) AS count FROM chunk WHERE embedding != [] LIMIT 1"
    );
    let (metas, groups) = ops::files_page("/r", 20);
    assert_eq!(binds(&metas), vec!["repo=/r", "limit=20"]);
    assert_eq!(groups.sql, "SELECT file, count() AS count FROM chunk GROUP BY file");
    assert_eq!(binds(&ops::chunks_for_file("/a", 5)), vec!["file=/a", "limit=5"]);
    let calls = ops::call_graph(10);
    assert!(calls.sql.starts_with("SELECT in.name AS in_name, in.kind AS in_kind, "));
    assert!(calls.sql.ends_with(" out_file FROM calls LIMIT $limit"));
    assert_eq!(binds(&calls), vec!["limit=11"]);
    assert_eq!(binds(&ops::call_graph(usize::MAX)), vec![format!("limit={}", i64::MAX)]);
}

#[test]
fn the_first_row_counts() {
    assert_eq!(ops::first_count(&vec![]), 0);
    assert_eq!(ops::first_count(&vec![5, 6]), 5);
    assert_eq!(ops::first_count(&vec![-1]), u64::MAX);
    assert_eq!(ops::first_dim(&vec![]), 0);
    assert_eq!(ops::first_dim(&vec![1024]), 1024);
    assert_eq!(ops::first_dim(&vec![-1]), 0);
    let rows = vec![ops::IndexMeta { key: "k".to_string(), value: "v".to_string() }];
    assert_eq!(ops::first_value(&rows), Some("v".to_string()));
    assert_eq!(ops::first_value(&vec![]), None);
}

#[test]
fn rows_become_symbols_without_scopes() {
    let rows = vec![ops::SymbolRow { file: "/a".to_string(), name: "f".to_string() }];
    let symbols = ops::symbols_from_rows(&rows);
    assert_eq!(symbols.len(), 1);
    assert_eq!(symbols[0].fqn(), "/a::f");
    assert!(symbols[0].scope_path.is_empty());
}

#[test]
fn files_are_joined_with_their_counts() {
    let meta = |p: &str| ops::MetaRow { path: p.to_string(), mtime: 1, size: 2 };
    let group = |f: &str, n: i64| ops::GroupRow { file: f.to_string(), count: n };
    let rows = ops::join_file_rows(
        &vec![meta("/a"), meta("/b"), meta("/c")],
        &vec![group("/a", 3), group("/c", -4), group("/a", 5), group("/z", 9)],
    );
    let counts: Vec<(&str, u64)> = rows.iter().map(|r| (r.path.as_str(), r.chunks)).collect();
    assert_eq!(counts, vec![("/a", 5), ("/b", 0), ("/c", 0)]);
    assert_eq!((rows[0].mtime, rows[0].size), (1, 2));
}

#[test]
fn chunk_details_name_their_symbol() {
    let row = |r: Option<&str>, dim: i64| ops::ChunkRow {
        line_start: 1,
        line_end: 2,
        content: "x".to_string(),
        embedding_dim: dim,
        symbol_ref: r.map(|s| s.to_string()),
    };
    let details = ops::chunk_details(&vec![
        row(Some("symbol:⟨/a.rs::m::f⟩"), 1024),
        row(Some("nonsense"), -1),
        row(None, 0),
    ]);
    assert_eq!(details[0].symbol, Some("f".to_string()));
    assert_eq!(details[0].embedding_dim, 1024);
    assert_eq!(details[1].symbol, None);
    assert_eq!(details[1].embedding_dim, 0);
    assert_eq!(details[2].symbol, None);
}

#[test]
fn references_are_stripped_to_the_name() {
    assert_eq!(ops::strip_symbol_ref("symbol:⟨/a.rs::m::f⟩"), Some("f".to_string()));
    assert_eq!(ops::strip_symbol_ref("symbol:⟨f⟩"), Some("f".to_string()));
    assert_eq!(ops::strip_symbol_ref("symbol:⟨a::⟩"), Some(String::new()));
    assert_eq!(ops::strip_symbol_ref("symbol:⟨a:::b⟩"), Some("b".to_string()));
    assert_eq!(ops::strip_symbol_ref("symbol:⟨⟩"), Some(String::new()));
    assert_eq!(ops::strip_symbol_ref("symbol:⟨f"), None);
    assert_eq!(ops::strip_symbol_ref("symbol:⟨"), None);
    assert_eq!(ops::strip_symbol_ref("f⟩"), None);
    let q = qualified("/a.rs", "f");
    assert_eq!(ops::strip_symbol_ref(&q.record_id()), Some("f".to_string()));
}

fn calls() -> Vec<ops::EdgeRow> {
    vec![
        edge_row(("/a", Some("f"), 1), ("/b", Some("h"), 2)),
        edge_row(("/a", None, 0), ("/b", Some("h"), 9)),
        edge_row(("/b", Some("h"), 2), ("/a", Some("g"), 5)),
        edge_row(("/a", Some("f"), 7), ("/c", None, 0)),
    ]
}

#[test]
fn the_call_graph_is_what_the_calls_touch() {
    let graph = ops::build_call_graph(&calls(), 100, 100);
    assert_eq!(ids(&graph), vec!["/a::f", "/b::h", "/a::g"]);
    assert_eq!(graph.nodes[0].line_start, 1);
    assert_eq!(graph.nodes[0].kind, "function");
    assert_eq!(graph.nodes[1].kind, "method");
    assert_eq!((graph.nodes[2].name.as_str(), graph.nodes[2].file.as_str()), ("g", "/a"));
    assert_eq!(ends(&graph), vec![("/a::f", "/b::h"), ("/b::h", "/a::g")]);
    assert!(!graph.truncated);
}

#[test]
fn the_call_graph_is_truncated_only_where_more_exists() {
    // As many calls and symbols as allowed, and no more.
    let full = ops::build_call_graph(&calls(), 4, 3);
    assert!(!full.truncated);
    assert_eq!(ids(&full).len(), 3);
    // One call too many: it is not taken.
    let fewer_calls = ops::build_call_graph(&calls(), 2, 100);
    assert!(fewer_calls.truncated);
    assert_eq!(ids(&fewer_calls), vec!["/a::f", "/b::h"]);
    assert_eq!(ends(&fewer_calls), vec![("/a::f", "/b::h")]);
    // One symbol too many: its edges go with it.
    let fewer_symbols = ops::build_call_graph(&calls(), 100, 2);
    assert!(fewer_symbols.truncated);
    assert_eq!(ids(&fewer_symbols), vec!["/a::f", "/b::h"]);
    assert_eq!(ends(&fewer_symbols), vec![("/a::f", "/b::h")]);
    assert!(ops::build_call_graph(&calls(), 0, 100).nodes.is_empty());
}

#[test]
fn missing_metadata_is_left_empty() {
    let mut row = edge_row(("/a", Some("f"), 1), ("/b", Some("g"), 2));
    row.in_kind = None;
    row.in_line_start = None;
    row.in_line_end = None;
    let graph = ops::build_call_graph(&vec![row], 1, 2);
    assert_eq!(graph.nodes[0].kind, "");
    assert_eq!((graph.nodes[0].line_start, graph.nodes[0].line_end), (0, 0));
}
