use context_engine_rs::indexing::transaction::append_delete_file_data;
use context_engine_rs::indexing::transaction::append_delete_file_meta;
use context_engine_rs::indexing::transaction::append_insert_chunk;
use context_engine_rs::indexing::transaction::append_insert_edge;
use context_engine_rs::indexing::transaction::append_upsert_file_meta;
use context_engine_rs::indexing::transaction::append_upsert_symbol;
use context_engine_rs::indexing::transaction::check_transaction;
use context_engine_rs::indexing::transaction::escape_surreal;
use context_engine_rs::indexing::transaction::full_rebuild_txn;
use context_engine_rs::indexing::transaction::incremental_txn;
use context_engine_rs::parsing::chunker::Chunk;
use context_engine_rs::parsing::relations::EdgeKind;
use context_engine_rs::parsing::symbols::QualifiedSymbol;
use context_engine_rs::parsing::symbols::Symbol;
use context_engine_rs::parsing::symbols::SymbolKind;

/// The array literal of an embedding.
fn format_embedding(emb: &[f32]) -> String {
    let numerals: Vec<String> = emb.iter().map(|v| format!("{v:?}")).collect();
    context_engine_rs::indexing::transaction::format_embedding(&numerals)
}

fn qualified(file: &str, name: &str) -> QualifiedSymbol {
    QualifiedSymbol {
        file: file.to_string(),
        scope_path: vec![],
        name: name.to_string(),
    }
}

fn chunk(file: &str, content: &str, symbol_ref: Option<&str>) -> Chunk {
    Chunk {
        file: file.to_string(),
        line_start: 1,
        line_end: 2,
        content: content.to_string(),
        symbol_ref: symbol_ref.map(|s| s.to_string()),
    }
}

/// format_embedding must never emit bare integer tokens.
/// A bare integer token is a value with neither '.' nor 'e'/'E'.
#[test]
fn format_embedding_always_emits_float_literals() {
    let cases: &[&[f32]] = &[
        &[0.0, 1.0, -1.0, 0.5],
        &[-0.0, 2.0, -2.0, 100.0],
        &[0.023445, -0.987654, 0.5],
        &[1.0e-7, -1.0e7, f32::MIN_POSITIVE],
    ];
    for input in cases {
        let result = format_embedding(input);
        println!("format_embedding({input:?}) = {result}");
        // Each comma-separated element must contain '.' or 'e'/'E'.
        let inner = result.trim_start_matches('[').trim_end_matches(']');
        for token in inner.split(',') {
            let t = token.trim();
            assert!(
                t.contains('.') || t.contains('e') || t.contains('E'),
                "token {t:?} in {result:?} is not a float literal \
                 (no '.' or 'e'); would be parsed as integer in SurrealQL"
            );
        }
    }
}

/// format_embedding with whole-number floats must produce `0.0`, `1.0` etc.
#[test]
fn whole_number_floats_get_decimal_point() {
    let result = format_embedding(&[0.0, 1.0, -1.0, -0.0]);
    println!("whole-number floats: {result}");
    assert!(result.contains("0.0"), "0.0 must appear as '0.0', got: {result}");
    assert!(result.contains("1.0"), "1.0 must appear as '1.0', got: {result}");
    assert!(result.contains("-1.0"), "-1.0 must appear as '-1.0', got: {result}");
    assert_eq!(result, "[0.0,1.0,-1.0,-0.0]");
}

#[test]
fn an_empty_embedding_is_an_empty_array() {
    assert_eq!(format_embedding(&[]), "[]");
}

#[test]
fn backslashes_and_quotes_are_escaped() {
    assert_eq!(escape_surreal(r"a\b'c"), r"a\\b\'c");
    assert_eq!(escape_surreal("plain"), "plain");
    assert_eq!(escape_surreal(""), "");
}

#[test]
fn escaped_text_cannot_end_its_literal() {
    // Reading the literal back gives the text: a backslash takes the next
    // character as it is, and a bare quote ends the literal.
    let text = r"it's a \ 'test\'";
    let literal = format!("{}'", escape_surreal(text));
    let mut read = String::new();
    let mut chars = literal.chars();
    loop {
        match chars.next() {
            Some('\\') => read.push(chars.next().unwrap()),
            Some('\'') => break,
            Some(c) => read.push(c),
            None => panic!("the literal does not end"),
        }
    }
    assert_eq!(read, text);
    assert_eq!(chars.next(), None);
}

#[test]
fn deleting_a_file_deletes_edges_first() {
    let mut txn = String::new();
    append_delete_file_data(&mut txn, "/it's.rs");
    assert_eq!(
        txn,
        "DELETE FROM calls WHERE in_file = '/it\\'s.rs' OR out_file = '/it\\'s.rs';\n\
         DELETE FROM uses WHERE in_file = '/it\\'s.rs' OR out_file = '/it\\'s.rs';\n\
         DELETE FROM imports WHERE in_file = '/it\\'s.rs' OR out_file = '/it\\'s.rs';\n\
         DELETE FROM contains WHERE in_file = '/it\\'s.rs' OR out_file = '/it\\'s.rs';\n\
         DELETE FROM implements WHERE in_file = '/it\\'s.rs' OR out_file = '/it\\'s.rs';\n\
         DELETE FROM symbol WHERE file = '/it\\'s.rs';\n\
         DELETE FROM chunk WHERE file = '/it\\'s.rs';\n\
         DELETE FROM file_meta WHERE path = '/it\\'s.rs';\n"
    );
    let mut meta = String::new();
    append_delete_file_meta(&mut meta, "/a.rs");
    assert_eq!(meta, "DELETE FROM file_meta WHERE path = '/a.rs';\n");
}

#[test]
fn a_symbol_is_upserted_under_its_qualified_name() {
    let sym = Symbol {
        qualified: QualifiedSymbol {
            file: "/a.rs".to_string(),
            scope_path: vec!["m".to_string(), "S".to_string()],
            name: "f".to_string(),
        },
        kind: SymbolKind::Method,
        line_start: 3,
        line_end: 12,
        signature: Some("fn f(c: 'a)".to_string()),
        parent_fqn: Some("/a.rs::m::S".to_string()),
    };
    let mut txn = String::from("x");
    append_upsert_symbol(&mut txn, &sym);
    assert_eq!(
        txn,
        "xUPSERT symbol:`⟨/a.rs::m::S::f⟩` SET name = 'f', kind = 'method', file = '/a.rs', \
         line_start = 3, line_end = 12, signature = 'fn f(c: \\'a)', \
         parent = 'symbol:⟨/a.rs::m::S⟩';\n"
    );
}

#[test]
fn only_a_call_has_a_line() {
    let from = qualified("/a.rs", "f");
    let to = qualified("/b.rs", "g");
    let mut calls = String::new();
    append_insert_edge(&mut calls, &from, &to, &EdgeKind::Calls, 7);
    assert_eq!(
        calls,
        "RELATE symbol:`⟨/a.rs::f⟩`->calls->symbol:`⟨/b.rs::g⟩` \
         SET line = 7, in_file = '/a.rs', out_file = '/b.rs';\n"
    );
    let mut uses = String::new();
    append_insert_edge(&mut uses, &from, &to, &EdgeKind::Implements, 7);
    assert_eq!(
        uses,
        "RELATE symbol:`⟨/a.rs::f⟩`->implements->symbol:`⟨/b.rs::g⟩` \
         SET in_file = '/a.rs', out_file = '/b.rs';\n"
    );
}

#[test]
fn a_chunk_is_created_with_its_embedding() {
    let mut txn = String::new();
    append_insert_chunk(&mut txn, &chunk("/a.rs", "let x = 'c';", Some("/a.rs::f")), "[0.5]");
    assert_eq!(
        txn,
        "CREATE chunk SET file = '/a.rs', line_start = 1, line_end = 2, \
         content = 'let x = \\'c\\';', embedding = [0.5], symbol_ref = 'symbol:⟨/a.rs::f⟩';\n"
    );
}

#[test]
fn file_metadata_is_upserted_by_path() {
    let mut txn = String::new();
    append_upsert_file_meta(&mut txn, "/a.rs", -5, 1024, "/");
    assert_eq!(
        txn,
        "UPSERT file_meta SET path = '/a.rs', mtime = -5, size = 1024, repo = '/' \
         WHERE path = '/a.rs';\n"
    );
}

#[test]
fn a_full_rebuild_is_one_transaction() {
    let chunks = vec![(
        "/a.rs".to_string(),
        vec![chunk("/a.rs", "a", None), chunk("/a.rs", "b", None)],
    )];
    let txn = full_rebuild_txn(
        &vec![],
        &vec![],
        &chunks,
        &vec!["[1.0]".to_string()],
        &vec![("/a.rs".to_string(), 1, 2)],
        "/",
    );
    assert_eq!(
        txn,
        "BEGIN TRANSACTION;\nDELETE FROM calls;\nDELETE FROM uses;\nDELETE FROM imports;\n\
         DELETE FROM contains;\nDELETE FROM implements;\nDELETE FROM symbol;\nDELETE FROM chunk;\n\
         DELETE FROM file_meta;\n\
         CREATE chunk SET file = '/a.rs', line_start = 1, line_end = 2, content = 'a', \
         embedding = [1.0], symbol_ref = NONE;\n\
         CREATE chunk SET file = '/a.rs', line_start = 1, line_end = 2, content = 'b', \
         embedding = [], symbol_ref = NONE;\n\
         UPSERT file_meta SET path = '/a.rs', mtime = 1, size = 2, repo = '/' WHERE path = '/a.rs';\n\
         COMMIT TRANSACTION;\n"
    );
}

#[test]
fn an_incremental_run_is_one_transaction() {
    let txn = incremental_txn(
        &vec!["/gone.rs".to_string()],
        &vec![],
        &vec![],
        &vec![],
        &vec![],
        &vec![],
        "/",
        &vec!["/gone.rs".to_string()],
    );
    assert!(txn.starts_with("BEGIN TRANSACTION;\nDELETE FROM calls WHERE in_file = '/gone.rs'"));
    assert!(txn.ends_with(
        "DELETE FROM file_meta WHERE path = '/gone.rs';\nCOMMIT TRANSACTION;\n"
    ));
    assert_eq!(txn.matches("DELETE FROM file_meta").count(), 2);
}

#[test]
fn a_clean_transaction_passes() {
    assert_eq!(check_transaction(&vec![]), Ok(()));
}

#[test]
fn the_culprit_is_reported_past_the_cascade() {
    let generic = "The query was not executed due to a failed transaction".to_string();
    let errors = vec![
        (0usize, generic.clone()),
        (12, "late".to_string()),
        (4, "Found 'x' for field".to_string()),
        (1, generic),
    ];
    assert_eq!(
        check_transaction(&errors),
        Err("transaction rolled back — statement #4 failed: Found 'x' for field".to_string())
    );
}

#[test]
fn a_mere_cascade_reports_the_lowest_statement() {
    let generic = "The query was not executed due to a failed transaction";
    let errors = vec![(9usize, generic.to_string()), (3, format!("{generic}!"))];
    assert_eq!(
        check_transaction(&errors),
        Err(format!("transaction rolled back — statement #3: {generic}!"))
    );
}
