use context_engine_rs::indexing::edges::build_symbol_index;
use context_engine_rs::indexing::edges::resolve_edges;
use context_engine_rs::parsing::relations::EdgeKind;
use context_engine_rs::parsing::relations::EdgeTarget;
use context_engine_rs::parsing::relations::RawEdge;
use context_engine_rs::parsing::symbols::QualifiedSymbol;
use context_engine_rs::parsing::symbols::Symbol;
use context_engine_rs::parsing::symbols::SymbolKind;

fn qualified(file: &str, name: &str) -> QualifiedSymbol {
    QualifiedSymbol {
        file: file.to_string(),
        scope_path: vec![],
        name: name.to_string(),
    }
}

fn symbol(file: &str, name: &str) -> Symbol {
    Symbol {
        qualified: qualified(file, name),
        kind: SymbolKind::Function,
        line_start: 1,
        line_end: 1,
        signature: None,
        parent_fqn: None,
    }
}

fn call(file: &str, name: &str) -> RawEdge {
    RawEdge {
        from: qualified(file, "caller"),
        to: EdgeTarget::Unresolved { name: name.to_string() },
        kind: EdgeKind::Calls,
        line: 3,
    }
}

#[test]
fn symbols_of_a_name_keep_their_order() {
    let index = build_symbol_index(&[symbol("/a", "f"), symbol("/b", "g"), symbol("/c", "f")]);
    let files: Vec<&str> = index.get("f").unwrap().iter().map(|q| q.file.as_str()).collect();
    assert_eq!(files, vec!["/a", "/c"]);
    assert!(index.get("h").is_none());
}

#[test]
fn a_name_in_the_same_file_is_preferred() {
    let index = build_symbol_index(&[symbol("/a", "f"), symbol("/b", "f")]);
    let resolved = resolve_edges(&[call("/b", "f"), call("/x", "f")], &index);
    assert_eq!(resolved.len(), 2);
    assert_eq!(resolved[0].1.file, "/b");
    assert_eq!(resolved[1].1.file, "/a");
    assert_eq!(resolved[0].3, 3);
}

#[test]
fn unknown_names_are_dropped_and_known_targets_kept() {
    let index = build_symbol_index(&[]);
    let known = RawEdge {
        from: qualified("/a", "f"),
        to: EdgeTarget::Resolved(qualified("/z", "g")),
        kind: EdgeKind::Uses,
        line: 9,
    };
    let resolved = resolve_edges(&[call("/a", "nowhere"), known], &index);
    assert_eq!(resolved.len(), 1);
    assert_eq!(resolved[0].1.fqn(), "/z::g");
    assert_eq!(resolved[0].2, EdgeKind::Uses);
}

#[test]
fn stored_symbols_come_behind_parsed_ones() {
    let mut index = build_symbol_index(&[symbol("/new", "f")]);
    index.add_all(&[qualified("/old", "f"), qualified("/old", "g")]);
    let resolved = resolve_edges(&[call("/x", "f"), call("/x", "g")], &index);
    assert_eq!(resolved[0].1.file, "/new");
    assert_eq!(resolved[1].1.file, "/old");
}

#[test]
fn record_ids_wrap_the_qualified_name() {
    let q = QualifiedSymbol {
        file: "/a.rs".to_string(),
        scope_path: vec!["m".to_string()],
        name: "f".to_string(),
    };
    assert_eq!(q.record_id(), "symbol:⟨/a.rs::m::f⟩");
}
