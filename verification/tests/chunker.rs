use context_engine_rs::parsing::chunker::chunk_file;
use context_engine_rs::parsing::symbols::QualifiedSymbol;
use context_engine_rs::parsing::symbols::Symbol;
use context_engine_rs::parsing::symbols::SymbolKind;

fn make_symbol(file: &str, name: &str, line_start: u32, line_end: u32) -> Symbol {
    Symbol {
        qualified: QualifiedSymbol {
            file: file.to_string(),
            scope_path: vec![],
            name: name.to_string(),
        },
        kind: SymbolKind::Function,
        line_start,
        line_end,
        signature: None,
        parent_fqn: None,
    }
}

fn numbered_lines(n: usize) -> String {
    (1..=n).map(|i| format!("line {i}\n")).collect()
}

/// A sliding window that lands entirely on blank lines must not produce a
/// chunk with empty/whitespace content.
#[test]
fn no_blank_content_chunks_from_blank_line_regions() {
    let mut source = String::from("void foo() {\n    return;\n}\n");
    // 60 blank lines: enough to guarantee a full window of blanks
    for _ in 0..60 {
        source.push('\n');
    }
    source.push_str("int x = 1;\n");

    let chunks = chunk_file("test.cpp", &source, &[]);

    for chunk in &chunks {
        assert!(
            !chunk.content.trim().is_empty(),
            "chunk at lines {}-{} has blank/empty content",
            chunk.line_start,
            chunk.line_end,
        );
    }
    assert_eq!(chunks.len(), 3);
}

/// A completely blank / whitespace-only file must yield an empty chunk vec.
#[test]
fn blank_file_yields_no_chunks() {
    let source = "\n   \n\t\n\n";
    let chunks = chunk_file("empty.cpp", source, &[]);
    assert!(
        chunks.is_empty(),
        "expected no chunks for a blank file, got {}",
        chunks.len()
    );
}

/// A symbol whose body is entirely whitespace must not produce a symbol chunk.
#[test]
fn blank_symbol_body_yields_no_chunk() {
    // Source has a "symbol" on lines 1-3 but the body is all blank lines.
    let source = "\n\n\n";
    let sym = make_symbol("blank_sym.cpp", "blank_fn", 1, 3);
    let chunks = chunk_file("blank_sym.cpp", source, &[sym]);
    assert!(
        chunks.is_empty(),
        "expected no chunks for a symbol with blank body, got {}",
        chunks.len()
    );
}

#[test]
fn windows_of_fifty_lines_every_twenty_five() {
    let chunks = chunk_file("f.rs", &numbered_lines(60), &[]);
    let ranges: Vec<(u32, u32)> = chunks.iter().map(|c| (c.line_start, c.line_end)).collect();
    assert_eq!(ranges, vec![(1, 50), (26, 60), (51, 60)]);
    assert!(chunks[2].content.starts_with("line 51\nline 52"));
    assert!(chunks[2].content.ends_with("line 60"));
    assert_eq!(chunks[2].symbol_ref, None);
}

#[test]
fn symbols_come_first_and_cover_their_lines() {
    let sym = make_symbol("f.rs", "g", 2, 3);
    let chunks = chunk_file("f.rs", "a\nb\nc\nd", &[sym]);
    assert_eq!(chunks.len(), 2);
    assert_eq!(chunks[0].content, "b\nc");
    assert_eq!(chunks[0].symbol_ref, Some("f.rs::g".to_string()));
    assert_eq!((chunks[0].line_start, chunks[0].line_end), (2, 3));
    assert_eq!(chunks[1].content, "a\nb\nc\nd");
    assert_eq!(chunks[1].symbol_ref, None);
}

#[test]
fn a_fully_covered_file_has_no_coverage_chunk() {
    let sym = make_symbol("f.rs", "all", 1, 99);
    let chunks = chunk_file("f.rs", "a\r\nb\n", &[sym]);
    assert_eq!(chunks.len(), 1);
    assert_eq!(chunks[0].content, "a\nb");
    assert_eq!((chunks[0].line_start, chunks[0].line_end), (1, 2));
}

#[test]
fn symbols_outside_the_file_are_passed_over() {
    let beyond = make_symbol("f.rs", "beyond", 9, 12);
    let reversed = make_symbol("f.rs", "reversed", 2, 1);
    let chunks = chunk_file("f.rs", "a\nb", &[beyond, reversed]);
    assert_eq!(chunks.len(), 1);
    assert_eq!(chunks[0].symbol_ref, None);
}

#[test]
fn every_line_is_in_a_chunk() {
    let sym = make_symbol("f.rs", "g", 10, 40);
    let chunks = chunk_file("f.rs", &numbered_lines(137), &[sym]);
    for line in 1..=137u32 {
        assert!(chunks.iter().any(|c| c.line_start <= line && line <= c.line_end));
    }
}

#[test]
fn an_empty_file_has_no_chunks() {
    assert!(chunk_file("f.rs", "", &[]).is_empty());
}
