//! The text of the transactions that write an index.

use vstd::prelude::*;
use vstd::string::*;

use crate::parsing::chunker;
use crate::parsing::chunker::Chunk;
use crate::parsing::chunker::ChunkView;
use crate::parsing::relations::EdgeKind;
use crate::parsing::symbols;
use crate::parsing::symbols::QualifiedSymbol;
use crate::parsing::symbols::QualifiedSymbolView;
use crate::parsing::symbols::Symbol;
use crate::parsing::symbols::SymbolView;
use crate::store::ops;
use crate::store::ops::kind_to_str;
use crate::text;
use crate::text::join_range;
use crate::text::push_decimal;
use crate::text::push_signed;

verus! {

// ─── SurrealQL literals ──────────────────────────────────────────────────

/// A character as it is written between single quotes.
pub open spec fn escape_char(c: char) -> Seq<char> {
    if c == '\\' {
        seq!['\\', '\\']
    } else if c == '\'' {
        seq!['\\', '\'']
    } else {
        seq![c]
    }
}

/// A text as it is written between single quotes.
pub open spec fn escape(s: Seq<char>) -> Seq<char>
    decreases s.len(),
{
    if s.len() == 0 {
        seq![]
    } else {
        escape(s.drop_last()) + escape_char(s.last())
    }
}

/// Escape a string for safe embedding in a SurrealQL single-quoted literal:
/// backslashes and single quotes get a backslash before them.
pub fn escape_surreal(s: &str) -> (r: String)
    ensures
        r@ == escape(s@),
{
    let mut out = String::new();
    for c in it: s.chars()
        invariant
            it.seq() == s@,
            out@ == escape(s@.take(it.index() as int)),
    {
        let ghost i = it.index() as int;
        let ghost before = out@;
        assert(s@.take(i + 1).drop_last() =~= s@.take(i));
        if c == '\\' {
            out.push('\\');
            out.push('\\');
        } else if c == '\'' {
            out.push('\\');
            out.push('\'');
        } else {
            out.push(c);
        }
        assert(out@ =~= before + escape_char(c));
    }
    assert(s@.take(s@.len() as int) =~= s@);
    out
}

/// What stands before the closing quote of a single-quoted literal, and what
/// follows that quote; `t` is what follows the opening one. A backslash stands
/// for the backslash or quote after it.
pub open spec fn read_literal(t: Seq<char>) -> Option<(Seq<char>, Seq<char>)>
    decreases t.len(),
{
    if t.len() == 0 {
        None
    } else if t[0] == '\'' {
        Some((seq![], t.skip(1)))
    } else if t[0] == '\\' {
        if t.len() >= 2 && (t[1] == '\\' || t[1] == '\'') {
            match read_literal(t.skip(2)) {
                Some((body, rest)) => Some((seq![t[1]] + body, rest)),
                None => None,
            }
        } else {
            None
        }
    } else {
        match read_literal(t.skip(1)) {
            Some((body, rest)) => Some((seq![t[0]] + body, rest)),
            None => None,
        }
    }
}

proof fn lemma_escape_first(s: Seq<char>)
    requires
        s.len() > 0,
    ensures
        escape(s) == escape_char(s[0]) + escape(s.drop_first()),
    decreases s.len(),
{
    if s.len() == 1 {
        assert(s.drop_last() =~= seq![]);
        assert(s.drop_first() =~= seq![]);
        assert(escape(s.drop_last()) =~= seq![]);
        assert(escape(s.drop_first()) =~= seq![]);
        assert(escape(s) =~= escape_char(s[0]) + escape(s.drop_first()));
    } else {
        lemma_escape_first(s.drop_last());
        assert(s.drop_last().drop_first() =~= s.drop_first().drop_last());
        assert(escape(s) =~= escape_char(s[0]) + escape(s.drop_first()));
    }
}

/// An escaped text between single quotes is a literal for exactly that text: it
/// ends at the quote put behind it, not before, and reads back as the text.
pub proof fn law_escaped_text_reads_back(s: Seq<char>, rest: Seq<char>)
    ensures
        read_literal(escape(s) + seq!['\''] + rest) == Some((s, rest)),
    decreases s.len(),
{
    let t = escape(s) + seq!['\''] + rest;
    if s.len() == 0 {
        assert(t.skip(1) =~= rest);
        assert(s =~= seq![]);
    } else {
        let tail = escape(s.drop_first()) + seq!['\''] + rest;
        lemma_escape_first(s);
        law_escaped_text_reads_back(s.drop_first(), rest);
        let head = escape_char(s[0]);
        assert(t =~= head + tail);
        assert(t.skip(head.len() as int) =~= tail);
        assert(seq![s[0]] + s.drop_first() =~= s);
        assert(t[0] == head[0]);
        if head.len() == 2 {
            assert(t[1] == head[1]);
        }
    }
}

/// Format an embedding as a SurrealQL array literal: `[0.1,0.2,...]`. The
/// components come as numerals.
pub fn format_embedding(emb: &Vec<String>) -> (r: String)
    ensures
        r@ == embedding_literal(text::texts(emb@)),
{
    let mut out = "[".to_owned();
    out.append(join_range(emb, 0, emb.len(), ",").as_str());
    assert(text::texts(emb@).subrange(0, emb@.len() as int) =~= text::texts(emb@));
    out.append("]");
    out
}

/// The array literal with the given components.
pub open spec fn embedding_literal(components: Seq<Seq<char>>) -> Seq<char> {
    "["@ + text::join(components, ","@) + "]"@
}

/// A literal for an optional text, `NONE` if there is none.
pub open spec fn optional_literal(s: Option<Seq<char>>) -> Seq<char> {
    match s {
        Some(t) => "'"@ + escape(t) + "'"@,
        None => "NONE"@,
    }
}

/// A literal for an optional reference to a symbol, `NONE` if there is none.
pub open spec fn reference_literal(fqn: Option<Seq<char>>) -> Seq<char> {
    match fqn {
        Some(t) => "'symbol:⟨"@ + escape(t) + "⟩'"@,
        None => "NONE"@,
    }
}

fn optional_text(s: &Option<String>) -> (r: String)
    ensures
        r@ == optional_literal(text::text_opt(*s)),
{
    match s {
        Some(t) => {
            let mut out = "'".to_owned();
            out.append(escape_surreal(t.as_str()).as_str());
            out.append("'");
            out
        },
        None => "NONE".to_owned(),
    }
}

fn reference_text(fqn: &Option<String>) -> (r: String)
    ensures
        r@ == reference_literal(text::text_opt(*fqn)),
{
    match fqn {
        Some(t) => {
            let mut out = "'symbol:⟨".to_owned();
            out.append(escape_surreal(t.as_str()).as_str());
            out.append("⟩'");
            out
        },
        None => "NONE".to_owned(),
    }
}

// ─── Statements ──────────────────────────────────────────────────────────

/// Deletes the edges of one table that start or end in a file.
pub open spec fn delete_edges_of(table: Seq<char>, file: Seq<char>) -> Seq<char> {
    "DELETE FROM "@ + table + " WHERE in_file = '"@ + escape(file) + "' OR out_file = '"@ + escape(
        file,
    ) + "';\n"@
}

/// Deletes everything that belongs to a file: its edges first, then its symbols,
/// its chunks and its metadata.
pub open spec fn delete_file_text(file: Seq<char>) -> Seq<char> {
    delete_edges_of("calls"@, file) + delete_edges_of("uses"@, file) + delete_edges_of(
        "imports"@,
        file,
    ) + delete_edges_of("contains"@, file) + delete_edges_of("implements"@, file)
        + ("DELETE FROM symbol WHERE file = '"@ + escape(file) + "';\n"@) + (
    "DELETE FROM chunk WHERE file = '"@ + escape(file) + "';\n"@) + delete_meta_text(file)
}

/// Deletes the metadata of a file.
pub open spec fn delete_meta_text(file: Seq<char>) -> Seq<char> {
    "DELETE FROM file_meta WHERE path = '"@ + escape(file) + "';\n"@
}

fn delete_edges(table: &str, escaped: &str, Ghost(file): Ghost<Seq<char>>) -> (r: String)
    requires
        escaped@ == escape(file),
    ensures
        r@ == delete_edges_of(table@, file),
{
    let mut out = "DELETE FROM ".to_owned();
    out.append(table);
    out.append(" WHERE in_file = '");
    out.append(escaped);
    out.append("' OR out_file = '");
    out.append(escaped);
    out.append("';\n");
    out
}

fn delete_where(start: &str, escaped: &str) -> (r: String)
    ensures
        r@ == start@ + escaped@ + "';\n"@,
{
    let mut out = start.to_owned();
    out.append(escaped);
    out.append("';\n");
    out
}

/// Append DELETE statements for all data owned by `file`.
pub fn append_delete_file_data(txn: &mut String, file: &str)
    ensures
        final(txn)@ == old(txn)@ + delete_file_text(file@),
{
    let f = escape_surreal(file);
    let mut out = delete_edges("calls", f.as_str(), Ghost(file@));
    out.append(delete_edges("uses", f.as_str(), Ghost(file@)).as_str());
    out.append(delete_edges("imports", f.as_str(), Ghost(file@)).as_str());
    out.append(delete_edges("contains", f.as_str(), Ghost(file@)).as_str());
    out.append(delete_edges("implements", f.as_str(), Ghost(file@)).as_str());
    out.append(delete_where("DELETE FROM symbol WHERE file = '", f.as_str()).as_str());
    out.append(delete_where("DELETE FROM chunk WHERE file = '", f.as_str()).as_str());
    out.append(delete_where("DELETE FROM file_meta WHERE path = '", f.as_str()).as_str());
    txn.append(out.as_str());
}

/// Append a DELETE statement for the metadata of `file`.
pub fn append_delete_file_meta(txn: &mut String, file: &str)
    ensures
        final(txn)@ == old(txn)@ + delete_meta_text(file@),
{
    let f = escape_surreal(file);
    txn.append(delete_where("DELETE FROM file_meta WHERE path = '", f.as_str()).as_str());
}

/// Writes a symbol under its qualified name.
pub open spec fn upsert_symbol_text(sym: SymbolView) -> Seq<char> {
    "UPSERT symbol:`⟨"@ + escape(sym.qualified.fqn()) + "⟩` SET name = '"@ + escape(
        sym.qualified.name,
    ) + "', kind = '"@ + ops::kind_name(sym.kind) + "', file = '"@ + escape(sym.qualified.file)
        + "', line_start = "@ + text::decimal(sym.line_start as nat) + ", line_end = "@
        + text::decimal(sym.line_end as nat) + ", signature = "@ + optional_literal(sym.signature)
        + ", parent = "@ + reference_literal(sym.parent_fqn) + ";\n"@
}

/// Append an UPSERT statement for `sym`.
pub fn append_upsert_symbol(txn: &mut String, sym: &Symbol)
    ensures
        final(txn)@ == old(txn)@ + upsert_symbol_text(sym@),
{
    let mut out = "UPSERT symbol:`⟨".to_owned();
    out.append(escape_surreal(sym.qualified.fqn().as_str()).as_str());
    out.append("⟩` SET name = '");
    out.append(escape_surreal(sym.qualified.name.as_str()).as_str());
    out.append("', kind = '");
    out.append(kind_to_str(&sym.kind));
    out.append("', file = '");
    out.append(escape_surreal(sym.qualified.file.as_str()).as_str());
    out.append("', line_start = ");
    push_decimal(&mut out, sym.line_start as u64);
    out.append(", line_end = ");
    push_decimal(&mut out, sym.line_end as u64);
    out.append(", signature = ");
    out.append(optional_text(&sym.signature).as_str());
    out.append(", parent = ");
    out.append(reference_text(&sym.parent_fqn).as_str());
    out.append(";\n");
    txn.append(out.as_str());
}

/// The table that holds the edges of a kind.
pub open spec fn edge_table(kind: EdgeKind) -> Seq<char> {
    match kind {
        EdgeKind::Calls => "calls"@,
        EdgeKind::Uses => "uses"@,
        EdgeKind::Imports => "imports"@,
        EdgeKind::Contains => "contains"@,
        EdgeKind::Implements => "implements"@,
    }
}

/// The table that holds the edges of a kind.
pub fn table_name(kind: &EdgeKind) -> (r: &'static str)
    ensures
        r@ == edge_table(*kind),
{
    match kind {
        EdgeKind::Calls => "calls",
        EdgeKind::Uses => "uses",
        EdgeKind::Imports => "imports",
        EdgeKind::Contains => "contains",
        EdgeKind::Implements => "implements",
    }
}

/// Relates two symbols. A call also carries its line.
pub open spec fn insert_edge_text(
    from: QualifiedSymbolView,
    to: QualifiedSymbolView,
    kind: EdgeKind,
    line: u32,
) -> Seq<char> {
    let start = "RELATE symbol:`⟨"@ + escape(from.fqn()) + "⟩`->"@ + edge_table(kind)
        + "->symbol:`⟨"@ + escape(to.fqn()) + "⟩` SET "@;
    let line_part = if kind is Calls {
        start + "line = "@ + text::decimal(line as nat) + ", "@
    } else {
        start
    };
    line_part + "in_file = '"@ + escape(from.file) + "', out_file = '"@ + escape(to.file) + "';\n"@
}

/// Append a RELATE statement for an edge.
pub fn append_insert_edge(
    txn: &mut String,
    from: &QualifiedSymbol,
    to: &QualifiedSymbol,
    kind: &EdgeKind,
    line: u32,
)
    ensures
        final(txn)@ == old(txn)@ + insert_edge_text(from@, to@, *kind, line),
{
    let mut out = "RELATE symbol:`⟨".to_owned();
    out.append(escape_surreal(from.fqn().as_str()).as_str());
    out.append("⟩`->");
    out.append(table_name(kind));
    out.append("->symbol:`⟨");
    out.append(escape_surreal(to.fqn().as_str()).as_str());
    out.append("⟩` SET ");
    match kind {
        EdgeKind::Calls => {
            out.append("line = ");
            push_decimal(&mut out, line as u64);
            out.append(", ");
        },
        _ => {},
    }
    out.append("in_file = '");
    out.append(escape_surreal(from.file.as_str()).as_str());
    out.append("', out_file = '");
    out.append(escape_surreal(to.file.as_str()).as_str());
    out.append("';\n");
    txn.append(out.as_str());
}

/// Creates a chunk with its embedding, which comes as an array literal.
pub open spec fn insert_chunk_text(chunk: ChunkView, embedding: Seq<char>) -> Seq<char> {
    "CREATE chunk SET file = '"@ + escape(chunk.file) + "', line_start = "@ + text::decimal(
        chunk.line_start as nat,
    ) + ", line_end = "@ + text::decimal(chunk.line_end as nat) + ", content = '"@ + escape(
        chunk.content,
    ) + "', embedding = "@ + embedding + ", symbol_ref = "@ + reference_literal(chunk.symbol_ref)
        + ";\n"@
}

/// Append a CREATE chunk statement; `embedding` is an array literal.
pub fn append_insert_chunk(txn: &mut String, chunk: &Chunk, embedding: &str)
    ensures
        final(txn)@ == old(txn)@ + insert_chunk_text(chunk@, embedding@),
{
    let mut out = "CREATE chunk SET file = '".to_owned();
    out.append(escape_surreal(chunk.file.as_str()).as_str());
    out.append("', line_start = ");
    push_decimal(&mut out, chunk.line_start as u64);
    out.append(", line_end = ");
    push_decimal(&mut out, chunk.line_end as u64);
    out.append(", content = '");
    out.append(escape_surreal(chunk.content.as_str()).as_str());
    out.append("', embedding = ");
    out.append(embedding);
    out.append(", symbol_ref = ");
    out.append(reference_text(&chunk.symbol_ref).as_str());
    out.append(";\n");
    txn.append(out.as_str());
}

/// Writes the metadata of a file.
pub open spec fn upsert_meta_text(path: Seq<char>, mtime: i64, size: i64, repo: Seq<char>) -> Seq<
    char,
> {
    "UPSERT file_meta SET path = '"@ + escape(path) + "', mtime = "@ + text::signed_decimal(
        mtime as int,
    ) + ", size = "@ + text::signed_decimal(size as int) + ", repo = '"@ + escape(repo)
        + "' WHERE path = '"@ + escape(path) + "';\n"@
}

/// Append an UPSERT file_meta statement.
pub fn append_upsert_file_meta(txn: &mut String, path: &str, mtime: i64, size: i64, repo: &str)
    ensures
        final(txn)@ == old(txn)@ + upsert_meta_text(path@, mtime, size, repo@),
{
    let p = escape_surreal(path);
    let mut out = "UPSERT file_meta SET path = '".to_owned();
    out.append(p.as_str());
    out.append("', mtime = ");
    push_signed(&mut out, mtime);
    out.append(", size = ");
    push_signed(&mut out, size);
    out.append(", repo = '");
    out.append(escape_surreal(repo).as_str());
    out.append("' WHERE path = '");
    out.append(p.as_str());
    out.append("';\n");
    txn.append(out.as_str());
}

// ─── Transactions ────────────────────────────────────────────────────────

/// An edge between two known symbols.
#[verifier::ext_equal]
pub struct ResolvedEdgeView {
    pub from: QualifiedSymbolView,
    pub to: QualifiedSymbolView,
    pub kind: EdgeKind,
    pub line: u32,
}

/// The models of a sequence of resolved edges.
pub open spec fn resolved_views(
    s: Seq<(QualifiedSymbol, QualifiedSymbol, EdgeKind, u32)>,
) -> Seq<ResolvedEdgeView> {
    Seq::new(
        s.len(),
        |i: int| ResolvedEdgeView { from: s[i].0@, to: s[i].1@, kind: s[i].2, line: s[i].3 },
    )
}

/// The models of a sequence of paths with modification time and size.
pub open spec fn stat_views(s: Seq<(String, i64, i64)>) -> Seq<(Seq<char>, i64, i64)> {
    Seq::new(s.len(), |i: int| (s[i].0@, s[i].1, s[i].2))
}

/// The chunks of all files, one file after the other.
pub open spec fn flat_chunks(by_file: Seq<(String, Vec<Chunk>)>) -> Seq<ChunkView>
    decreases by_file.len(),
{
    if by_file.len() == 0 {
        seq![]
    } else {
        flat_chunks(by_file.drop_last()) + chunker::chunk_views(by_file.last().1@)
    }
}

/// The statements that delete everything that belongs to the files.
pub open spec fn delete_files_text(files: Seq<Seq<char>>) -> Seq<char>
    decreases files.len(),
{
    if files.len() == 0 {
        seq![]
    } else {
        delete_files_text(files.drop_last()) + delete_file_text(files.last())
    }
}

/// The statements that delete the metadata of the files.
pub open spec fn delete_metas_text(files: Seq<Seq<char>>) -> Seq<char>
    decreases files.len(),
{
    if files.len() == 0 {
        seq![]
    } else {
        delete_metas_text(files.drop_last()) + delete_meta_text(files.last())
    }
}

/// The statements that write the symbols.
pub open spec fn upsert_symbols_text(syms: Seq<SymbolView>) -> Seq<char>
    decreases syms.len(),
{
    if syms.len() == 0 {
        seq![]
    } else {
        upsert_symbols_text(syms.drop_last()) + upsert_symbol_text(syms.last())
    }
}

/// The statements that write the edges.
pub open spec fn insert_edges_text(edges: Seq<ResolvedEdgeView>) -> Seq<char>
    decreases edges.len(),
{
    if edges.len() == 0 {
        seq![]
    } else {
        let e = edges.last();
        insert_edges_text(edges.drop_last()) + insert_edge_text(e.from, e.to, e.kind, e.line)
    }
}

/// The embedding of the chunk with the number `k`: the literal of that number, or
/// an empty embedding if there are fewer.
pub open spec fn literal_of(literals: Seq<Seq<char>>, k: int) -> Seq<char> {
    if k < literals.len() {
        literals[k]
    } else {
        embedding_literal(seq![])
    }
}

/// The statements that write the chunks, each with the embedding of its number.
pub open spec fn insert_chunks_text(chunks: Seq<ChunkView>, literals: Seq<Seq<char>>) -> Seq<char>
    decreases chunks.len(),
{
    if chunks.len() == 0 {
        seq![]
    } else {
        insert_chunks_text(chunks.drop_last(), literals) + insert_chunk_text(
            chunks.last(),
            literal_of(literals, chunks.len() - 1),
        )
    }
}

/// The statements that write the files' metadata.
pub open spec fn upsert_metas_text(stats: Seq<(Seq<char>, i64, i64)>, repo: Seq<char>) -> Seq<char>
    decreases stats.len(),
{
    if stats.len() == 0 {
        seq![]
    } else {
        let (path, mtime, size) = stats.last();
        upsert_metas_text(stats.drop_last(), repo) + upsert_meta_text(path, mtime, size, repo)
    }
}

/// The statements that delete everything, edges first.
pub open spec fn delete_all_text() -> Seq<char> {
    "DELETE FROM calls;\nDELETE FROM uses;\nDELETE FROM imports;\nDELETE FROM contains;\nDELETE FROM implements;\nDELETE FROM symbol;\nDELETE FROM chunk;\nDELETE FROM file_meta;\n"@
}

/// The transaction of a full rebuild: everything is deleted, then the symbols,
/// the edges, the chunks and the files' metadata are written.
pub open spec fn full_rebuild_text(
    syms: Seq<SymbolView>,
    edges: Seq<ResolvedEdgeView>,
    chunks: Seq<ChunkView>,
    literals: Seq<Seq<char>>,
    stats: Seq<(Seq<char>, i64, i64)>,
    repo: Seq<char>,
) -> Seq<char> {
    "BEGIN TRANSACTION;\n"@ + delete_all_text() + upsert_symbols_text(syms) + insert_edges_text(
        edges,
    ) + insert_chunks_text(chunks, literals) + upsert_metas_text(stats, repo)
        + "COMMIT TRANSACTION;\n"@
}

/// The transaction of an incremental run: everything of the affected files is
/// deleted, then the new symbols, edges, chunks and metadata are written, and the
/// metadata of the deleted files is deleted.
pub open spec fn incremental_text(
    affected: Seq<Seq<char>>,
    syms: Seq<SymbolView>,
    edges: Seq<ResolvedEdgeView>,
    chunks: Seq<ChunkView>,
    literals: Seq<Seq<char>>,
    stats: Seq<(Seq<char>, i64, i64)>,
    repo: Seq<char>,
    deleted: Seq<Seq<char>>,
) -> Seq<char> {
    "BEGIN TRANSACTION;\n"@ + delete_files_text(affected) + upsert_symbols_text(syms)
        + insert_edges_text(edges) + insert_chunks_text(chunks, literals) + upsert_metas_text(
        stats,
        repo,
    ) + delete_metas_text(deleted) + "COMMIT TRANSACTION;\n"@
}

fn append_delete_files(txn: &mut String, files: &Vec<String>)
    ensures
        final(txn)@ == old(txn)@ + delete_files_text(text::texts(files@)),
{
    let ghost views = text::texts(files@);
    let mut i: usize = 0;
    assert(txn@ + delete_files_text(views.take(0)) =~= txn@);
    while i < files.len()
        invariant
            i <= files.len(),
            views == text::texts(files@),
            txn@ == old(txn)@ + delete_files_text(views.take(i as int)),
        decreases files.len() - i,
    {
        append_delete_file_data(txn, files[i].as_str());
        assert(views.take(i + 1).drop_last() =~= views.take(i as int));
        assert(txn@ =~= old(txn)@ + delete_files_text(views.take(i + 1)));
        i = i + 1;
    }
    assert(views.take(i as int) =~= views);
}

fn append_delete_metas(txn: &mut String, files: &Vec<String>)
    ensures
        final(txn)@ == old(txn)@ + delete_metas_text(text::texts(files@)),
{
    let ghost views = text::texts(files@);
    let mut i: usize = 0;
    assert(txn@ + delete_metas_text(views.take(0)) =~= txn@);
    while i < files.len()
        invariant
            i <= files.len(),
            views == text::texts(files@),
            txn@ == old(txn)@ + delete_metas_text(views.take(i as int)),
        decreases files.len() - i,
    {
        append_delete_file_meta(txn, files[i].as_str());
        assert(views.take(i + 1).drop_last() =~= views.take(i as int));
        assert(txn@ =~= old(txn)@ + delete_metas_text(views.take(i + 1)));
        i = i + 1;
    }
    assert(views.take(i as int) =~= views);
}

fn append_symbols(txn: &mut String, syms: &Vec<Symbol>)
    ensures
        final(txn)@ == old(txn)@ + upsert_symbols_text(symbols::symbol_views(syms@)),
{
    let ghost views = symbols::symbol_views(syms@);
    let mut i: usize = 0;
    assert(txn@ + upsert_symbols_text(views.take(0)) =~= txn@);
    while i < syms.len()
        invariant
            i <= syms.len(),
            views == symbols::symbol_views(syms@),
            txn@ == old(txn)@ + upsert_symbols_text(views.take(i as int)),
        decreases syms.len() - i,
    {
        append_upsert_symbol(txn, &syms[i]);
        assert(views.take(i + 1).drop_last() =~= views.take(i as int));
        assert(txn@ =~= old(txn)@ + upsert_symbols_text(views.take(i + 1)));
        i = i + 1;
    }
    assert(views.take(i as int) =~= views);
}

fn append_edges(
    txn: &mut String,
    edges: &Vec<(QualifiedSymbol, QualifiedSymbol, EdgeKind, u32)>,
)
    ensures
        final(txn)@ == old(txn)@ + insert_edges_text(resolved_views(edges@)),
{
    let ghost views = resolved_views(edges@);
    let mut i: usize = 0;
    assert(txn@ + insert_edges_text(views.take(0)) =~= txn@);
    while i < edges.len()
        invariant
            i <= edges.len(),
            views == resolved_views(edges@),
            txn@ == old(txn)@ + insert_edges_text(views.take(i as int)),
        decreases edges.len() - i,
    {
        let (from, to, kind, line) = &edges[i];
        append_insert_edge(txn, from, to, kind, *line);
        assert(views.take(i + 1).drop_last() =~= views.take(i as int));
        assert(txn@ =~= old(txn)@ + insert_edges_text(views.take(i + 1)));
        i = i + 1;
    }
    assert(views.take(i as int) =~= views);
}

fn append_chunks(txn: &mut String, by_file: &Vec<(String, Vec<Chunk>)>, literals: &Vec<String>)
    ensures
        final(txn)@ == old(txn)@ + insert_chunks_text(
            flat_chunks(by_file@),
            text::texts(literals@),
        ),
{
    let ghost lits = text::texts(literals@);
    // The number of the next chunk, as long as there is a literal for it.
    let mut k: usize = 0;
    let mut f: usize = 0;
    assert(txn@ + insert_chunks_text(flat_chunks(by_file@.take(0)), lits) =~= txn@);
    while f < by_file.len()
        invariant
            f <= by_file.len(),
            lits == text::texts(literals@),
            k == (if flat_chunks(by_file@.take(f as int)).len() < lits.len() {
                flat_chunks(by_file@.take(f as int)).len()
            } else {
                lits.len()
            }),
            txn@ == old(txn)@ + insert_chunks_text(flat_chunks(by_file@.take(f as int)), lits),
        decreases by_file.len() - f,
    {
        let chunks = &by_file[f].1;
        let ghost before = flat_chunks(by_file@.take(f as int));
        let ghost views = chunker::chunk_views(chunks@);
        let mut i: usize = 0;
        assert(before + views.take(0) =~= before);
        while i < chunks.len()
            invariant
                i <= chunks.len(),
                lits == text::texts(literals@),
                views == chunker::chunk_views(chunks@),
                k == (if before.len() + i < lits.len() {
                    before.len() + i
                } else {
                    lits.len() as int
                }),
                txn@ == old(txn)@ + insert_chunks_text(before + views.take(i as int), lits),
            decreases chunks.len() - i,
        {
            let ghost all = before + views.take(i + 1);
            assert(all.drop_last() =~= before + views.take(i as int));
            assert(all.last() == chunks@[i as int]@);
            if k < literals.len() {
                append_insert_chunk(txn, &chunks[i], literals[k].as_str());
                k = k + 1;
            } else {
                let none: Vec<String> = Vec::new();
                assert(text::texts(none@) =~= seq![]);
                append_insert_chunk(txn, &chunks[i], format_embedding(&none).as_str());
            }
            assert(txn@ =~= old(txn)@ + insert_chunks_text(all, lits));
            i = i + 1;
        }
        assert(views.take(i as int) =~= views);
        assert(by_file@.take(f + 1).drop_last() =~= by_file@.take(f as int));
        f = f + 1;
    }
    assert(by_file@.take(f as int) =~= by_file@);
}

fn append_metas(txn: &mut String, stats: &Vec<(String, i64, i64)>, repo: &str)
    ensures
        final(txn)@ == old(txn)@ + upsert_metas_text(stat_views(stats@), repo@),
{
    let ghost views = stat_views(stats@);
    let mut i: usize = 0;
    assert(txn@ + upsert_metas_text(views.take(0), repo@) =~= txn@);
    while i < stats.len()
        invariant
            i <= stats.len(),
            views == stat_views(stats@),
            txn@ == old(txn)@ + upsert_metas_text(views.take(i as int), repo@),
        decreases stats.len() - i,
    {
        let (path, mtime, size) = &stats[i];
        append_upsert_file_meta(txn, path.as_str(), *mtime, *size, repo);
        assert(views.take(i + 1).drop_last() =~= views.take(i as int));
        assert(txn@ =~= old(txn)@ + upsert_metas_text(views.take(i + 1), repo@));
        i = i + 1;
    }
    assert(views.take(i as int) =~= views);
}

/// The transaction of a full rebuild. `literals` are the chunks' embeddings as
/// array literals, in the order of the chunks; a chunk beyond them gets an empty
/// one.
pub fn full_rebuild_txn(
    syms: &Vec<Symbol>,
    edges: &Vec<(QualifiedSymbol, QualifiedSymbol, EdgeKind, u32)>,
    chunks_by_file: &Vec<(String, Vec<Chunk>)>,
    literals: &Vec<String>,
    file_stats: &Vec<(String, i64, i64)>,
    repo: &str,
) -> (r: String)
    ensures
        r@ == full_rebuild_text(
            symbols::symbol_views(syms@),
            resolved_views(edges@),
            flat_chunks(chunks_by_file@),
            text::texts(literals@),
            stat_views(file_stats@),
            repo@,
        ),
{
    let mut txn = "BEGIN TRANSACTION;\n".to_owned();
    txn.append("DELETE FROM calls;\nDELETE FROM uses;\nDELETE FROM imports;\nDELETE FROM contains;\nDELETE FROM implements;\nDELETE FROM symbol;\nDELETE FROM chunk;\nDELETE FROM file_meta;\n");
    append_symbols(&mut txn, syms);
    append_edges(&mut txn, edges);
    append_chunks(&mut txn, chunks_by_file, literals);
    append_metas(&mut txn, file_stats, repo);
    txn.append("COMMIT TRANSACTION;\n");
    txn
}

/// The transaction of an incremental run. `literals` are the chunks' embeddings
/// as array literals, in the order of the chunks; a chunk beyond them gets an
/// empty one.
pub fn incremental_txn(
    affected: &Vec<String>,
    syms: &Vec<Symbol>,
    edges: &Vec<(QualifiedSymbol, QualifiedSymbol, EdgeKind, u32)>,
    chunks_by_file: &Vec<(String, Vec<Chunk>)>,
    literals: &Vec<String>,
    file_stats: &Vec<(String, i64, i64)>,
    repo: &str,
    deleted: &Vec<String>,
) -> (r: String)
    ensures
        r@ == incremental_text(
            text::texts(affected@),
            symbols::symbol_views(syms@),
            resolved_views(edges@),
            flat_chunks(chunks_by_file@),
            text::texts(literals@),
            stat_views(file_stats@),
            repo@,
            text::texts(deleted@),
        ),
{
    let mut txn = "BEGIN TRANSACTION;\n".to_owned();
    append_delete_files(&mut txn, affected);
    append_symbols(&mut txn, syms);
    append_edges(&mut txn, edges);
    append_chunks(&mut txn, chunks_by_file, literals);
    append_metas(&mut txn, file_stats, repo);
    append_delete_metas(&mut txn, deleted);
    txn.append("COMMIT TRANSACTION;\n");
    txn
}

/// The transaction of a full rebuild is one transaction: it starts by beginning
/// it and ends by committing it.
pub proof fn law_full_rebuild_is_framed(
    syms: Seq<SymbolView>,
    edges: Seq<ResolvedEdgeView>,
    chunks: Seq<ChunkView>,
    literals: Seq<Seq<char>>,
    stats: Seq<(Seq<char>, i64, i64)>,
    repo: Seq<char>,
)
    ensures
        text::has_prefix(
            full_rebuild_text(syms, edges, chunks, literals, stats, repo),
            "BEGIN TRANSACTION;\n"@,
        ),
        text::has_suffix(
            full_rebuild_text(syms, edges, chunks, literals, stats, repo),
            "COMMIT TRANSACTION;\n"@,
        ),
{
    let begin = "BEGIN TRANSACTION;\n"@;
    let commit = "COMMIT TRANSACTION;\n"@;
    let a = begin + delete_all_text();
    let b = a + upsert_symbols_text(syms);
    let c = b + insert_edges_text(edges);
    let d = c + insert_chunks_text(chunks, literals);
    let e = d + upsert_metas_text(stats, repo);
    text::lemma_ends_of_sum(begin, delete_all_text());
    text::lemma_prefix_stays(a, begin, upsert_symbols_text(syms));
    text::lemma_prefix_stays(b, begin, insert_edges_text(edges));
    text::lemma_prefix_stays(c, begin, insert_chunks_text(chunks, literals));
    text::lemma_prefix_stays(d, begin, upsert_metas_text(stats, repo));
    text::lemma_prefix_stays(e, begin, commit);
    text::lemma_ends_of_sum(e, commit);
}

/// The transaction of an incremental run is one transaction: it starts by
/// beginning it and ends by committing it.
pub proof fn law_incremental_is_framed(
    affected: Seq<Seq<char>>,
    syms: Seq<SymbolView>,
    edges: Seq<ResolvedEdgeView>,
    chunks: Seq<ChunkView>,
    literals: Seq<Seq<char>>,
    stats: Seq<(Seq<char>, i64, i64)>,
    repo: Seq<char>,
    deleted: Seq<Seq<char>>,
)
    ensures
        text::has_prefix(
            incremental_text(affected, syms, edges, chunks, literals, stats, repo, deleted),
            "BEGIN TRANSACTION;\n"@,
        ),
        text::has_suffix(
            incremental_text(affected, syms, edges, chunks, literals, stats, repo, deleted),
            "COMMIT TRANSACTION;\n"@,
        ),
{
    let begin = "BEGIN TRANSACTION;\n"@;
    let commit = "COMMIT TRANSACTION;\n"@;
    let a = begin + delete_files_text(affected);
    let b = a + upsert_symbols_text(syms);
    let c = b + insert_edges_text(edges);
    let d = c + insert_chunks_text(chunks, literals);
    let e = d + upsert_metas_text(stats, repo);
    let f = e + delete_metas_text(deleted);
    text::lemma_ends_of_sum(begin, delete_files_text(affected));
    text::lemma_prefix_stays(a, begin, upsert_symbols_text(syms));
    text::lemma_prefix_stays(b, begin, insert_edges_text(edges));
    text::lemma_prefix_stays(c, begin, insert_chunks_text(chunks, literals));
    text::lemma_prefix_stays(d, begin, upsert_metas_text(stats, repo));
    text::lemma_prefix_stays(e, begin, delete_metas_text(deleted));
    text::lemma_prefix_stays(f, begin, commit);
    text::lemma_ends_of_sum(f, commit);
}

// ─── The outcome of a transaction ────────────────────────────────────────

/// What every statement of a transaction reports when another one failed.
pub open spec fn cascade_message() -> Seq<char> {
    "The query was not executed due to a failed transaction"@
}

/// Whether an error only tells that another statement failed.
pub open spec fn is_cascade(message: Seq<char>) -> bool {
    text::occurs(message, cascade_message())
}

/// Whether position `i` holds the error to report: of those that are no mere
/// cascade (of all, if `any`) the one with the lowest statement index.
pub open spec fn is_culprit(errors: Seq<(usize, String)>, any: bool, i: int) -> bool {
    &&& 0 <= i < errors.len()
    &&& any || !is_cascade(errors[i].1@)
    &&& forall|j: int|
        0 <= j < errors.len() && (any || !is_cascade((#[trigger] errors[j]).1@)) ==> errors[i].0
            < errors[j].0 || (errors[i].0 == errors[j].0 && i <= j)
}

/// Whether every error only tells that another statement failed.
pub open spec fn only_cascades(errors: Seq<(usize, String)>) -> bool {
    forall|j: int| 0 <= j < errors.len() ==> is_cascade((#[trigger] errors[j]).1@)
}

/// The report on the statement that made a transaction fail.
pub open spec fn culprit_text(index: usize, message: Seq<char>) -> Seq<char> {
    "transaction rolled back — statement #"@ + text::decimal(index as nat) + " failed: "@ + message
}

/// The report on a failed transaction of which only cascade messages are known.
pub open spec fn cascade_text(index: usize, message: Seq<char>) -> Seq<char> {
    "transaction rolled back — statement #"@ + text::decimal(index as nat) + ": "@ + message
}

fn find_culprit(errors: &Vec<(usize, String)>, any: bool) -> (r: Option<usize>)
    ensures
        match r {
            Some(i) => is_culprit(errors@, any, i as int),
            None => (errors@.len() == 0 || !any) && only_cascades(errors@),
        },
{
    let mut best: Option<usize> = None;
    let mut n: usize = 0;
    while n < errors.len()
        invariant
            n <= errors.len(),
            match best {
                Some(i) => {
                    &&& i < n
                    &&& any || !is_cascade(errors@[i as int].1@)
                    &&& forall|j: int|
                        0 <= j < n && (any || !is_cascade((#[trigger] errors@[j]).1@))
                            ==> errors@[i as int].0 < errors@[j].0 || (errors@[i as int].0
                            == errors@[j].0 && i <= j)
                },
                None => (n == 0 || !any) && forall|j: int|
                    0 <= j < n ==> is_cascade((#[trigger] errors@[j]).1@),
            },
        decreases errors.len() - n,
    {
        let counts = any || !text::contains(
            errors[n].1.as_str(),
            "The query was not executed due to a failed transaction",
        );
        if counts {
            match best {
                Some(i) => {
                    if errors[n].0 < errors[i].0 {
                        best = Some(n);
                    }
                },
                None => {
                    best = Some(n);
                },
            }
        }
        n = n + 1;
    }
    best
}

/// Inspect the errors of a transaction, each with the index of its statement, and
/// report the first meaningful one, or `Ok(())` if every statement succeeded.
///
/// When a transaction rolls back, every statement is annotated with the same
/// generic message. Those are skipped, so that the report names the statement
/// whose error triggered the rollback. If there are no others, the one with the
/// lowest index is reported.
pub fn check_transaction(errors: &Vec<(usize, String)>) -> (r: Result<(), String>)
    ensures
        match r {
            Ok(()) => errors@.len() == 0,
            Err(report) => errors@.len() > 0 && if only_cascades(errors@) {
                exists|i: int| #[trigger]
                    is_culprit(errors@, true, i) && report@ == cascade_text(
                        errors@[i].0,
                        errors@[i].1@,
                    )
            } else {
                exists|i: int| #[trigger]
                    is_culprit(errors@, false, i) && report@ == culprit_text(
                        errors@[i].0,
                        errors@[i].1@,
                    )
            },
        },
{
    let mut report = "transaction rolled back — statement #".to_owned();
    match find_culprit(errors, false) {
        Some(i) => {
            push_decimal(&mut report, errors[i].0 as u64);
            report.append(" failed: ");
            report.append(errors[i].1.as_str());
            assert(is_culprit(errors@, false, i as int));
            Err(report)
        },
        None => match find_culprit(errors, true) {
            Some(i) => {
                push_decimal(&mut report, errors[i].0 as u64);
                report.append(": ");
                report.append(errors[i].1.as_str());
                assert(is_culprit(errors@, true, i as int));
                Err(report)
            },
            None => Ok(()),
        },
    }
}

/// The error to report is determined by the errors.
pub proof fn law_culprit_is_unique(errors: Seq<(usize, String)>, any: bool, i: int, j: int)
    requires
        is_culprit(errors, any, i),
        is_culprit(errors, any, j),
    ensures
        i == j,
{
}

// ─── Laws ────────────────────────────────────────────────────────────────

/// Escaping works character by character: a backslash goes before a quote or a
/// backslash, and anything else stays as it is.
pub proof fn law_escaping_is_per_character(a: Seq<char>, b: Seq<char>, c: char)
    ensures
        escape(a + b) == escape(a) + escape(b),
        c == '\'' || c == '\\' ==> escape(seq![c]) == seq!['\\', c],
        c != '\'' && c != '\\' ==> escape(seq![c]) == seq![c],
        escape(seq![]) == Seq::<char>::empty(),
    decreases b.len(),
{
    if b.len() == 0 {
        assert(a + b =~= a);
        assert(escape(a + b) =~= escape(a) + escape(b));
    } else {
        law_escaping_is_per_character(a, b.drop_last(), c);
        assert((a + b).drop_last() =~= a + b.drop_last());
        assert(escape(a + b) =~= escape(a) + escape(b));
    }
    assert(seq![c].drop_last() =~= seq![]);
    assert(escape(seq![c].drop_last()) =~= seq![]);
    assert(escape(seq![c]) =~= escape_char(c));
}

/// An array literal holds the numerals between brackets, separated by commas.
pub proof fn law_embedding_is_an_array(components: Seq<Seq<char>>, c: Seq<char>)
    ensures
        embedding_literal(seq![]) == seq!['[', ']'],
        embedding_literal(seq![c]) == seq!['['] + c + seq![']'],
        components.len() > 0 ==> embedding_literal(components.push(c)) == embedding_literal(
            components,
        ).drop_last() + seq![','] + c + seq![']'],
{
    reveal_strlit("[");
    reveal_strlit("]");
    reveal_strlit(",");
    assert(embedding_literal(seq![]) =~= seq!['[', ']']);
    assert(embedding_literal(seq![c]) =~= seq!['['] + c + seq![']']);
    if components.len() > 0 {
        assert(components.push(c).drop_last() =~= components);
        assert(embedding_literal(components.push(c)) =~= embedding_literal(components).drop_last()
            + seq![','] + c + seq![']']);
    }
}

/// Each chunk is written with its own embedding: the statements for the chunks
/// before it come first, then the one that creates it with the literal of its
/// number, then those for the chunks behind it with the literals behind that one. A
/// chunk beyond the literals is written with an empty array.
pub proof fn law_each_chunk_is_written_with_its_embedding(
    chunks: Seq<ChunkView>,
    literals: Seq<Seq<char>>,
    k: int,
)
    requires
        0 <= k < chunks.len(),
    ensures
        insert_chunks_text(seq![], literals) == Seq::<char>::empty(),
        k < literals.len() ==> insert_chunks_text(chunks, literals) == insert_chunks_text(
            chunks.take(k),
            literals,
        ) + insert_chunk_text(chunks[k], literals[k]) + insert_chunks_text(
            chunks.skip(k + 1),
            literals.skip(k + 1),
        ),
        k >= literals.len() ==> insert_chunks_text(chunks, literals) == insert_chunks_text(
            chunks.take(k),
            literals,
        ) + insert_chunk_text(chunks[k], seq!['[', ']']) + insert_chunks_text(
            chunks.skip(k + 1),
            seq![],
        ),
    decreases chunks.len(),
{
    law_embedding_is_an_array(seq![], seq![]);
    let n = chunks.len() - 1;
    let front = chunks.drop_last();
    let all = insert_chunks_text(chunks, literals);
    let lits = if k < literals.len() {
        literals.skip(k + 1)
    } else {
        seq![]
    };
    let own = if k < literals.len() {
        literals[k]
    } else {
        seq!['[', ']']
    };
    let rest = chunks.skip(k + 1);
    if k == n {
        assert(chunks.take(k) =~= front);
        assert(rest =~= seq![]);
        assert(all =~= insert_chunks_text(front, literals) + insert_chunk_text(chunks[k], own)
            + insert_chunks_text(rest, lits));
    } else {
        law_each_chunk_is_written_with_its_embedding(front, literals, k);
        assert(front.take(k) =~= chunks.take(k));
        assert(front.skip(k + 1) =~= rest.drop_last());
        assert(rest.last() == chunks.last());
        assert(literal_of(lits, rest.len() - 1) == literal_of(literals, n));
        assert(insert_chunks_text(rest, lits) == insert_chunks_text(rest.drop_last(), lits)
            + insert_chunk_text(chunks.last(), literal_of(literals, n)));
        assert(all =~= insert_chunks_text(chunks.take(k), literals) + insert_chunk_text(
            chunks[k],
            own,
        ) + insert_chunks_text(rest, lits));
    }
}

/// The chunks of several files are those of the one file after those of the other,
/// each in its order.
pub proof fn law_chunks_stand_file_by_file(
    a: Seq<(String, Vec<Chunk>)>,
    b: Seq<(String, Vec<Chunk>)>,
    i: int,
)
    ensures
        flat_chunks(a + b) == flat_chunks(a) + flat_chunks(b),
        a.len() == 0 ==> flat_chunks(a).len() == 0,
        a.len() == 1 ==> flat_chunks(a).len() == a[0].1@.len(),
        a.len() == 1 && 0 <= i < a[0].1@.len() ==> flat_chunks(a)[i] == a[0].1@[i]@,
    decreases b.len(),
{
    if b.len() == 0 {
        assert(a + b =~= a);
        assert(flat_chunks(a + b) =~= flat_chunks(a) + flat_chunks(b));
    } else {
        law_chunks_stand_file_by_file(a, b.drop_last(), i);
        assert((a + b).drop_last() =~= a + b.drop_last());
        assert(flat_chunks(a + b) =~= flat_chunks(a) + flat_chunks(b));
    }
    if a.len() == 1 {
        assert(a.drop_last() =~= seq![]);
        assert(flat_chunks(a.drop_last()) =~= seq![]);
        assert(flat_chunks(a) =~= chunker::chunk_views(a[0].1@));
    }
}

/// Every symbol is written once, in the order of the symbols.
pub proof fn law_symbols_are_written_in_order(a: Seq<SymbolView>, b: Seq<SymbolView>)
    ensures
        upsert_symbols_text(a + b) == upsert_symbols_text(a) + upsert_symbols_text(b),
        a.len() == 0 ==> upsert_symbols_text(a) == Seq::<char>::empty(),
        a.len() == 1 ==> upsert_symbols_text(a) == upsert_symbol_text(a[0]),
    decreases b.len(),
{
    if b.len() == 0 {
        assert(a + b =~= a);
        assert(upsert_symbols_text(a + b) =~= upsert_symbols_text(a) + upsert_symbols_text(b));
    } else {
        law_symbols_are_written_in_order(a, b.drop_last());
        assert((a + b).drop_last() =~= a + b.drop_last());
        assert(upsert_symbols_text(a + b) =~= upsert_symbols_text(a) + upsert_symbols_text(b));
    }
    if a.len() == 1 {
        assert(a.drop_last() =~= seq![]);
        assert(upsert_symbols_text(a.drop_last()) =~= seq![]);
        assert(upsert_symbols_text(a) =~= upsert_symbol_text(a[0]));
    }
}

/// Every edge is written once, in the order of the edges, from its start to its
/// target, under its kind and with its line.
pub proof fn law_edges_are_written_in_order(a: Seq<ResolvedEdgeView>, b: Seq<ResolvedEdgeView>)
    ensures
        insert_edges_text(a + b) == insert_edges_text(a) + insert_edges_text(b),
        a.len() == 0 ==> insert_edges_text(a) == Seq::<char>::empty(),
        a.len() == 1 ==> insert_edges_text(a) == insert_edge_text(
            a[0].from,
            a[0].to,
            a[0].kind,
            a[0].line,
        ),
    decreases b.len(),
{
    if b.len() == 0 {
        assert(a + b =~= a);
        assert(insert_edges_text(a + b) =~= insert_edges_text(a) + insert_edges_text(b));
    } else {
        law_edges_are_written_in_order(a, b.drop_last());
        assert((a + b).drop_last() =~= a + b.drop_last());
        assert(insert_edges_text(a + b) =~= insert_edges_text(a) + insert_edges_text(b));
    }
    if a.len() == 1 {
        assert(a.drop_last() =~= seq![]);
        assert(insert_edges_text(a.drop_last()) =~= seq![]);
        assert(insert_edges_text(a) =~= insert_edge_text(a[0].from, a[0].to, a[0].kind, a[0].line));
    }
}

/// The metadata of every file is written once, in the order of the files, with its
/// own time and size.
pub proof fn law_metadata_is_written_in_order(
    a: Seq<(Seq<char>, i64, i64)>,
    b: Seq<(Seq<char>, i64, i64)>,
    repo: Seq<char>,
)
    ensures
        upsert_metas_text(a + b, repo) == upsert_metas_text(a, repo) + upsert_metas_text(b, repo),
        a.len() == 0 ==> upsert_metas_text(a, repo) == Seq::<char>::empty(),
        a.len() == 1 ==> upsert_metas_text(a, repo) == upsert_meta_text(
            a[0].0,
            a[0].1,
            a[0].2,
            repo,
        ),
    decreases b.len(),
{
    if b.len() == 0 {
        assert(a + b =~= a);
        assert(upsert_metas_text(a + b, repo) =~= upsert_metas_text(a, repo) + upsert_metas_text(
            b,
            repo,
        ));
    } else {
        law_metadata_is_written_in_order(a, b.drop_last(), repo);
        assert((a + b).drop_last() =~= a + b.drop_last());
        assert(upsert_metas_text(a + b, repo) =~= upsert_metas_text(a, repo) + upsert_metas_text(
            b,
            repo,
        ));
    }
    if a.len() == 1 {
        assert(a.drop_last() =~= seq![]);
        assert(upsert_metas_text(a.drop_last(), repo) =~= seq![]);
        assert(upsert_metas_text(a, repo) =~= upsert_meta_text(a[0].0, a[0].1, a[0].2, repo));
    }
}

proof fn lemma_added_in_turn(a: Seq<char>, b: Seq<char>, c: Seq<char>)
    ensures
        a + b + c == a + (b + c),
{
    assert(a + b + c =~= a + (b + c));
}

proof fn lemma_nothing_added(a: Seq<char>)
    ensures
        a + Seq::<char>::empty() == a,
        Seq::<char>::empty() + a == a,
{
    assert(a + Seq::<char>::empty() =~= a);
    assert(Seq::<char>::empty() + a =~= a);
}

/// The data of every file is deleted once, in the order of the files.
pub proof fn law_files_are_deleted_in_order(a: Seq<Seq<char>>, b: Seq<Seq<char>>)
    ensures
        delete_files_text(a + b) == delete_files_text(a) + delete_files_text(b),
        a.len() == 0 ==> delete_files_text(a) == Seq::<char>::empty(),
        a.len() == 1 ==> delete_files_text(a) == delete_file_text(a[0]),
    decreases b.len(),
{
    if b.len() == 0 {
        assert(a + b =~= a);
        lemma_nothing_added(delete_files_text(a));
    } else {
        let front = b.drop_last();
        law_files_are_deleted_in_order(a, front);
        assert((a + b).drop_last() =~= a + front);
        assert((a + b).last() == b.last());
        lemma_added_in_turn(
            delete_files_text(a),
            delete_files_text(front),
            delete_file_text(b.last()),
        );
    }
    if a.len() == 1 {
        assert(a.drop_last() =~= seq![]);
        assert(delete_files_text(a.drop_last()) =~= seq![]);
        lemma_nothing_added(delete_file_text(a[0]));
    }
}

/// The metadata of every file is deleted once, in the order of the files.
pub proof fn law_metadata_is_deleted_in_order(a: Seq<Seq<char>>, b: Seq<Seq<char>>)
    ensures
        delete_metas_text(a + b) == delete_metas_text(a) + delete_metas_text(b),
        a.len() == 0 ==> delete_metas_text(a) == Seq::<char>::empty(),
        a.len() == 1 ==> delete_metas_text(a) == delete_meta_text(a[0]),
    decreases b.len(),
{
    if b.len() == 0 {
        assert(a + b =~= a);
        lemma_nothing_added(delete_metas_text(a));
    } else {
        let front = b.drop_last();
        law_metadata_is_deleted_in_order(a, front);
        assert((a + b).drop_last() =~= a + front);
        assert((a + b).last() == b.last());
        lemma_added_in_turn(
            delete_metas_text(a),
            delete_metas_text(front),
            delete_meta_text(b.last()),
        );
    }
    if a.len() == 1 {
        assert(a.drop_last() =~= seq![]);
        assert(delete_metas_text(a.drop_last()) =~= seq![]);
        lemma_nothing_added(delete_meta_text(a[0]));
    }
}

/// A chunk's statement creates a chunk and sets each field to the chunk's own value,
/// texts as literals for exactly those texts.
pub proof fn law_chunk_statement_sets_its_fields(chunk: ChunkView, embedding: Seq<char>)
    ensures
        text::has_prefix(
            insert_chunk_text(chunk, embedding),
            "CREATE chunk SET file = '"@ + escape(chunk.file) + "', line_start = "@,
        ),
        text::occurs(
            insert_chunk_text(chunk, embedding),
            "', line_start = "@ + text::decimal(chunk.line_start as nat) + ", line_end = "@
                + text::decimal(chunk.line_end as nat) + ", content = '"@,
        ),
        text::occurs(
            insert_chunk_text(chunk, embedding),
            ", content = '"@ + escape(chunk.content) + "', embedding = "@ + embedding
                + ", symbol_ref = "@,
        ),
        chunk.symbol_ref is None ==> text::has_suffix(
            insert_chunk_text(chunk, embedding),
            ", symbol_ref = "@ + "NONE"@ + ";\n"@,
        ),
        chunk.symbol_ref matches Some(fqn) ==> text::has_suffix(
            insert_chunk_text(chunk, embedding),
            ", symbol_ref = "@ + ("'symbol:⟨"@ + escape(fqn) + "⟩'"@) + ";\n"@,
        ),
{
    let a = "CREATE chunk SET file = '"@ + escape(chunk.file);
    let from = text::decimal(chunk.line_start as nat) + ", line_end = "@ + text::decimal(
        chunk.line_end as nat,
    );
    let body = escape(chunk.content) + "', embedding = "@ + embedding;
    let reference = reference_literal(chunk.symbol_ref);
    lemma_in_turn_four(
        a + "', line_start = "@,
        text::decimal(chunk.line_start as nat),
        ", line_end = "@,
        text::decimal(chunk.line_end as nat),
    );
    lemma_in_turn_four(
        a + "', line_start = "@ + from + ", content = '"@,
        escape(chunk.content),
        "', embedding = "@,
        embedding,
    );
    lemma_four_fields(
        a,
        "', line_start = "@,
        from,
        ", content = '"@,
        body,
        ", symbol_ref = "@,
        reference,
        ";\n"@,
    );
    lemma_in_turn_four(
        "', line_start = "@,
        text::decimal(chunk.line_start as nat),
        ", line_end = "@,
        text::decimal(chunk.line_end as nat),
    );
    lemma_in_turn_four(", content = '"@, escape(chunk.content), "', embedding = "@, embedding);
}

/// Three parts may be added at once or in turn.
proof fn lemma_in_turn_four(a: Seq<char>, b: Seq<char>, c: Seq<char>, d: Seq<char>)
    ensures
        a + b + c + d == a + (b + c + d),
{
    assert(a + b + c + d =~= a + (b + c + d));
}

/// Where fields and their names stand in turn, each is found between its names.
proof fn lemma_four_fields(
    a: Seq<char>,
    l: Seq<char>,
    x: Seq<char>,
    m: Seq<char>,
    y: Seq<char>,
    n: Seq<char>,
    z: Seq<char>,
    end: Seq<char>,
)
    ensures
        ({
            let t = a + l + x + m + y + n + z + end;
            &&& text::has_prefix(t, a + l)
            &&& text::occurs(t, l + x + m)
            &&& text::occurs(t, m + y + n)
            &&& text::has_suffix(t, n + z + end)
        }),
{
    let tail = n + z + end;
    let before = a + l + x + m + y;
    lemma_in_turn_four(before, n, z, end);
    text::lemma_ends_of_sum(before, tail);
    // The text is what stands before the last name, and the rest.
    lemma_in_turn_four(a, l, x, m);
    lemma_added_in_turn(a + (l + x + m), y, tail);
    text::lemma_occurs_in_middle(a, l + x + m, y + tail);
    lemma_in_turn_four(a + l + x, m, y, n);
    lemma_added_in_turn(a + l + x + (m + y + n), z, end);
    text::lemma_occurs_in_middle(a + l + x, m + y + n, z + end);
    lemma_in_turn_four(a + l, x, m, y);
    lemma_added_in_turn(a + l, x + m + y, tail);
    text::lemma_ends_of_sum(a + l, x + m + y + tail);
}

/// A symbol's statement writes the symbol under its qualified name and sets each
/// field to the symbol's own value.
pub proof fn law_symbol_statement_sets_its_fields(sym: SymbolView)
    ensures
        text::has_prefix(
            upsert_symbol_text(sym),
            "UPSERT symbol:`⟨"@ + escape(sym.qualified.fqn()) + "⟩` SET name = '"@ + escape(
                sym.qualified.name,
            ) + "', kind = '"@ + ops::kind_name(sym.kind) + "', file = '"@ + escape(
                sym.qualified.file,
            ),
        ),
        text::occurs(
            upsert_symbol_text(sym),
            "', line_start = "@ + (text::decimal(sym.line_start as nat) + ", line_end = "@
                + text::decimal(sym.line_end as nat)) + ", signature = "@,
        ),
        sym.signature is None ==> text::occurs(
            upsert_symbol_text(sym),
            ", signature = "@ + "NONE"@ + ", parent = "@,
        ),
        sym.signature matches Some(s) ==> text::occurs(
            upsert_symbol_text(sym),
            ", signature = "@ + ("'"@ + escape(s) + "'"@) + ", parent = "@,
        ),
        sym.parent_fqn is None ==> text::has_suffix(
            upsert_symbol_text(sym),
            ", parent = "@ + "NONE"@ + ";\n"@,
        ),
        sym.parent_fqn matches Some(p) ==> text::has_suffix(
            upsert_symbol_text(sym),
            ", parent = "@ + ("'symbol:⟨"@ + escape(p) + "⟩'"@) + ";\n"@,
        ),
{
    let head = "UPSERT symbol:`⟨"@ + escape(sym.qualified.fqn()) + "⟩` SET name = '"@ + escape(
        sym.qualified.name,
    ) + "', kind = '"@ + ops::kind_name(sym.kind) + "', file = '"@ + escape(sym.qualified.file);
    let from = text::decimal(sym.line_start as nat);
    let to = text::decimal(sym.line_end as nat);
    lemma_symbol_parts(
        head,
        "', line_start = "@,
        from,
        ", line_end = "@,
        to,
        ", signature = "@,
        optional_literal(sym.signature),
        ", parent = "@,
        reference_literal(sym.parent_fqn),
        ";\n"@,
    );
}

proof fn lemma_symbol_parts(
    head: Seq<char>,
    start: Seq<char>,
    from: Seq<char>,
    end: Seq<char>,
    to: Seq<char>,
    sig: Seq<char>,
    s: Seq<char>,
    par: Seq<char>,
    p: Seq<char>,
    stop: Seq<char>,
)
    ensures
        ({
            let t = head + start + from + end + to + sig + s + par + p + stop;
            &&& text::has_prefix(t, head)
            &&& text::occurs(t, start + (from + end + to) + sig)
            &&& text::occurs(t, sig + s + par)
            &&& text::has_suffix(t, par + p + stop)
        }),
{
    let lines = from + end + to;
    lemma_in_turn_four(head + start, from, end, to);
    lemma_four_fields(head, start, lines, sig, s, par, p, stop);
    text::lemma_ends_of_sum(head, start);
    lemma_prefix_of_prefix(
        head + start + lines + sig + s + par + p + stop,
        head + start,
        head,
    );
}

/// What starts the start of a text starts the text.
proof fn lemma_prefix_of_prefix(t: Seq<char>, a: Seq<char>, b: Seq<char>)
    requires
        text::has_prefix(t, a),
        text::has_prefix(a, b),
    ensures
        text::has_prefix(t, b),
{
    let n = b.len() as int;
    assert(t.subrange(0, n) =~= t.subrange(0, a.len() as int).subrange(0, n));
}

/// Edges of a kind are kept in the table that is named after it, under the text of
/// a transaction as under a statement of its own.
pub proof fn law_edge_tables(kind: EdgeKind)
    ensures
        kind == EdgeKind::Calls ==> edge_table(kind) == "calls"@,
        kind == EdgeKind::Uses ==> edge_table(kind) == "uses"@,
        kind == EdgeKind::Imports ==> edge_table(kind) == "imports"@,
        kind == EdgeKind::Contains ==> edge_table(kind) == "contains"@,
        kind == EdgeKind::Implements ==> edge_table(kind) == "implements"@,
        ops::relation(kind).sql == "RELATE type::thing($from)->"@ + edge_table(kind)
            + "->type::thing($to) SET "@ + (if kind == EdgeKind::Calls {
            "line = $line, in_file = $in_file, out_file = $out_file"@
        } else {
            "in_file = $in_file, out_file = $out_file"@
        }),
{
    reveal_strlit("RELATE type::thing($from)->");
    reveal_strlit("->type::thing($to) SET ");
    reveal_strlit("line = $line, in_file = $in_file, out_file = $out_file");
    reveal_strlit("in_file = $in_file, out_file = $out_file");
    let end = if kind == EdgeKind::Calls {
        "line = $line, in_file = $in_file, out_file = $out_file"@
    } else {
        "in_file = $in_file, out_file = $out_file"@
    };
    match kind {
        EdgeKind::Calls => {
            reveal_strlit("calls");
            reveal_strlit(
                "RELATE type::thing($from)->calls->type::thing($to) SET line = $line, in_file = $in_file, out_file = $out_file",
            );
        },
        EdgeKind::Uses => {
            reveal_strlit("uses");
            reveal_strlit(
                "RELATE type::thing($from)->uses->type::thing($to) SET in_file = $in_file, out_file = $out_file",
            );
        },
        EdgeKind::Imports => {
            reveal_strlit("imports");
            reveal_strlit(
                "RELATE type::thing($from)->imports->type::thing($to) SET in_file = $in_file, out_file = $out_file",
            );
        },
        EdgeKind::Contains => {
            reveal_strlit("contains");
            reveal_strlit(
                "RELATE type::thing($from)->contains->type::thing($to) SET in_file = $in_file, out_file = $out_file",
            );
        },
        EdgeKind::Implements => {
            reveal_strlit("implements");
            reveal_strlit(
                "RELATE type::thing($from)->implements->type::thing($to) SET in_file = $in_file, out_file = $out_file",
            );
        },
    }
    assert(ops::relation(kind).sql =~= "RELATE type::thing($from)->"@ + edge_table(kind)
        + "->type::thing($to) SET "@ + end);
}

/// An edge's statement relates its start to its target in the table of its kind and
/// names the files of both; it has the line where it is a call, and nothing else
/// there otherwise.
pub proof fn law_edge_statement_relates_its_ends(
    from: QualifiedSymbolView,
    to: QualifiedSymbolView,
    kind: EdgeKind,
    line: u32,
)
    ensures
        ({
            let start = "RELATE symbol:`⟨"@ + escape(from.fqn()) + "⟩`->"@ + edge_table(kind)
                + "->symbol:`⟨"@ + escape(to.fqn()) + "⟩` SET "@;
            let end = "in_file = '"@ + escape(from.file) + "', out_file = '"@ + escape(to.file)
                + "';\n"@;
            let at = "line = "@ + text::decimal(line as nat) + ", "@;
            let t = insert_edge_text(from, to, kind, line);
            &&& text::has_prefix(t, start)
            &&& text::has_suffix(t, end)
            &&& kind == EdgeKind::Calls ==> t == start + (at + end)
            &&& kind != EdgeKind::Calls ==> t == start + end
        }),
{
    let start = "RELATE symbol:`⟨"@ + escape(from.fqn()) + "⟩`->"@ + edge_table(kind)
        + "->symbol:`⟨"@ + escape(to.fqn()) + "⟩` SET "@;
    let end = "in_file = '"@ + escape(from.file) + "', out_file = '"@ + escape(to.file) + "';\n"@;
    let at = "line = "@ + text::decimal(line as nat) + ", "@;
    let t = insert_edge_text(from, to, kind, line);
    if kind == EdgeKind::Calls {
        assert(t =~= start + (at + end));
        assert(t =~= (start + at) + end);
        text::lemma_ends_of_sum(start, at + end);
        text::lemma_ends_of_sum(start + at, end);
    } else {
        assert(t =~= start + end);
        text::lemma_ends_of_sum(start, end);
    }
}

/// The statement for a file's metadata sets the path, the time, the size and the
/// repo that it was given, for the row of that path.
pub proof fn law_metadata_statement_sets_its_fields(
    path: Seq<char>,
    mtime: i64,
    size: i64,
    repo: Seq<char>,
)
    ensures
        text::has_prefix(
            upsert_meta_text(path, mtime, size, repo),
            "UPSERT file_meta SET path = '"@ + escape(path) + "', mtime = "@,
        ),
        text::occurs(
            upsert_meta_text(path, mtime, size, repo),
            "', mtime = "@ + text::signed_decimal(mtime as int) + ", size = "@,
        ),
        text::occurs(
            upsert_meta_text(path, mtime, size, repo),
            ", size = "@ + text::signed_decimal(size as int) + ", repo = '"@,
        ),
        text::has_suffix(
            upsert_meta_text(path, mtime, size, repo),
            ", repo = '"@ + escape(repo) + ("' WHERE path = '"@ + escape(path) + "';\n"@),
        ),
{
    lemma_four_fields(
        "UPSERT file_meta SET path = '"@ + escape(path),
        "', mtime = "@,
        text::signed_decimal(mtime as int),
        ", size = "@,
        text::signed_decimal(size as int),
        ", repo = '"@,
        escape(repo),
        "' WHERE path = '"@ + escape(path) + "';\n"@,
    );
    lemma_in_turn_four(
        "UPSERT file_meta SET path = '"@ + escape(path) + "', mtime = "@ + text::signed_decimal(
            mtime as int,
        ) + ", size = "@ + text::signed_decimal(size as int) + ", repo = '"@ + escape(repo),
        "' WHERE path = '"@,
        escape(path),
        "';\n"@,
    );
}

/// Deleting a file's data deletes the edges of every kind that start or end in the
/// file, the edges first, then its symbols, its chunks and its metadata. The
/// statements differ for two files in nothing but the path.
pub proof fn law_deleting_a_file_is_complete(file: Seq<char>, other: Seq<char>, kind: EdgeKind)
    ensures
        text::occurs(
            delete_file_text(file),
            "DELETE FROM "@ + edge_table(kind) + " WHERE in_file = '"@ + escape(file)
                + "' OR out_file = '"@ + escape(file) + "';\n"@,
        ),
        text::has_prefix(
            delete_file_text(file),
            "DELETE FROM "@ + "calls"@ + " WHERE in_file = '"@ + escape(file) + "' OR out_file = '"@
                + escape(file) + "';\n"@,
        ),
        text::has_suffix(
            delete_file_text(file),
            "DELETE FROM symbol WHERE file = '"@ + escape(file)
                + "';\n"@ + ("DELETE FROM chunk WHERE file = '"@ + escape(file) + "';\n"@) + (
            "DELETE FROM file_meta WHERE path = '"@ + escape(file) + "';\n"@),
        ),
        delete_meta_text(file) == "DELETE FROM file_meta WHERE path = '"@ + escape(file) + "';\n"@,
        delete_file_text(file).len() + 13 * escape(other).len() == delete_file_text(other).len()
            + 13 * escape(file).len(),
{
    let c = delete_edges_of("calls"@, file);
    let u = delete_edges_of("uses"@, file);
    let i = delete_edges_of("imports"@, file);
    let n = delete_edges_of("contains"@, file);
    let m = delete_edges_of("implements"@, file);
    let end = "DELETE FROM symbol WHERE file = '"@ + escape(file) + "';\n"@ + (
    "DELETE FROM chunk WHERE file = '"@ + escape(file) + "';\n"@) + (
    "DELETE FROM file_meta WHERE path = '"@ + escape(file) + "';\n"@);
    let t = delete_file_text(file);
    lemma_deletion_parts(c, u, i, n, m, end);
    assert(t == c + u + i + n + m + end) by {
        lemma_added_in_turn(
            c + u + i + n + m,
            "DELETE FROM symbol WHERE file = '"@ + escape(file) + "';\n"@,
            "DELETE FROM chunk WHERE file = '"@ + escape(file) + "';\n"@,
        );
        lemma_added_in_turn(
            c + u + i + n + m,
            "DELETE FROM symbol WHERE file = '"@ + escape(file) + "';\n"@ + (
            "DELETE FROM chunk WHERE file = '"@ + escape(file) + "';\n"@),
            delete_meta_text(file),
        );
    }
}

proof fn lemma_deletion_parts(
    a: Seq<char>,
    b: Seq<char>,
    c: Seq<char>,
    d: Seq<char>,
    e: Seq<char>,
    f: Seq<char>,
)
    ensures
        ({
            let t = a + b + c + d + e + f;
            &&& text::occurs(t, a)
            &&& text::occurs(t, b)
            &&& text::occurs(t, c)
            &&& text::occurs(t, d)
            &&& text::occurs(t, e)
            &&& text::has_prefix(t, a)
            &&& text::has_suffix(t, f)
        }),
{
    let t = a + b + c + d + e + f;
    let none = Seq::<char>::empty();
    assert(t =~= none + a + (b + c + d + e + f));
    text::lemma_occurs_in_middle(none, a, b + c + d + e + f);
    assert(t =~= a + b + (c + d + e + f));
    text::lemma_occurs_in_middle(a, b, c + d + e + f);
    assert(t =~= (a + b) + c + (d + e + f));
    text::lemma_occurs_in_middle(a + b, c, d + e + f);
    assert(t =~= (a + b + c) + d + (e + f));
    text::lemma_occurs_in_middle(a + b + c, d, e + f);
    text::lemma_occurs_in_middle(a + b + c + d, e, f);
    assert(t =~= a + (b + c + d + e + f));
    text::lemma_ends_of_sum(a, b + c + d + e + f);
    text::lemma_ends_of_sum(a + b + c + d + e, f);
}

/// A full rebuild first deletes everything, edges before all else, then writes the
/// symbols, the edges between them, the chunks and the files' metadata, and nothing
/// else.
pub proof fn law_full_rebuild_writes_in_order(
    syms: Seq<SymbolView>,
    edges: Seq<ResolvedEdgeView>,
    chunks: Seq<ChunkView>,
    literals: Seq<Seq<char>>,
    stats: Seq<(Seq<char>, i64, i64)>,
    repo: Seq<char>,
)
    ensures
        ({
            let cleared = "BEGIN TRANSACTION;\n"@
                + "DELETE FROM calls;\nDELETE FROM uses;\nDELETE FROM imports;\nDELETE FROM contains;\nDELETE FROM implements;\nDELETE FROM symbol;\nDELETE FROM chunk;\nDELETE FROM file_meta;\n"@;
            let s = upsert_symbols_text(syms);
            let e = insert_edges_text(edges);
            let c = insert_chunks_text(chunks, literals);
            let m = upsert_metas_text(stats, repo);
            let commit = "COMMIT TRANSACTION;\n"@;
            let t = full_rebuild_text(syms, edges, chunks, literals, stats, repo);
            &&& text::has_prefix(t, cleared)
            &&& text::stands_at(t, s, cleared.len() as int)
            &&& text::stands_at(t, e, (cleared.len() + s.len()) as int)
            &&& text::stands_at(t, c, (cleared.len() + s.len() + e.len()) as int)
            &&& text::stands_at(t, m, (cleared.len() + s.len() + e.len() + c.len()) as int)
            &&& text::has_suffix(t, commit)
            &&& t.len() == cleared.len() + s.len() + e.len() + c.len() + m.len() + commit.len()
        }),
{
    let cleared = "BEGIN TRANSACTION;\n"@ + delete_all_text();
    lemma_six_parts(
        cleared,
        upsert_symbols_text(syms),
        insert_edges_text(edges),
        insert_chunks_text(chunks, literals),
        upsert_metas_text(stats, repo),
        "COMMIT TRANSACTION;\n"@,
    );
}

proof fn lemma_six_parts(
    a: Seq<char>,
    b: Seq<char>,
    c: Seq<char>,
    d: Seq<char>,
    e: Seq<char>,
    f: Seq<char>,
)
    ensures
        ({
            let t = a + b + c + d + e + f;
            &&& text::has_prefix(t, a)
            &&& text::stands_at(t, b, a.len() as int)
            &&& text::stands_at(t, c, (a.len() + b.len()) as int)
            &&& text::stands_at(t, d, (a.len() + b.len() + c.len()) as int)
            &&& text::stands_at(t, e, (a.len() + b.len() + c.len() + d.len()) as int)
            &&& text::has_suffix(t, f)
        }),
{
    let t = a + b + c + d + e + f;
    let n = a.len() as int;
    let o = n + b.len();
    let p = o + c.len();
    let q = p + d.len();
    assert(t.subrange(0, n) =~= a);
    assert(t.subrange(n, n + b.len()) =~= b);
    assert(t.subrange(o, o + c.len()) =~= c);
    assert(t.subrange(p, p + d.len()) =~= d);
    assert(t.subrange(q, q + e.len()) =~= e);
    text::lemma_ends_of_sum(a + b + c + d + e, f);
}

/// An incremental run first deletes all data of the affected files, then writes the
/// new symbols, edges, chunks and metadata, then deletes the metadata of the deleted
/// files, and does nothing else.
pub proof fn law_incremental_run_writes_in_order(
    affected: Seq<Seq<char>>,
    syms: Seq<SymbolView>,
    edges: Seq<ResolvedEdgeView>,
    chunks: Seq<ChunkView>,
    literals: Seq<Seq<char>>,
    stats: Seq<(Seq<char>, i64, i64)>,
    repo: Seq<char>,
    deleted: Seq<Seq<char>>,
)
    ensures
        ({
            let begin = "BEGIN TRANSACTION;\n"@;
            let commit = "COMMIT TRANSACTION;\n"@;
            let a = delete_files_text(affected);
            let s = upsert_symbols_text(syms);
            let e = insert_edges_text(edges);
            let c = insert_chunks_text(chunks, literals);
            let m = upsert_metas_text(stats, repo);
            let d = delete_metas_text(deleted);
            let t = incremental_text(
                affected,
                syms,
                edges,
                chunks,
                literals,
                stats,
                repo,
                deleted,
            );
            &&& text::has_prefix(t, begin + a)
            &&& text::stands_at(t, s, (begin.len() + a.len()) as int)
            &&& text::stands_at(t, e, (begin.len() + a.len() + s.len()) as int)
            &&& text::stands_at(t, c, (begin.len() + a.len() + s.len() + e.len()) as int)
            &&& text::stands_at(t, m, (begin.len() + a.len() + s.len() + e.len() + c.len()) as int)
            &&& text::has_suffix(t, d + commit)
            &&& t.len() == begin.len() + a.len() + s.len() + e.len() + c.len() + m.len() + d.len()
                + commit.len()
        }),
{
    let begin = "BEGIN TRANSACTION;\n"@;
    let commit = "COMMIT TRANSACTION;\n"@;
    let a = delete_files_text(affected);
    let s = upsert_symbols_text(syms);
    let e = insert_edges_text(edges);
    let c = insert_chunks_text(chunks, literals);
    let m = upsert_metas_text(stats, repo);
    let d = delete_metas_text(deleted);
    lemma_six_parts(begin + a, s, e, c, m, d + commit);
    lemma_added_in_turn(begin + a + s + e + c + m, d, commit);
}

/// A full rebuild of which one embedding per chunk is known writes every chunk with
/// its own embedding, every symbol, every edge and the metadata of every file.
pub proof fn law_full_rebuild_writes_each(
    syms: Seq<SymbolView>,
    edges: Seq<ResolvedEdgeView>,
    chunks: Seq<ChunkView>,
    literals: Seq<Seq<char>>,
    stats: Seq<(Seq<char>, i64, i64)>,
    repo: Seq<char>,
    i: int,
)
    ensures
        ({
            let t = full_rebuild_text(syms, edges, chunks, literals, stats, repo);
            &&& 0 <= i < syms.len() ==> text::occurs(t, upsert_symbol_text(syms[i]))
            &&& 0 <= i < edges.len() ==> text::occurs(
                t,
                insert_edge_text(edges[i].from, edges[i].to, edges[i].kind, edges[i].line),
            )
            &&& 0 <= i < chunks.len() && i < literals.len() ==> text::occurs(
                t,
                insert_chunk_text(chunks[i], literals[i]),
            )
            &&& 0 <= i < stats.len() ==> text::occurs(
                t,
                upsert_meta_text(stats[i].0, stats[i].1, stats[i].2, repo),
            )
        }),
{
    let t = full_rebuild_text(syms, edges, chunks, literals, stats, repo);
    law_full_rebuild_writes_in_order(syms, edges, chunks, literals, stats, repo);
    let cleared = "BEGIN TRANSACTION;\n"@ + delete_all_text();
    let s = upsert_symbols_text(syms);
    let e = insert_edges_text(edges);
    let c = insert_chunks_text(chunks, literals);
    let m = upsert_metas_text(stats, repo);
    lemma_each_is_in_the_parts(syms, edges, chunks, literals, stats, repo, i);
    if 0 <= i < syms.len() {
        lemma_occurs_within(t, s, cleared.len() as int, upsert_symbol_text(syms[i]));
    }
    if 0 <= i < edges.len() {
        lemma_occurs_within(
            t,
            e,
            (cleared.len() + s.len()) as int,
            insert_edge_text(edges[i].from, edges[i].to, edges[i].kind, edges[i].line),
        );
    }
    if 0 <= i < chunks.len() && i < literals.len() {
        lemma_occurs_within(
            t,
            c,
            (cleared.len() + s.len() + e.len()) as int,
            insert_chunk_text(chunks[i], literals[i]),
        );
    }
    if 0 <= i < stats.len() {
        lemma_occurs_within(
            t,
            m,
            (cleared.len() + s.len() + e.len() + c.len()) as int,
            upsert_meta_text(stats[i].0, stats[i].1, stats[i].2, repo),
        );
    }
}

/// An incremental run writes every chunk with its own embedding, every symbol, every
/// edge and the metadata of every file, as a full rebuild does, and deletes the data
/// of every affected file.
pub proof fn law_incremental_run_writes_each(
    affected: Seq<Seq<char>>,
    syms: Seq<SymbolView>,
    edges: Seq<ResolvedEdgeView>,
    chunks: Seq<ChunkView>,
    literals: Seq<Seq<char>>,
    stats: Seq<(Seq<char>, i64, i64)>,
    repo: Seq<char>,
    deleted: Seq<Seq<char>>,
    i: int,
)
    ensures
        ({
            let t = incremental_text(
                affected,
                syms,
                edges,
                chunks,
                literals,
                stats,
                repo,
                deleted,
            );
            &&& 0 <= i < affected.len() ==> text::occurs(t, delete_file_text(affected[i]))
            &&& 0 <= i < syms.len() ==> text::occurs(t, upsert_symbol_text(syms[i]))
            &&& 0 <= i < edges.len() ==> text::occurs(
                t,
                insert_edge_text(edges[i].from, edges[i].to, edges[i].kind, edges[i].line),
            )
            &&& 0 <= i < chunks.len() && i < literals.len() ==> text::occurs(
                t,
                insert_chunk_text(chunks[i], literals[i]),
            )
            &&& 0 <= i < stats.len() ==> text::occurs(
                t,
                upsert_meta_text(stats[i].0, stats[i].1, stats[i].2, repo),
            )
        }),
{
    let t = incremental_text(affected, syms, edges, chunks, literals, stats, repo, deleted);
    law_incremental_run_writes_in_order(
        affected,
        syms,
        edges,
        chunks,
        literals,
        stats,
        repo,
        deleted,
    );
    let begin = "BEGIN TRANSACTION;\n"@;
    let a = delete_files_text(affected);
    let head = begin + a;
    let s = upsert_symbols_text(syms);
    let e = insert_edges_text(edges);
    let c = insert_chunks_text(chunks, literals);
    let m = upsert_metas_text(stats, repo);
    lemma_each_is_in_the_parts(syms, edges, chunks, literals, stats, repo, i);
    if 0 <= i < affected.len() {
        let x = affected.take(i);
        let y = seq![affected[i]];
        let z = affected.skip(i + 1);
        assert(affected =~= x + y + z);
        law_files_are_deleted_in_order(x, y);
        law_files_are_deleted_in_order(x + y, z);
        law_files_are_deleted_in_order(y, z);
        text::lemma_occurs_in_middle(
            delete_files_text(x),
            delete_file_text(affected[i]),
            delete_files_text(z),
        );
        lemma_second_part(t, begin, a);
        lemma_occurs_within(t, a, begin.len() as int, delete_file_text(affected[i]));
    }
    if 0 <= i < syms.len() {
        lemma_occurs_within(t, s, head.len() as int, upsert_symbol_text(syms[i]));
    }
    if 0 <= i < edges.len() {
        lemma_occurs_within(
            t,
            e,
            (head.len() + s.len()) as int,
            insert_edge_text(edges[i].from, edges[i].to, edges[i].kind, edges[i].line),
        );
    }
    if 0 <= i < chunks.len() && i < literals.len() {
        lemma_occurs_within(
            t,
            c,
            (head.len() + s.len() + e.len()) as int,
            insert_chunk_text(chunks[i], literals[i]),
        );
    }
    if 0 <= i < stats.len() {
        lemma_occurs_within(
            t,
            m,
            (head.len() + s.len() + e.len() + c.len()) as int,
            upsert_meta_text(stats[i].0, stats[i].1, stats[i].2, repo),
        );
    }
}

/// What occurs in a part of a text occurs in the text.
proof fn lemma_occurs_within(t: Seq<char>, part: Seq<char>, at: int, s: Seq<char>)
    requires
        text::stands_at(t, part, at),
        text::occurs(part, s),
    ensures
        text::occurs(t, s),
{
    let i = choose|i: int| text::stands_at(part, s, i);
    assert(t.subrange(at + i, at + i + s.len()) =~= t.subrange(at, at + part.len()).subrange(
        i,
        i + s.len(),
    ));
    assert(text::stands_at(t, s, at + i));
}

proof fn lemma_second_part(t: Seq<char>, a: Seq<char>, b: Seq<char>)
    requires
        text::has_prefix(t, a + b),
    ensures
        text::stands_at(t, b, a.len() as int),
{
    let n = a.len() as int;
    let whole = t.subrange(0, (a + b).len() as int);
    assert(whole.subrange(n, n + b.len()) =~= b);
    assert(t.subrange(n, n + b.len()) =~= whole.subrange(n, n + b.len()));
}

proof fn lemma_each_is_in_the_parts(
    syms: Seq<SymbolView>,
    edges: Seq<ResolvedEdgeView>,
    chunks: Seq<ChunkView>,
    literals: Seq<Seq<char>>,
    stats: Seq<(Seq<char>, i64, i64)>,
    repo: Seq<char>,
    i: int,
)
    ensures
        0 <= i < syms.len() ==> text::occurs(
            upsert_symbols_text(syms),
            upsert_symbol_text(syms[i]),
        ),
        0 <= i < edges.len() ==> text::occurs(
            insert_edges_text(edges),
            insert_edge_text(edges[i].from, edges[i].to, edges[i].kind, edges[i].line),
        ),
        0 <= i < chunks.len() && i < literals.len() ==> text::occurs(
            insert_chunks_text(chunks, literals),
            insert_chunk_text(chunks[i], literals[i]),
        ),
        0 <= i < stats.len() ==> text::occurs(
            upsert_metas_text(stats, repo),
            upsert_meta_text(stats[i].0, stats[i].1, stats[i].2, repo),
        ),
{
    if 0 <= i < syms.len() {
        let x = syms.take(i);
        let y = seq![syms[i]];
        let z = syms.skip(i + 1);
        assert(syms =~= x + y + z);
        law_symbols_are_written_in_order(x, y);
        law_symbols_are_written_in_order(x + y, z);
        law_symbols_are_written_in_order(y, z);
        text::lemma_occurs_in_middle(
            upsert_symbols_text(x),
            upsert_symbol_text(syms[i]),
            upsert_symbols_text(z),
        );
    }
    if 0 <= i < edges.len() {
        let x = edges.take(i);
        let y = seq![edges[i]];
        let z = edges.skip(i + 1);
        assert(edges =~= x + y + z);
        law_edges_are_written_in_order(x, y);
        law_edges_are_written_in_order(x + y, z);
        law_edges_are_written_in_order(y, z);
        text::lemma_occurs_in_middle(
            insert_edges_text(x),
            insert_edge_text(edges[i].from, edges[i].to, edges[i].kind, edges[i].line),
            insert_edges_text(z),
        );
    }
    if 0 <= i < chunks.len() && i < literals.len() {
        law_each_chunk_is_written_with_its_embedding(chunks, literals, i);
        text::lemma_occurs_in_middle(
            insert_chunks_text(chunks.take(i), literals),
            insert_chunk_text(chunks[i], literals[i]),
            insert_chunks_text(chunks.skip(i + 1), literals.skip(i + 1)),
        );
    }
    if 0 <= i < stats.len() {
        let x = stats.take(i);
        let y = seq![stats[i]];
        let z = stats.skip(i + 1);
        assert(stats =~= x + y + z);
        law_metadata_is_written_in_order(x, y, repo);
        law_metadata_is_written_in_order(x + y, z, repo);
        law_metadata_is_written_in_order(y, z, repo);
        text::lemma_occurs_in_middle(
            upsert_metas_text(x, repo),
            upsert_meta_text(stats[i].0, stats[i].1, stats[i].2, repo),
            upsert_metas_text(z, repo),
        );
    }
}

/// The error that is reported is the meaningful one with the lowest statement index:
/// a message that holds the generic words is passed over wherever another one is
/// there, and the report gives the index and the message.
pub proof fn law_report_names_the_first_meaningful_error(errors: Seq<(usize, String)>, i: int, j: int)
    requires
        0 <= j < errors.len(),
    ensures
        is_culprit(errors, false, i) ==> 0 <= i < errors.len() && !text::occurs(
            errors[i].1@,
            "The query was not executed due to a failed transaction"@,
        ) && (!text::occurs(
            errors[j].1@,
            "The query was not executed due to a failed transaction"@,
        ) ==> errors[i].0 <= errors[j].0),
        is_culprit(errors, true, i) ==> 0 <= i < errors.len() && errors[i].0 <= errors[j].0,
        is_culprit(errors, true, i) && errors[i].0 == errors[j].0 ==> i <= j,
        only_cascades(errors) ==> text::occurs(
            errors[j].1@,
            "The query was not executed due to a failed transaction"@,
        ),
        !text::occurs(
            errors[j].1@,
            "The query was not executed due to a failed transaction"@,
        ) ==> !only_cascades(errors),
        text::has_suffix(
            culprit_text(errors[j].0, errors[j].1@),
            "statement #"@ + text::decimal(errors[j].0 as nat) + " failed: "@ + errors[j].1@,
        ),
        text::has_suffix(
            cascade_text(errors[j].0, errors[j].1@),
            "statement #"@ + text::decimal(errors[j].0 as nat) + ": "@ + errors[j].1@,
        ),
        culprit_text(errors[j].0, errors[j].1@).len() == "transaction rolled back — statement #"@.len()
            + text::decimal(errors[j].0 as nat).len() + " failed: "@.len() + errors[j].1@.len(),
{
    reveal_strlit("statement #");
    reveal_strlit("transaction rolled back — statement #");
    let lead = "transaction rolled back — statement #"@;
    let start = lead.take(26);
    assert(lead =~= start + "statement #"@);
    let number = text::decimal(errors[j].0 as nat);
    let a = "statement #"@ + number + " failed: "@ + errors[j].1@;
    assert(culprit_text(errors[j].0, errors[j].1@) =~= start + a);
    text::lemma_ends_of_sum(start, a);
    let b = "statement #"@ + number + ": "@ + errors[j].1@;
    assert(cascade_text(errors[j].0, errors[j].1@) =~= start + b);
    text::lemma_ends_of_sum(start, b);
}


/// The model of a list of resolved edges, or of files with their time and size, has
/// each of them at its place, with its own parts.
pub proof fn law_models_of_what_is_written(
    edges: Seq<(QualifiedSymbol, QualifiedSymbol, EdgeKind, u32)>,
    stats: Seq<(String, i64, i64)>,
    i: int,
)
    ensures
        resolved_views(edges).len() == edges.len(),
        stat_views(stats).len() == stats.len(),
        0 <= i < edges.len() ==> resolved_views(edges)[i] == (ResolvedEdgeView {
            from: edges[i].0@,
            to: edges[i].1@,
            kind: edges[i].2,
            line: edges[i].3,
        }),
        0 <= i < stats.len() ==> stat_views(stats)[i] == (stats[i].0@, stats[i].1, stats[i].2),
{
}

/// A statement for a chunk or for metadata holds nothing but its words and the values:
/// its length is that of the values and of the same words for any other.
pub proof fn law_statements_hold_nothing_else(
    a: ChunkView,
    b: ChunkView,
    embedding_a: Seq<char>,
    embedding_b: Seq<char>,
    path_a: Seq<char>,
    path_b: Seq<char>,
    repo: Seq<char>,
)
    requires
        a.line_start == b.line_start,
        a.line_end == b.line_end,
        a.symbol_ref == b.symbol_ref,
    ensures
        insert_chunk_text(a, embedding_a).len() + escape(b.file).len() + escape(b.content).len()
            + embedding_b.len() == insert_chunk_text(b, embedding_b).len() + escape(a.file).len()
            + escape(a.content).len() + embedding_a.len(),
        upsert_meta_text(path_a, 0, 0, repo).len() + 2 * escape(path_b).len() == upsert_meta_text(
            path_b,
            0,
            0,
            repo,
        ).len() + 2 * escape(path_a).len(),
{
}


/// Where there are errors, there is one to report; where one of them does not hold
/// the generic words, there is a meaningful one.
pub proof fn law_there_is_an_error_to_report(errors: Seq<(usize, String)>, j: int)
    requires
        0 <= j < errors.len(),
    ensures
        exists|i: int| is_culprit(errors, true, i),
        !text::occurs(
            errors[j].1@,
            "The query was not executed due to a failed transaction"@,
        ) ==> exists|i: int| is_culprit(errors, false, i),
{
    lemma_culprit_exists(errors, true, j);
    if !is_cascade(errors[j].1@) {
        lemma_culprit_exists(errors, false, j);
    }
}

/// Whether the error at `k` is a candidate for the report.
spec fn is_candidate(errors: Seq<(usize, String)>, any: bool, k: int) -> bool {
    0 <= k < errors.len() && (any || !is_cascade(errors[k].1@))
}

proof fn lemma_culprit_exists(errors: Seq<(usize, String)>, any: bool, j: int)
    requires
        is_candidate(errors, any, j),
    ensures
        exists|i: int| is_culprit(errors, any, i),
    decreases errors.len(),
{
    let front = errors.drop_last();
    let n = errors.len() - 1;
    if exists|k: int| is_candidate(front, any, k) {
        let k = choose|k: int| is_candidate(front, any, k);
        lemma_culprit_exists(front, any, k);
        let i = choose|i: int| is_culprit(front, any, i);
        assert(front[i] == errors[i]);
        assert forall|m: int|
            0 <= m < n && (any || !is_cascade((#[trigger] errors[m]).1@)) implies errors[i].0
            < errors[m].0 || (errors[i].0 == errors[m].0 && i <= m) by {
            assert(front[m] == errors[m]);
        }
        if is_candidate(errors, any, n) && errors[n].0 < errors[i].0 {
            assert(is_culprit(errors, any, n));
        } else {
            assert(is_culprit(errors, any, i));
        }
    } else {
        assert(j == n) by {
            if j < n {
                assert(is_candidate(front, any, j));
            }
        }
        assert forall|m: int|
            0 <= m < errors.len() && (any || !is_cascade((#[trigger] errors[m]).1@)) implies m
            == n by {
            if m < n {
                assert(front[m] == errors[m]);
                assert(is_candidate(front, any, m));
            }
        }
        assert(is_culprit(errors, any, n));
    }
}

} // verus!
