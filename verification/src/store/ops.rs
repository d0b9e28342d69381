//! Statements for the store, and what is made of the rows that it returns.

use vstd::hash_map::StringHashMap;
use vstd::hash_set::StringHashSet;
use vstd::prelude::*;
use vstd::string::*;

use crate::parsing::chunker::Chunk;
use crate::parsing::chunker::ChunkView;
use crate::parsing::relations::EdgeKind;
use crate::parsing::symbols;
use crate::parsing::symbols::wrap_symbol_ref;
use crate::parsing::symbols::QualifiedSymbol;
use crate::parsing::symbols::QualifiedSymbolView;
use crate::parsing::symbols::Symbol;
use crate::parsing::symbols::SymbolKind;
use crate::parsing::symbols::SymbolView;
use crate::store::statement;
use crate::store::statement::Statement;
use crate::store::statement::StatementView;
use crate::store::statement::Value;
use crate::store::statement::ValueView;
use crate::text;
use crate::text::clone_opt;
use crate::text::from_chars;
use crate::text::matches_at;
use crate::text::to_chars;

verus! {

// ─── Metadata ────────────────────────────────────────────────────────────

/// What is known of an indexed file.
#[derive(Debug)]
pub struct FileMeta {
    pub path: String,
    pub mtime: i64,
    pub size: i64,
    pub repo: String,
}

/// A value that is kept for the index as a whole.
#[derive(Debug)]
pub struct IndexMeta {
    pub key: String,
    pub value: String,
}

impl Clone for FileMeta {
    fn clone(&self) -> (r: Self)
        ensures
            r.path@ == self.path@,
            r.mtime == self.mtime,
            r.size == self.size,
            r.repo@ == self.repo@,
    {
        FileMeta {
            path: self.path.clone(),
            mtime: self.mtime,
            size: self.size,
            repo: self.repo.clone(),
        }
    }
}

impl Clone for IndexMeta {
    fn clone(&self) -> (r: Self)
        ensures
            r.key@ == self.key@,
            r.value@ == self.value@,
    {
        IndexMeta { key: self.key.clone(), value: self.value.clone() }
    }
}

// ─── Names ───────────────────────────────────────────────────────────────

/// The name under which a kind of symbol is stored.
pub open spec fn kind_name(k: SymbolKind) -> Seq<char> {
    match k {
        SymbolKind::Function => "function"@,
        SymbolKind::Method => "method"@,
        SymbolKind::Struct => "struct"@,
        SymbolKind::Trait => "trait"@,
        SymbolKind::Impl => "impl"@,
        SymbolKind::Class => "class"@,
        SymbolKind::Module => "module"@,
        SymbolKind::Interface => "interface"@,
    }
}

/// The name under which a kind of symbol is stored.
pub fn kind_to_str(k: &SymbolKind) -> (r: &'static str)
    ensures
        r@ == kind_name(*k),
{
    match k {
        SymbolKind::Function => "function",
        SymbolKind::Method => "method",
        SymbolKind::Struct => "struct",
        SymbolKind::Trait => "trait",
        SymbolKind::Impl => "impl",
        SymbolKind::Class => "class",
        SymbolKind::Module => "module",
        SymbolKind::Interface => "interface",
    }
}

// ─── Delete operations ───────────────────────────────────────────────────

/// A statement on what belongs to the file at `path`.
pub open spec fn on_path(sql: Seq<char>, context: Seq<char>, path: Seq<char>) -> StatementView {
    statement::plain(sql, context).with_text("path"@, path)
}

/// The statements that delete what belongs to a file: the edges first (while
/// symbol IDs still exist for traversal), then symbols, chunks and metadata.
pub open spec fn file_deletion(path: Seq<char>) -> Seq<StatementView> {
    seq![
        on_path(
            "DELETE FROM calls WHERE in_file = $path OR out_file = $path"@,
            "delete calls"@,
            path,
        ),
        on_path(
            "DELETE FROM uses WHERE in_file = $path OR out_file = $path"@,
            "delete uses"@,
            path,
        ),
        on_path(
            "DELETE FROM imports WHERE in_file = $path OR out_file = $path"@,
            "delete imports"@,
            path,
        ),
        on_path(
            "DELETE FROM contains WHERE in_file = $path OR out_file = $path"@,
            "delete contains"@,
            path,
        ),
        on_path(
            "DELETE FROM implements WHERE in_file = $path OR out_file = $path"@,
            "delete implements"@,
            path,
        ),
        on_path("DELETE FROM symbol WHERE file = $path"@, "delete symbols"@, path),
        on_path("DELETE FROM chunk WHERE file = $path"@, "delete chunks"@, path),
        on_path("DELETE FROM file_meta WHERE path = $path"@, "delete file_meta"@, path),
    ]
}

fn push_on_path(list: &mut Vec<Statement>, sql: &str, context: &str, path: &str)
    ensures
        statement::statement_views(final(list)@) == statement::statement_views(old(list)@).push(
            on_path(sql@, context@, path@),
        ),
{
    list.push(Statement::new(sql, context).bind_text("path", path));
    assert(statement::statement_views(list@) =~= statement::statement_views(old(list)@).push(
        on_path(sql@, context@, path@),
    ));
}

/// Delete all edges, symbols, chunks, and file_meta for a given file path.
/// Edge deletion happens first.
pub fn delete_file_data(file_path: &str) -> (r: Vec<Statement>)
    ensures
        statement::statement_views(r@) == file_deletion(file_path@),
{
    let mut list: Vec<Statement> = Vec::new();
    assert(statement::statement_views(list@) =~= seq![]);
    push_on_path(
        &mut list,
        "DELETE FROM calls WHERE in_file = $path OR out_file = $path",
        "delete calls",
        file_path,
    );
    push_on_path(
        &mut list,
        "DELETE FROM uses WHERE in_file = $path OR out_file = $path",
        "delete uses",
        file_path,
    );
    push_on_path(
        &mut list,
        "DELETE FROM imports WHERE in_file = $path OR out_file = $path",
        "delete imports",
        file_path,
    );
    push_on_path(
        &mut list,
        "DELETE FROM contains WHERE in_file = $path OR out_file = $path",
        "delete contains",
        file_path,
    );
    push_on_path(
        &mut list,
        "DELETE FROM implements WHERE in_file = $path OR out_file = $path",
        "delete implements",
        file_path,
    );
    push_on_path(&mut list, "DELETE FROM symbol WHERE file = $path", "delete symbols", file_path);
    push_on_path(&mut list, "DELETE FROM chunk WHERE file = $path", "delete chunks", file_path);
    push_on_path(
        &mut list,
        "DELETE FROM file_meta WHERE path = $path",
        "delete file_meta",
        file_path,
    );
    assert(statement::statement_views(list@) =~= file_deletion(file_path@));
    list
}

/// The statements that delete everything: the edges first.
pub open spec fn full_deletion() -> Seq<StatementView> {
    seq![
        statement::plain("DELETE FROM calls"@, "delete all calls"@),
        statement::plain("DELETE FROM uses"@, "delete all uses"@),
        statement::plain("DELETE FROM imports"@, "delete all imports"@),
        statement::plain("DELETE FROM contains"@, "delete all contains"@),
        statement::plain("DELETE FROM implements"@, "delete all implements"@),
        statement::plain("DELETE FROM symbol"@, "delete all symbols"@),
        statement::plain("DELETE FROM chunk"@, "delete all chunks"@),
        statement::plain("DELETE FROM file_meta"@, "delete all file_meta"@),
    ]
}

fn push_plain(list: &mut Vec<Statement>, sql: &str, context: &str)
    ensures
        statement::statement_views(final(list)@) == statement::statement_views(old(list)@).push(
            statement::plain(sql@, context@),
        ),
{
    list.push(Statement::new(sql, context));
    assert(statement::statement_views(list@) =~= statement::statement_views(old(list)@).push(
        statement::plain(sql@, context@),
    ));
}

/// Delete ALL data: used for full rebuild.
pub fn delete_all_data() -> (r: Vec<Statement>)
    ensures
        statement::statement_views(r@) == full_deletion(),
{
    let mut list: Vec<Statement> = Vec::new();
    assert(statement::statement_views(list@) =~= seq![]);
    push_plain(&mut list, "DELETE FROM calls", "delete all calls");
    push_plain(&mut list, "DELETE FROM uses", "delete all uses");
    push_plain(&mut list, "DELETE FROM imports", "delete all imports");
    push_plain(&mut list, "DELETE FROM contains", "delete all contains");
    push_plain(&mut list, "DELETE FROM implements", "delete all implements");
    push_plain(&mut list, "DELETE FROM symbol", "delete all symbols");
    push_plain(&mut list, "DELETE FROM chunk", "delete all chunks");
    push_plain(&mut list, "DELETE FROM file_meta", "delete all file_meta");
    assert(statement::statement_views(list@) =~= full_deletion());
    list
}

// ─── Insert operations ───────────────────────────────────────────────────

/// The reference to the symbol with the qualified name, if there is a name.
pub open spec fn optional_ref(fqn: Option<Seq<char>>) -> Option<Seq<char>> {
    match fqn {
        Some(f) => Some(symbols::symbol_ref(f)),
        None => None,
    }
}

fn optional_symbol_ref(fqn: &Option<String>) -> (r: Option<String>)
    ensures
        text::text_opt(r) == optional_ref(text::text_opt(*fqn)),
{
    match fqn {
        Some(f) => Some(wrap_symbol_ref(f.as_str())),
        None => None,
    }
}

/// The statement that stores a symbol.
pub open spec fn symbol_upsert(sym: SymbolView) -> StatementView {
    statement::plain(
        "UPSERT type::thing($id) SET name = $name, kind = $kind, file = $file, line_start = $line_start, line_end = $line_end, signature = $signature, parent = $parent"@,
        "upsert symbol"@,
    ).with_text("id"@, sym.qualified.record_id()).with_text("name"@, sym.qualified.name).with_text(
        "kind"@,
        kind_name(sym.kind),
    ).with_text("file"@, sym.qualified.file).with_int(
        "line_start"@,
        sym.line_start as i64,
    ).with_int("line_end"@, sym.line_end as i64).with_opt("signature"@, sym.signature).with_opt(
        "parent"@,
        optional_ref(sym.parent_fqn),
    )
}

/// Upsert a symbol using its deterministic record ID.
pub fn upsert_symbol(sym: &Symbol) -> (r: Statement)
    ensures
        r@ == symbol_upsert(sym@),
{
    Statement::new(
        "UPSERT type::thing($id) SET name = $name, kind = $kind, file = $file, line_start = $line_start, line_end = $line_end, signature = $signature, parent = $parent",
        "upsert symbol",
    ).bind_text("id", sym.qualified.record_id().as_str()).bind_text(
        "name",
        sym.qualified.name.as_str(),
    ).bind_text("kind", kind_to_str(&sym.kind)).bind_text(
        "file",
        sym.qualified.file.as_str(),
    ).bind_int("line_start", sym.line_start as i64).bind_int(
        "line_end",
        sym.line_end as i64,
    ).bind_opt("signature", &sym.signature).bind_opt(
        "parent",
        &optional_symbol_ref(&sym.parent_fqn),
    )
}

/// The relation that a kind of edge is stored in, as a statement without values.
/// Only a call has a line.
pub open spec fn relation(kind: EdgeKind) -> StatementView {
    match kind {
        EdgeKind::Calls => statement::plain(
            "RELATE type::thing($from)->calls->type::thing($to) SET line = $line, in_file = $in_file, out_file = $out_file"@,
            "insert calls edge"@,
        ),
        EdgeKind::Uses => statement::plain(
            "RELATE type::thing($from)->uses->type::thing($to) SET in_file = $in_file, out_file = $out_file"@,
            "insert uses edge"@,
        ),
        EdgeKind::Imports => statement::plain(
            "RELATE type::thing($from)->imports->type::thing($to) SET in_file = $in_file, out_file = $out_file"@,
            "insert imports edge"@,
        ),
        EdgeKind::Contains => statement::plain(
            "RELATE type::thing($from)->contains->type::thing($to) SET in_file = $in_file, out_file = $out_file"@,
            "insert contains edge"@,
        ),
        EdgeKind::Implements => statement::plain(
            "RELATE type::thing($from)->implements->type::thing($to) SET in_file = $in_file, out_file = $out_file"@,
            "insert implements edge"@,
        ),
    }
}

/// The statement that stores an edge.
pub open spec fn edge_insert(
    from: QualifiedSymbolView,
    to: QualifiedSymbolView,
    kind: EdgeKind,
    line: u32,
) -> StatementView {
    let ends = relation(kind).with_text("from"@, from.record_id()).with_text("to"@, to.record_id());
    let placed = if kind == EdgeKind::Calls {
        ends.with_int("line"@, line as i64)
    } else {
        ends
    };
    placed.with_text("in_file"@, from.file).with_text("out_file"@, to.file)
}

/// Insert a resolved edge using RELATE.
pub fn insert_edge(
    from: &QualifiedSymbol,
    to: &QualifiedSymbol,
    kind: &EdgeKind,
    line: u32,
) -> (r: Statement)
    ensures
        r@ == edge_insert(from@, to@, *kind, line),
{
    let bare = match kind {
        EdgeKind::Calls => Statement::new(
            "RELATE type::thing($from)->calls->type::thing($to) SET line = $line, in_file = $in_file, out_file = $out_file",
            "insert calls edge",
        ),
        EdgeKind::Uses => Statement::new(
            "RELATE type::thing($from)->uses->type::thing($to) SET in_file = $in_file, out_file = $out_file",
            "insert uses edge",
        ),
        EdgeKind::Imports => Statement::new(
            "RELATE type::thing($from)->imports->type::thing($to) SET in_file = $in_file, out_file = $out_file",
            "insert imports edge",
        ),
        EdgeKind::Contains => Statement::new(
            "RELATE type::thing($from)->contains->type::thing($to) SET in_file = $in_file, out_file = $out_file",
            "insert contains edge",
        ),
        EdgeKind::Implements => Statement::new(
            "RELATE type::thing($from)->implements->type::thing($to) SET in_file = $in_file, out_file = $out_file",
            "insert implements edge",
        ),
    };
    let ends = bare.bind_text("from", from.record_id().as_str()).bind_text(
        "to",
        to.record_id().as_str(),
    );
    let placed = if *kind == EdgeKind::Calls {
        ends.bind_int("line", line as i64)
    } else {
        ends
    };
    placed.bind_text("in_file", from.file.as_str()).bind_text("out_file", to.file.as_str())
}

/// The statement that stores a chunk.
pub open spec fn chunk_insert(chunk: ChunkView) -> StatementView {
    statement::plain(
        "CREATE chunk SET file = $file, line_start = $line_start, line_end = $line_end, content = $content, embedding = $embedding, symbol_ref = $symbol_ref"@,
        "insert chunk"@,
    ).with_text("file"@, chunk.file).with_int("line_start"@, chunk.line_start as i64).with_int(
        "line_end"@,
        chunk.line_end as i64,
    ).with_text("content"@, chunk.content).with("embedding"@, ValueView::Embedding).with_opt(
        "symbol_ref"@,
        optional_ref(chunk.symbol_ref),
    )
}

/// Insert a chunk with its embedding.
pub fn insert_chunk(chunk: &Chunk) -> (r: Statement)
    ensures
        r@ == chunk_insert(chunk@),
{
    Statement::new(
        "CREATE chunk SET file = $file, line_start = $line_start, line_end = $line_end, content = $content, embedding = $embedding, symbol_ref = $symbol_ref",
        "insert chunk",
    ).bind_text("file", chunk.file.as_str()).bind_int(
        "line_start",
        chunk.line_start as i64,
    ).bind_int("line_end", chunk.line_end as i64).bind_text(
        "content",
        chunk.content.as_str(),
    ).bind("embedding", Value::Embedding).bind_opt(
        "symbol_ref",
        &optional_symbol_ref(&chunk.symbol_ref),
    )
}

/// Upsert file metadata.
pub fn upsert_file_meta(meta: &FileMeta) -> (r: Statement)
    ensures
        r@ == statement::plain(
            "UPSERT file_meta SET path = $path, mtime = $mtime, size = $size, repo = $repo WHERE path = $path"@,
            "upsert file_meta"@,
        ).with_text("path"@, meta.path@).with_int("mtime"@, meta.mtime).with_int(
            "size"@,
            meta.size,
        ).with_text("repo"@, meta.repo@),
{
    Statement::new(
        "UPSERT file_meta SET path = $path, mtime = $mtime, size = $size, repo = $repo WHERE path = $path",
        "upsert file_meta",
    ).bind_text("path", meta.path.as_str()).bind_int("mtime", meta.mtime).bind_int(
        "size",
        meta.size,
    ).bind_text("repo", meta.repo.as_str())
}

// ─── Query operations ────────────────────────────────────────────────────

/// Fetch all file_meta rows for a given repo.
pub fn get_all_file_meta(repo: &str) -> (r: Statement)
    ensures
        r@ == statement::plain(
            "SELECT path, mtime, size, repo FROM file_meta WHERE repo = $repo"@,
            "get all file_meta"@,
        ).with_text("repo"@, repo@),
{
    Statement::new(
        "SELECT path, mtime, size, repo FROM file_meta WHERE repo = $repo",
        "get all file_meta",
    ).bind_text("repo", repo)
}

/// Get a single index_meta value by key. See [`first_value`].
pub fn get_meta(key: &str) -> (r: Statement)
    ensures
        r@ == statement::plain(
            "SELECT key, value FROM index_meta WHERE key = $key"@,
            "get index_meta"@,
        ).with_text("key"@, key@),
{
    Statement::new(
        "SELECT key, value FROM index_meta WHERE key = $key",
        "get index_meta",
    ).bind_text("key", key)
}

/// The value in the first row, if there is a row.
pub fn first_value(rows: &Vec<IndexMeta>) -> (r: Option<String>)
    ensures
        text::text_opt(r) == if rows@.len() > 0 {
            Some(rows@[0].value@)
        } else {
            None
        },
{
    if rows.len() > 0 {
        Some(rows[0].value.clone())
    } else {
        None
    }
}

/// Set an index_meta key/value.
pub fn set_meta(key: &str, value: &str) -> (r: Statement)
    ensures
        r@ == statement::plain(
            "UPSERT index_meta SET key = $key, value = $value WHERE key = $key"@,
            "set index_meta"@,
        ).with_text("key"@, key@).with_text("value"@, value@),
{
    Statement::new(
        "UPSERT index_meta SET key = $key, value = $value WHERE key = $key",
        "set index_meta",
    ).bind_text("key", key).bind_text("value", value)
}

/// A symbol as the queries for qualified names return it.
#[derive(Debug)]
pub struct SymbolRow {
    pub file: String,
    pub name: String,
}

/// The qualified names that rows stand for. The scopes are not stored.
pub open spec fn names_of_rows(rows: Seq<SymbolRow>) -> Seq<QualifiedSymbolView> {
    Seq::new(
        rows.len(),
        |i: int|
            QualifiedSymbolView {
                file: rows[i].file@,
                scope_path: seq![],
                name: rows[i].name@,
            },
    )
}

/// Get all symbols from a given file (used for edge resolution). See
/// [`symbols_from_rows`].
pub fn get_symbols_for_file(file: &str) -> (r: Statement)
    ensures
        r@ == statement::plain(
            "SELECT file, name FROM symbol WHERE file = $file"@,
            "get symbols for file"@,
        ).with_text("file"@, file@),
{
    Statement::new(
        "SELECT file, name FROM symbol WHERE file = $file",
        "get symbols for file",
    ).bind_text("file", file)
}

/// Find a symbol by name across all files (for cross-file edge resolution). See
/// [`symbols_from_rows`].
pub fn find_symbol_by_name(name: &str) -> (r: Statement)
    ensures
        r@ == statement::plain(
            "SELECT file, name FROM symbol WHERE name = $name"@,
            "find symbol by name"@,
        ).with_text("name"@, name@),
{
    Statement::new(
        "SELECT file, name FROM symbol WHERE name = $name",
        "find symbol by name",
    ).bind_text("name", name)
}

/// The qualified names that rows stand for.
pub fn symbols_from_rows(rows: &Vec<SymbolRow>) -> (r: Vec<QualifiedSymbol>)
    ensures
        symbols::qualified_views(r@) == names_of_rows(rows@),
{
    let mut out: Vec<QualifiedSymbol> = Vec::new();
    let mut i: usize = 0;
    while i < rows.len()
        invariant
            i <= rows.len(),
            symbols::qualified_views(out@) == names_of_rows(rows@).take(i as int),
        decreases rows.len() - i,
    {
        let ghost before = symbols::qualified_views(out@);
        out.push(
            QualifiedSymbol {
                file: rows[i].file.clone(),
                scope_path: Vec::new(),
                name: rows[i].name.clone(),
            },
        );
        assert(text::texts(out@.last().scope_path@) =~= seq![]);
        assert(before.len() == i);
        assert(symbols::qualified_views(out@) =~= before.push(names_of_rows(rows@)[i as int]));
        assert(symbols::qualified_views(out@) =~= names_of_rows(rows@).take(i + 1));
        i = i + 1;
    }
    assert(names_of_rows(rows@).take(i as int) =~= names_of_rows(rows@));
    out
}

// ─── Counts ──────────────────────────────────────────────────────────────

/// Count indexed files for a repo. See [`first_count`].
pub fn count_indexed_files(repo: &str) -> (r: Statement)
    ensures
        r@ == statement::plain(
            "SELECT count() AS count FROM file_meta WHERE repo = $repo GROUP ALL"@,
            "count indexed files"@,
        ).with_text("repo"@, repo@),
{
    Statement::new(
        "SELECT count() AS count FROM file_meta WHERE repo = $repo GROUP ALL",
        "count indexed files",
    ).bind_text("repo", repo)
}

/// Total chunk rows stored (one DB per repo, so this is per-repo). See
/// [`first_count`].
pub fn count_chunks() -> (r: Statement)
    ensures
        r@ == statement::plain(
            "SELECT count() AS count FROM chunk GROUP ALL"@,
            "count chunks"@,
        ),
{
    Statement::new("SELECT count() AS count FROM chunk GROUP ALL", "count chunks")
}

/// Total symbol rows stored. See [`first_count`].
pub fn count_symbols() -> (r: Statement)
    ensures
        r@ == statement::plain(
            "SELECT count() AS count FROM symbol GROUP ALL"@,
            "count symbols"@,
        ),
{
    Statement::new("SELECT count() AS count FROM symbol GROUP ALL", "count symbols")
}

/// The count in the first row; zero if there is no row.
pub open spec fn count_in(rows: Seq<i64>) -> u64 {
    if rows.len() > 0 {
        rows[0] as u64
    } else {
        0
    }
}

/// The count in the first row; zero if there is no row.
pub fn first_count(rows: &Vec<i64>) -> (r: u64)
    ensures
        r == count_in(rows@),
{
    if rows.len() > 0 {
        rows[0] as u64
    } else {
        0
    }
}

/// Sample one stored embedding's dimensionality. See [`first_dim`].
pub fn sample_embedding_dim() -> (r: Statement)
    ensures
        r@ == statement::plain(
            "SELECT array::len(embedding) AS count FROM chunk WHERE embedding != [] LIMIT 1"@,
            "sample embedding dim"@,
        ),
{
    Statement::new(
        "SELECT array::len(embedding) AS count FROM chunk WHERE embedding != [] LIMIT 1",
        "sample embedding dim",
    )
}

/// A number of things: never below zero.
pub open spec fn at_least_zero(n: i64) -> u64 {
    if n < 0 {
        0
    } else {
        n as u64
    }
}

fn not_negative(n: i64) -> (r: u64)
    ensures
        r == at_least_zero(n),
{
    if n < 0 {
        0
    } else {
        n as u64
    }
}

/// The dimensionality in the first row; zero if there is no row.
pub fn first_dim(rows: &Vec<i64>) -> (r: u64)
    ensures
        r == if rows@.len() > 0 {
            at_least_zero(rows@[0])
        } else {
            0
        },
{
    if rows.len() > 0 {
        not_negative(rows[0])
    } else {
        0
    }
}

// ─── File browser ────────────────────────────────────────────────────────

/// One row in the file browser: path, language-agnostic metadata, and chunk count.
#[derive(Debug)]
pub struct FileBrowserRow {
    pub path: String,
    pub mtime: i64,
    pub size: i64,
    pub chunks: u64,
}

/// The model of a [`FileBrowserRow`].
#[verifier::ext_equal]
pub struct FileBrowserRowView {
    pub path: Seq<char>,
    pub mtime: i64,
    pub size: i64,
    pub chunks: u64,
}

impl View for FileBrowserRow {
    type V = FileBrowserRowView;

    open spec fn view(&self) -> FileBrowserRowView {
        FileBrowserRowView {
            path: self.path@,
            mtime: self.mtime,
            size: self.size,
            chunks: self.chunks,
        }
    }
}

impl Clone for FileBrowserRow {
    fn clone(&self) -> (r: Self)
        ensures
            r@ == self@,
    {
        FileBrowserRow {
            path: self.path.clone(),
            mtime: self.mtime,
            size: self.size,
            chunks: self.chunks,
        }
    }
}

/// The models of a sequence of rows.
pub open spec fn file_row_views(s: Seq<FileBrowserRow>) -> Seq<FileBrowserRowView> {
    Seq::new(s.len(), |i: int| s[i]@)
}

/// A file as the first query for the file browser returns it.
#[derive(Debug)]
pub struct MetaRow {
    pub path: String,
    pub mtime: i64,
    pub size: i64,
}

/// The number of chunks of a file.
#[derive(Debug)]
pub struct GroupRow {
    pub file: String,
    pub count: i64,
}

/// The number of chunks that the groups give for a file: that of the last group
/// for it, zero if there is none.
pub open spec fn chunk_count(groups: Seq<GroupRow>, file: Seq<char>) -> u64
    decreases groups.len(),
{
    if groups.len() == 0 {
        0
    } else if groups.last().file@ == file {
        at_least_zero(groups.last().count)
    } else {
        chunk_count(groups.drop_last(), file)
    }
}

/// The rows of the file browser: the files in their order, each with its count.
pub open spec fn browser_rows(metas: Seq<MetaRow>, groups: Seq<GroupRow>) -> Seq<
    FileBrowserRowView,
> {
    Seq::new(
        metas.len(),
        |i: int|
            FileBrowserRowView {
                path: metas[i].path@,
                mtime: metas[i].mtime,
                size: metas[i].size,
                chunks: chunk_count(groups, metas[i].path@),
            },
    )
}

/// The statements for a bounded, alphabetically-ordered page of indexed files for
/// a repo, and for the chunk counts of all files. `limit` is hard-capped by the
/// caller. See [`join_file_rows`].
pub fn files_page(repo: &str, limit: usize) -> (r: (Statement, Statement))
    ensures
        r.0@ == statement::plain(
            "SELECT path, mtime, size FROM file_meta WHERE repo = $repo ORDER BY path LIMIT $limit"@,
            "files_page: file_meta"@,
        ).with_text("repo"@, repo@).with_int("limit"@, limit as i64),
        r.1@ == statement::plain(
            "SELECT file, count() AS count FROM chunk GROUP BY file"@,
            "files_page: chunk counts"@,
        ),
{
    let metas = Statement::new(
        "SELECT path, mtime, size FROM file_meta WHERE repo = $repo ORDER BY path LIMIT $limit",
        "files_page: file_meta",
    ).bind_text("repo", repo).bind_int("limit", limit as i64);
    let groups = Statement::new(
        "SELECT file, count() AS count FROM chunk GROUP BY file",
        "files_page: chunk counts",
    );
    (metas, groups)
}

/// Joins the files with their chunk counts.
pub fn join_file_rows(metas: &Vec<MetaRow>, groups: &Vec<GroupRow>) -> (r: Vec<FileBrowserRow>)
    ensures
        file_row_views(r@) == browser_rows(metas@, groups@),
{
    let mut counts: StringHashMap<u64> = StringHashMap::new();
    let mut g: usize = 0;
    while g < groups.len()
        invariant
            g <= groups.len(),
            forall|file: Seq<char>|
                #![trigger chunk_count(groups@.take(g as int), file)]
                #![trigger counts@.contains_key(file)]
                chunk_count(groups@.take(g as int), file) == if counts@.contains_key(file) {
                    counts@[file]
                } else {
                    0
                },
        decreases groups.len() - g,
    {
        let ghost before = counts@;
        counts.insert(groups[g].file.clone(), not_negative(groups[g].count));
        assert(groups@.take(g + 1).drop_last() =~= groups@.take(g as int));
        assert forall|file: Seq<char>|
            chunk_count(groups@.take(g + 1), file) == if counts@.contains_key(file) {
                counts@[file]
            } else {
                0
            } by {
            assert(chunk_count(groups@.take(g as int), file) == if before.contains_key(file) {
                before[file]
            } else {
                0
            });
        }
        g = g + 1;
    }
    assert(groups@.take(g as int) =~= groups@);
    let mut out: Vec<FileBrowserRow> = Vec::new();
    let mut i: usize = 0;
    while i < metas.len()
        invariant
            i <= metas.len(),
            forall|file: Seq<char>|
                #![trigger chunk_count(groups@, file)]
                chunk_count(groups@, file) == if counts@.contains_key(file) {
                    counts@[file]
                } else {
                    0
                },
            file_row_views(out@) == browser_rows(metas@, groups@).take(i as int),
        decreases metas.len() - i,
    {
        let ghost before = file_row_views(out@);
        let chunks: u64 = match counts.get(metas[i].path.as_str()) {
            Some(n) => *n,
            None => 0,
        };
        out.push(
            FileBrowserRow {
                path: metas[i].path.clone(),
                mtime: metas[i].mtime,
                size: metas[i].size,
                chunks,
            },
        );
        assert(chunks == chunk_count(groups@, metas@[i as int].path@));
        assert(file_row_views(out@) =~= before.push(browser_rows(metas@, groups@)[i as int]));
        assert(file_row_views(out@) =~= browser_rows(metas@, groups@).take(i + 1));
        i = i + 1;
    }
    assert(browser_rows(metas@, groups@).take(i as int) =~= browser_rows(metas@, groups@));
    out
}

// ─── Chunk details ───────────────────────────────────────────────────────

/// A chunk detail row (no embedding floats, only the dimension count).
#[derive(Debug)]
pub struct ChunkDetailRow {
    pub line_start: i64,
    pub line_end: i64,
    pub content: String,
    pub embedding_dim: u64,
    pub symbol: Option<String>,
}

/// The model of a [`ChunkDetailRow`].
#[verifier::ext_equal]
pub struct ChunkDetailRowView {
    pub line_start: i64,
    pub line_end: i64,
    pub content: Seq<char>,
    pub embedding_dim: u64,
    pub symbol: Option<Seq<char>>,
}

impl View for ChunkDetailRow {
    type V = ChunkDetailRowView;

    open spec fn view(&self) -> ChunkDetailRowView {
        ChunkDetailRowView {
            line_start: self.line_start,
            line_end: self.line_end,
            content: self.content@,
            embedding_dim: self.embedding_dim,
            symbol: text::text_opt(self.symbol),
        }
    }
}

impl Clone for ChunkDetailRow {
    fn clone(&self) -> (r: Self)
        ensures
            r@ == self@,
    {
        ChunkDetailRow {
            line_start: self.line_start,
            line_end: self.line_end,
            content: self.content.clone(),
            embedding_dim: self.embedding_dim,
            symbol: clone_opt(&self.symbol),
        }
    }
}

/// The models of a sequence of rows.
pub open spec fn detail_row_views(s: Seq<ChunkDetailRow>) -> Seq<ChunkDetailRowView> {
    Seq::new(s.len(), |i: int| s[i]@)
}

/// A chunk as the query returns it.
#[derive(Debug)]
pub struct ChunkRow {
    pub line_start: i64,
    pub line_end: i64,
    pub content: String,
    pub embedding_dim: i64,
    pub symbol_ref: Option<String>,
}

/// The details of the chunks that rows stand for.
pub open spec fn details_of_rows(rows: Seq<ChunkRow>) -> Seq<ChunkDetailRowView> {
    Seq::new(
        rows.len(),
        |i: int|
            ChunkDetailRowView {
                line_start: rows[i].line_start,
                line_end: rows[i].line_end,
                content: rows[i].content@,
                embedding_dim: at_least_zero(rows[i].embedding_dim),
                symbol: match rows[i].symbol_ref {
                    Some(s) => name_in_ref(s@),
                    None => None,
                },
            },
    )
}

/// Return the chunks for a single file, ordered by line, bounded by `limit`. See
/// [`chunk_details`].
pub fn chunks_for_file(file: &str, limit: usize) -> (r: Statement)
    ensures
        r@ == statement::plain(
            "SELECT line_start, line_end, content, array::len(embedding) AS embedding_dim, symbol_ref FROM chunk WHERE file = $file ORDER BY line_start LIMIT $limit"@,
            "chunks_for_file"@,
        ).with_text("file"@, file@).with_int("limit"@, limit as i64),
{
    Statement::new(
        "SELECT line_start, line_end, content, array::len(embedding) AS embedding_dim, symbol_ref FROM chunk WHERE file = $file ORDER BY line_start LIMIT $limit",
        "chunks_for_file",
    ).bind_text("file", file).bind_int("limit", limit as i64)
}

/// The details of the chunks that rows stand for.
pub fn chunk_details(rows: &Vec<ChunkRow>) -> (r: Vec<ChunkDetailRow>)
    ensures
        detail_row_views(r@) == details_of_rows(rows@),
{
    let mut out: Vec<ChunkDetailRow> = Vec::new();
    let mut i: usize = 0;
    while i < rows.len()
        invariant
            i <= rows.len(),
            detail_row_views(out@) == details_of_rows(rows@).take(i as int),
        decreases rows.len() - i,
    {
        let ghost before = detail_row_views(out@);
        let symbol = match &rows[i].symbol_ref {
            Some(s) => strip_symbol_ref(s.as_str()),
            None => None,
        };
        out.push(
            ChunkDetailRow {
                line_start: rows[i].line_start,
                line_end: rows[i].line_end,
                content: rows[i].content.clone(),
                embedding_dim: not_negative(rows[i].embedding_dim),
                symbol,
            },
        );
        assert(detail_row_views(out@) =~= before.push(details_of_rows(rows@)[i as int]));
        assert(detail_row_views(out@) =~= details_of_rows(rows@).take(i + 1));
        i = i + 1;
    }
    assert(details_of_rows(rows@).take(i as int) =~= details_of_rows(rows@));
    out
}

/// What follows the last `::` in `s`; all of it if there is none.
pub open spec fn last_segment(s: Seq<char>) -> Seq<char>
    decreases s.len(),
{
    if s.len() == 0 || text::has_suffix(s, "::"@) {
        seq![]
    } else {
        last_segment(s.drop_last()).push(s.last())
    }
}

/// The symbol name in a stored reference.
pub open spec fn name_in_ref(s: Seq<char>) -> Option<Seq<char>> {
    let opening = "symbol:⟨"@;
    let closing = "⟩"@;
    if text::has_prefix(s, opening) && text::has_suffix(s.skip(opening.len() as int), closing) {
        Some(last_segment(s.subrange(opening.len() as int, s.len() - closing.len())))
    } else {
        None
    }
}

/// Strip the stored `symbol:⟨fqn⟩` wrapper and return just the symbol name.
pub fn strip_symbol_ref(s: &str) -> (r: Option<String>)
    ensures
        text::text_opt(r) == name_in_ref(s@),
{
    let v = to_chars(s);
    let opening = to_chars("symbol:⟨");
    let closing = to_chars("⟩");
    let separator = to_chars("::");
    if !matches_at(&v, &opening, 0) {
        return None;
    }
    if v.len() - opening.len() < closing.len() {
        assert(!text::has_suffix(s@.skip(opening@.len() as int), closing@));
        return None;
    }
    let to: usize = v.len() - closing.len();
    let closed = matches_at(&v, &closing, to);
    proof {
        let rest = s@.skip(opening@.len() as int);
        assert(rest.subrange(rest.len() - closing@.len(), rest.len() as int) =~= s@.subrange(
            to as int,
            s@.len() as int,
        ));
    }
    if !closed {
        return None;
    }
    let from: usize = opening.len();
    let mut start: usize = to;
    let ghost fqn = s@.subrange(from as int, to as int);
    assert(fqn.take(to - from) =~= fqn);
    assert(s@.subrange(to as int, to as int) =~= seq![]);
    assert(last_segment(fqn) =~= last_segment(fqn.take(start - from)) + s@.subrange(
        start as int,
        to as int,
    ));
    while from < start && !(start - from >= separator.len() && matches_at(
        &v,
        &separator,
        start - separator.len(),
    ))
        invariant
            from <= start <= to <= v.len(),
            v@ == s@,
            separator@ == "::"@,
            fqn == s@.subrange(from as int, to as int),
            last_segment(fqn) == last_segment(fqn.take(start - from)) + s@.subrange(
                start as int,
                to as int,
            ),
        decreases start,
    {
        proof {
            let front = fqn.take(start - from);
            if separator@.len() <= front.len() {
                assert(front.subrange(front.len() - separator@.len(), front.len() as int)
                    =~= s@.subrange(start - separator@.len(), start as int));
            }
            assert(!text::has_suffix(front, "::"@));
            assert(front.drop_last() =~= fqn.take(start - from - 1));
            assert(last_segment(front) =~= last_segment(front.drop_last()).push(front.last()));
            assert(last_segment(fqn) =~= last_segment(front.drop_last()) + s@.subrange(
                start - 1,
                to as int,
            ));
        }
        start = start - 1;
    }
    proof {
        let front = fqn.take(start - from);
        if from < start {
            assert(front.subrange(front.len() - separator@.len(), front.len() as int)
                =~= s@.subrange(start - separator@.len(), start as int));
            assert(text::has_suffix(front, "::"@));
        }
        assert(last_segment(front) =~= seq![]);
        assert(last_segment(fqn) =~= s@.subrange(start as int, to as int));
    }
    Some(from_chars(&v, start, to))
}

// ─── Call graph ──────────────────────────────────────────────────────────

/// A node in the call graph (one symbol).
#[derive(Debug)]
pub struct GraphNode {
    pub id: String,
    pub name: String,
    pub kind: String,
    pub file: String,
    pub line_start: i64,
    pub line_end: i64,
}

/// The model of a [`GraphNode`].
#[verifier::ext_equal]
pub struct GraphNodeView {
    pub id: Seq<char>,
    pub name: Seq<char>,
    pub kind: Seq<char>,
    pub file: Seq<char>,
    pub line_start: i64,
    pub line_end: i64,
}

impl View for GraphNode {
    type V = GraphNodeView;

    open spec fn view(&self) -> GraphNodeView {
        GraphNodeView {
            id: self.id@,
            name: self.name@,
            kind: self.kind@,
            file: self.file@,
            line_start: self.line_start,
            line_end: self.line_end,
        }
    }
}

impl Clone for GraphNode {
    fn clone(&self) -> (r: Self)
        ensures
            r@ == self@,
    {
        GraphNode {
            id: self.id.clone(),
            name: self.name.clone(),
            kind: self.kind.clone(),
            file: self.file.clone(),
            line_start: self.line_start,
            line_end: self.line_end,
        }
    }
}

/// An edge in the call graph (caller → callee).
#[derive(Debug)]
pub struct GraphEdge {
    pub source: String,
    pub target: String,
}

/// The model of a [`GraphEdge`].
#[verifier::ext_equal]
pub struct GraphEdgeView {
    pub source: Seq<char>,
    pub target: Seq<char>,
}

impl View for GraphEdge {
    type V = GraphEdgeView;

    open spec fn view(&self) -> GraphEdgeView {
        GraphEdgeView { source: self.source@, target: self.target@ }
    }
}

impl Clone for GraphEdge {
    fn clone(&self) -> (r: Self)
        ensures
            r@ == self@,
    {
        GraphEdge { source: self.source.clone(), target: self.target.clone() }
    }
}

/// The call graph payload: nodes + edges, both bounded.
#[derive(Debug)]
pub struct CallGraph {
    pub nodes: Vec<GraphNode>,
    pub edges: Vec<GraphEdge>,
    /// True if the result was capped (more edges/symbols exist in the index).
    pub truncated: bool,
}

/// The model of a [`CallGraph`].
#[verifier::ext_equal]
pub struct CallGraphView {
    pub nodes: Seq<GraphNodeView>,
    pub edges: Seq<GraphEdgeView>,
    pub truncated: bool,
}

/// The models of a sequence of nodes.
pub open spec fn node_views(s: Seq<GraphNode>) -> Seq<GraphNodeView> {
    Seq::new(s.len(), |i: int| s[i]@)
}

/// The models of a sequence of edges.
pub open spec fn graph_edge_views(s: Seq<GraphEdge>) -> Seq<GraphEdgeView> {
    Seq::new(s.len(), |i: int| s[i]@)
}

impl View for CallGraph {
    type V = CallGraphView;

    open spec fn view(&self) -> CallGraphView {
        CallGraphView {
            nodes: node_views(self.nodes@),
            edges: graph_edge_views(self.edges@),
            truncated: self.truncated,
        }
    }
}

/// A call as the query returns it, with the metadata of the symbols at its ends. A
/// name is missing where the symbol is gone.
#[derive(Debug)]
pub struct EdgeRow {
    pub in_name: Option<String>,
    pub in_kind: Option<String>,
    pub in_line_start: Option<i64>,
    pub in_line_end: Option<i64>,
    pub in_file: String,
    pub out_name: Option<String>,
    pub out_kind: Option<String>,
    pub out_line_start: Option<i64>,
    pub out_line_end: Option<i64>,
    pub out_file: String,
}

/// The identifier of the symbol `name` in `file`.
pub open spec fn node_id(file: Seq<char>, name: Seq<char>) -> Seq<char> {
    file + "::"@ + name
}

fn make_node_id(file: &str, name: &str) -> (r: String)
    ensures
        r@ == node_id(file@, name@),
{
    let mut out = file.to_owned();
    out.append("::");
    out.append(name);
    out
}

fn text_or_empty(o: &Option<String>) -> (r: String)
    ensures
        r@ == match text::text_opt(*o) {
            Some(t) => t,
            None => seq![],
        },
{
    match o {
        Some(t) => t.clone(),
        None => {
            let empty = String::new();
            assert(empty@ =~= seq![]);
            empty
        },
    }
}

fn line_or_zero(o: &Option<i64>) -> (r: i64)
    ensures
        r == match *o {
            Some(n) => n,
            None => 0,
        },
{
    match o {
        Some(n) => *n,
        None => 0,
    }
}

/// The node for a symbol at the end of a call, if the symbol is still there.
pub open spec fn end_node(
    file: Seq<char>,
    name: Option<Seq<char>>,
    kind: Option<Seq<char>>,
    line_start: Option<i64>,
    line_end: Option<i64>,
) -> Option<GraphNodeView> {
    match name {
        Some(n) => Some(
            GraphNodeView {
                id: node_id(file, n),
                name: n,
                kind: match kind {
                    Some(k) => k,
                    None => seq![],
                },
                file,
                line_start: match line_start {
                    Some(l) => l,
                    None => 0,
                },
                line_end: match line_end {
                    Some(l) => l,
                    None => 0,
                },
            },
        ),
        None => None,
    }
}

/// The node for the caller.
pub open spec fn caller_node(row: EdgeRow) -> Option<GraphNodeView> {
    end_node(
        row.in_file@,
        text::text_opt(row.in_name),
        text::text_opt(row.in_kind),
        row.in_line_start,
        row.in_line_end,
    )
}

/// The node for the callee.
pub open spec fn callee_node(row: EdgeRow) -> Option<GraphNodeView> {
    end_node(
        row.out_file@,
        text::text_opt(row.out_name),
        text::text_opt(row.out_kind),
        row.out_line_start,
        row.out_line_end,
    )
}

/// Whether a node has the identifier `id`.
pub open spec fn has_id(nodes: Seq<GraphNodeView>, id: Seq<char>) -> bool {
    exists|i: int| 0 <= i < nodes.len() && (#[trigger] nodes[i]).id == id
}

/// `nodes` with one more, unless there is none or its identifier is taken.
pub open spec fn with_node(
    nodes: Seq<GraphNodeView>,
    node: Option<GraphNodeView>,
) -> Seq<GraphNodeView> {
    match node {
        Some(n) => if has_id(nodes, n.id) {
            nodes
        } else {
            nodes.push(n)
        },
        None => nodes,
    }
}

/// The symbols that the calls touch, each once, in the order in which the calls
/// reach them: the caller before the callee.
pub open spec fn touched(rows: Seq<EdgeRow>) -> Seq<GraphNodeView>
    decreases rows.len(),
{
    if rows.len() == 0 {
        seq![]
    } else {
        with_node(
            with_node(touched(rows.drop_last()), caller_node(rows.last())),
            callee_node(rows.last()),
        )
    }
}

/// The first `limit` of a list, or all of it if it has no more.
pub open spec fn first_of<A>(s: Seq<A>, limit: nat) -> Seq<A> {
    if s.len() > limit {
        s.take(limit as int)
    } else {
        s
    }
}

/// The edge for a call, if both of its ends are nodes.
pub open spec fn edge_of(row: EdgeRow, nodes: Seq<GraphNodeView>) -> Option<GraphEdgeView> {
    match (caller_node(row), callee_node(row)) {
        (Some(caller), Some(callee)) => if has_id(nodes, caller.id) && has_id(nodes, callee.id) {
            Some(GraphEdgeView { source: caller.id, target: callee.id })
        } else {
            None
        },
        _ => None,
    }
}

/// The edges for calls, in order.
pub open spec fn edges_of(rows: Seq<EdgeRow>, nodes: Seq<GraphNodeView>) -> Seq<GraphEdgeView>
    decreases rows.len(),
{
    if rows.len() == 0 {
        seq![]
    } else {
        let before = edges_of(rows.drop_last(), nodes);
        match edge_of(rows.last(), nodes) {
            Some(edge) => before.push(edge),
            None => before,
        }
    }
}

/// The call graph: of the calls that came, the first `edge_limit` are taken; of the
/// symbols that those touch, the first `node_limit`. It is truncated if that
/// leaves a call or a symbol out.
pub open spec fn graph_of(rows: Seq<EdgeRow>, edge_limit: nat, node_limit: nat) -> CallGraphView {
    let taken = first_of(rows, edge_limit);
    let symbols = touched(taken);
    let nodes = first_of(symbols, node_limit);
    CallGraphView {
        nodes,
        edges: edges_of(taken, nodes),
        truncated: rows.len() > edge_limit || symbols.len() > node_limit,
    }
}

/// The limit of a query that is to show whether there is more: one row more.
pub open spec fn one_more(limit: usize) -> i64 {
    if limit < i64::MAX {
        (limit + 1) as i64
    } else {
        i64::MAX
    }
}

/// The statement for a bounded node-link view of the `calls` relation: up to
/// `edge_limit` call edges and one more, which shows whether the result is
/// capped, with the metadata of the symbols they touch. See [`build_call_graph`].
pub fn call_graph(edge_limit: usize) -> (r: Statement)
    ensures
        r@ == statement::plain(
            "SELECT in.name AS in_name, in.kind AS in_kind, in.line_start AS in_line_start, in.line_end AS in_line_end, in_file, out.name AS out_name, out.kind AS out_kind, out.line_start AS out_line_start, out.line_end AS out_line_end, out_file FROM calls LIMIT $limit"@,
            "call_graph: edges"@,
        ).with_int("limit"@, one_more(edge_limit)),
{
    let limit: i64 = if edge_limit as u64 >= 0x7fff_ffff_ffff_ffff {
        i64::MAX
    } else {
        (edge_limit as u64 + 1) as i64
    };
    Statement::new(
        "SELECT in.name AS in_name, in.kind AS in_kind, in.line_start AS in_line_start, in.line_end AS in_line_end, in_file, out.name AS out_name, out.kind AS out_kind, out.line_start AS out_line_start, out.line_end AS out_line_end, out_file FROM calls LIMIT $limit",
        "call_graph: edges",
    ).bind_int("limit", limit)
}

fn make_end(
    file: &str,
    name: &Option<String>,
    kind: &Option<String>,
    line_start: &Option<i64>,
    line_end: &Option<i64>,
) -> (r: Option<GraphNode>)
    ensures
        (match r {
            Some(n) => Some(n@),
            None => None,
        }) == end_node(
            file@,
            text::text_opt(*name),
            text::text_opt(*kind),
            *line_start,
            *line_end,
        ),
{
    match name {
        Some(n) => Some(
            GraphNode {
                id: make_node_id(file, n.as_str()),
                name: n.clone(),
                kind: text_or_empty(kind),
                file: file.to_owned(),
                line_start: line_or_zero(line_start),
                line_end: line_or_zero(line_end),
            },
        ),
        None => None,
    }
}

fn make_caller(row: &EdgeRow) -> (r: Option<GraphNode>)
    ensures
        (match r {
            Some(n) => Some(n@),
            None => None,
        }) == caller_node(*row),
{
    make_end(
        row.in_file.as_str(),
        &row.in_name,
        &row.in_kind,
        &row.in_line_start,
        &row.in_line_end,
    )
}

fn make_callee(row: &EdgeRow) -> (r: Option<GraphNode>)
    ensures
        (match r {
            Some(n) => Some(n@),
            None => None,
        }) == callee_node(*row),
{
    make_end(
        row.out_file.as_str(),
        &row.out_name,
        &row.out_kind,
        &row.out_line_start,
        &row.out_line_end,
    )
}

/// Whether `ids` holds the identifiers of the nodes and nothing else.
spec fn ids_of(ids: Set<Seq<char>>, nodes: Seq<GraphNodeView>) -> bool {
    forall|id: Seq<char>| #[trigger] ids.contains(id) == has_id(nodes, id)
}

fn add_node(nodes: &mut Vec<GraphNode>, ids: &mut StringHashSet, node: Option<GraphNode>)
    requires
        ids_of(old(ids)@, node_views(old(nodes)@)),
    ensures
        node_views(final(nodes)@) == with_node(
            node_views(old(nodes)@),
            match node {
                Some(n) => Some(n@),
                None => None,
            },
        ),
        ids_of(final(ids)@, node_views(final(nodes)@)),
{
    if let Some(n) = node {
        let ghost before = node_views(nodes@);
        let ghost view = n@;
        let fresh = ids.insert(n.id.clone());
        if fresh {
            nodes.push(n);
            assert(node_views(nodes@) =~= before.push(view));
        }
        assert forall|id: Seq<char>| #[trigger]
            ids@.contains(id) == has_id(node_views(nodes@), id) by {
            lemma_has_id_push(before, view, id);
        }
    }
}

/// Builds the call graph out of the rows that came.
///
/// Strategy: take up to `edge_limit` call edges, collect the symbols they touch
/// (capped at `node_limit`), then emit the induced subgraph. Edges referencing a
/// symbol that was dropped by the node cap are themselves dropped, so the graph
/// is always internally consistent.
pub fn build_call_graph(rows: &Vec<EdgeRow>, edge_limit: usize, node_limit: usize) -> (r:
    CallGraph)
    ensures
        r@ == graph_of(rows@, edge_limit as nat, node_limit as nat),
{
    let taken: usize = if rows.len() > edge_limit {
        edge_limit
    } else {
        rows.len()
    };
    let ghost used = first_of(rows@, edge_limit as nat);
    let mut nodes: Vec<GraphNode> = Vec::new();
    let mut seen: StringHashSet = StringHashSet::new();
    let mut i: usize = 0;
    assert(used.len() == taken);
    assert(node_views(nodes@) =~= touched(used.take(0)));
    while i < taken
        invariant
            i <= taken <= rows.len(),
            used == first_of(rows@, edge_limit as nat),
            used.len() == taken,
            node_views(nodes@) == touched(used.take(i as int)),
            ids_of(seen@, node_views(nodes@)),
        decreases taken - i,
    {
        assert(used.take(i + 1).drop_last() =~= used.take(i as int));
        assert(used[i as int] == rows@[i as int]);
        add_node(&mut nodes, &mut seen, make_caller(&rows[i]));
        add_node(&mut nodes, &mut seen, make_callee(&rows[i]));
        i = i + 1;
    }
    assert(used.take(i as int) =~= used);
    let truncated = rows.len() > edge_limit || nodes.len() > node_limit;
    let ghost symbols = node_views(nodes@);
    nodes.truncate(node_limit);
    assert(node_views(nodes@) =~= first_of(symbols, node_limit as nat));

    let mut kept: StringHashSet = StringHashSet::new();
    let mut n: usize = 0;
    assert(node_views(nodes@).take(0) =~= seq![]);
    while n < nodes.len()
        invariant
            n <= nodes.len(),
            ids_of(kept@, node_views(nodes@).take(n as int)),
        decreases nodes.len() - n,
    {
        let ghost before = node_views(nodes@).take(n as int);
        let ghost node = node_views(nodes@)[n as int];
        assert(node_views(nodes@).take(n + 1) =~= before.push(node));
        let _ = kept.insert(nodes[n].id.clone());
        assert forall|id: Seq<char>| #[trigger]
            kept@.contains(id) == has_id(node_views(nodes@).take(n + 1), id) by {
            lemma_has_id_push(before, node, id);
        }
        n = n + 1;
    }
    assert(node_views(nodes@).take(n as int) =~= node_views(nodes@));

    let mut edges: Vec<GraphEdge> = Vec::new();
    let mut k: usize = 0;
    assert(graph_edge_views(edges@) =~= edges_of(used.take(0), node_views(nodes@)));
    while k < taken
        invariant
            k <= taken <= rows.len(),
            used == first_of(rows@, edge_limit as nat),
            used.len() == taken,
            ids_of(kept@, node_views(nodes@)),
            graph_edge_views(edges@) == edges_of(used.take(k as int), node_views(nodes@)),
        decreases taken - k,
    {
        let ghost before = graph_edge_views(edges@);
        assert(used.take(k + 1).drop_last() =~= used.take(k as int));
        assert(used[k as int] == rows@[k as int]);
        if let (Some(caller), Some(callee)) = (make_caller(&rows[k]), make_callee(&rows[k])) {
            if kept.contains(caller.id.as_str()) && kept.contains(callee.id.as_str()) {
                let ghost edge = GraphEdgeView { source: caller.id@, target: callee.id@ };
                edges.push(GraphEdge { source: caller.id, target: callee.id });
                assert(graph_edge_views(edges@) =~= before.push(edge));
            }
        }
        k = k + 1;
    }
    assert(used.take(k as int) =~= used);
    CallGraph { nodes, edges, truncated }
}

proof fn lemma_has_id_push(nodes: Seq<GraphNodeView>, node: GraphNodeView, id: Seq<char>)
    ensures
        has_id(nodes.push(node), id) == (has_id(nodes, id) || node.id == id),
{
    let more = nodes.push(node);
    if has_id(nodes, id) {
        let i = choose|i: int| 0 <= i < nodes.len() && (#[trigger] nodes[i]).id == id;
        assert(more[i].id == id);
    }
    if node.id == id {
        assert(more[nodes.len() as int].id == id);
    }
    if has_id(more, id) {
        let i = choose|i: int| 0 <= i < more.len() && (#[trigger] more[i]).id == id;
        if i < nodes.len() {
            assert(nodes[i].id == id);
        }
    }
}

/// Whether the identifiers of the nodes differ.
pub open spec fn distinct(nodes: Seq<GraphNodeView>) -> bool {
    forall|i: int, j: int|
        0 <= i < j < nodes.len() ==> (#[trigger] nodes[i]).id != (#[trigger] nodes[j]).id
}

/// Whether a call has the symbol `id` at one of its ends.
pub open spec fn touches(row: EdgeRow, id: Seq<char>) -> bool {
    (caller_node(row) matches Some(n) && n.id == id) || (callee_node(row) matches Some(n) && n.id
        == id)
}

proof fn lemma_with_node(nodes: Seq<GraphNodeView>, node: Option<GraphNodeView>)
    requires
        distinct(nodes),
    ensures
        distinct(with_node(nodes, node)),
        forall|id: Seq<char>| #[trigger]
            has_id(with_node(nodes, node), id) == (has_id(nodes, id) || (node matches Some(n)
                && n.id == id)),
{
    if let Some(n) = node {
        assert forall|id: Seq<char>| #[trigger]
            has_id(with_node(nodes, node), id) == (has_id(nodes, id) || n.id == id) by {
            lemma_has_id_push(nodes, n, id);
        }
        assert forall|i: int, j: int|
            0 <= i < j < with_node(nodes, node).len() implies (#[trigger] with_node(
            nodes,
            node,
        )[i]).id != (#[trigger] with_node(nodes, node)[j]).id by {
            if !has_id(nodes, n.id) && j == nodes.len() {
                assert(nodes[i].id != n.id);
            }
        }
    }
}

/// The symbols that calls touch are those at their ends, no two of them the same.
pub proof fn law_touched_symbols_are_the_ends(rows: Seq<EdgeRow>)
    ensures
        distinct(touched(rows)),
        forall|id: Seq<char>| #[trigger]
            has_id(touched(rows), id) <==> exists|k: int|
                0 <= k < rows.len() && touches(#[trigger] rows[k], id),
    decreases rows.len(),
{
    if rows.len() > 0 {
        let front = rows.drop_last();
        let last = rows.last();
        law_touched_symbols_are_the_ends(front);
        let mid = with_node(touched(front), caller_node(last));
        lemma_with_node(touched(front), caller_node(last));
        lemma_with_node(mid, callee_node(last));
        assert forall|id: Seq<char>| #[trigger]
            has_id(touched(rows), id) <==> exists|k: int|
            0 <= k < rows.len() && touches(#[trigger] rows[k], id) by {
            assert(has_id(touched(rows), id) == (has_id(mid, id) || (callee_node(
                last,
            ) matches Some(n) && n.id == id)));
            assert(has_id(touched(rows), id) == (has_id(touched(front), id) || touches(last, id)));
            if has_id(touched(front), id) {
                let k = choose|k: int| 0 <= k < front.len() && touches(#[trigger] front[k], id);
                assert(touches(rows[k], id));
            }
            if touches(last, id) {
                assert(touches(rows[rows.len() - 1], id));
            }
            if exists|k: int| 0 <= k < rows.len() && touches(#[trigger] rows[k], id) {
                let k = choose|k: int| 0 <= k < rows.len() && touches(#[trigger] rows[k], id);
                if k < front.len() {
                    assert(touches(front[k], id));
                }
            }
        }
    }
}

/// The nodes of a call graph are the symbols that the taken calls touch, up to the
/// cap: every node is at an end of a taken call, no two are the same symbol, and a
/// touched symbol is missing only where there are as many nodes as allowed.
pub proof fn law_nodes_are_the_touched_symbols(
    rows: Seq<EdgeRow>,
    edge_limit: nat,
    node_limit: nat,
)
    ensures
        distinct(graph_of(rows, edge_limit, node_limit).nodes),
        graph_of(rows, edge_limit, node_limit).nodes.len() <= node_limit,
        forall|i: int|
            0 <= i < graph_of(rows, edge_limit, node_limit).nodes.len() ==> exists|k: int|
                0 <= k < first_of(rows, edge_limit).len() && touches(
                    #[trigger] first_of(rows, edge_limit)[k],
                    (#[trigger] graph_of(rows, edge_limit, node_limit).nodes[i]).id,
                ),
        forall|k: int, id: Seq<char>|
            0 <= k < first_of(rows, edge_limit).len() && #[trigger] touches(
                first_of(rows, edge_limit)[k],
                id,
            ) && !has_id(graph_of(rows, edge_limit, node_limit).nodes, id) ==> graph_of(
                rows,
                edge_limit,
                node_limit,
            ).nodes.len() == node_limit && graph_of(rows, edge_limit, node_limit).truncated,
{
    let taken = first_of(rows, edge_limit);
    let symbols = touched(taken);
    let nodes = graph_of(rows, edge_limit, node_limit).nodes;
    law_touched_symbols_are_the_ends(taken);
    assert forall|i: int| 0 <= i < nodes.len() implies exists|k: int|
        0 <= k < taken.len() && touches(#[trigger] taken[k], (#[trigger] nodes[i]).id) by {
        assert(symbols[i] == nodes[i]);
        assert(has_id(symbols, nodes[i].id));
    }
    assert forall|k: int, id: Seq<char>|
        0 <= k < taken.len() && #[trigger] touches(taken[k], id) && !has_id(
            nodes,
            id,
        ) implies nodes.len() == node_limit && symbols.len() > node_limit by {
        assert(has_id(symbols, id));
        if symbols.len() <= node_limit {
            assert(nodes == symbols);
        }
    }
}

/// A call graph is internally consistent: both ends of every edge are nodes.
pub proof fn law_graph_is_consistent(rows: Seq<EdgeRow>, nodes: Seq<GraphNodeView>)
    ensures
        edges_of(rows, nodes).len() <= rows.len(),
        forall|k: int|
            0 <= k < edges_of(rows, nodes).len() ==> has_id(
                nodes,
                (#[trigger] edges_of(rows, nodes)[k]).source,
            ) && has_id(nodes, edges_of(rows, nodes)[k].target),
    decreases rows.len(),
{
    if rows.len() > 0 {
        law_graph_is_consistent(rows.drop_last(), nodes);
    }
}

/// A call graph holds the induced subgraph: every call between two nodes is an
/// edge of it.
pub proof fn law_graph_holds_every_call(rows: Seq<EdgeRow>, nodes: Seq<GraphNodeView>, k: int)
    requires
        0 <= k < rows.len(),
        edge_of(rows[k], nodes) is Some,
    ensures
        edges_of(rows, nodes).contains(edge_of(rows[k], nodes)->0),
    decreases rows.len(),
{
    let edge = edge_of(rows[k], nodes)->0;
    let before = edges_of(rows.drop_last(), nodes);
    let all = edges_of(rows, nodes);
    if k < rows.len() - 1 {
        law_graph_holds_every_call(rows.drop_last(), nodes, k);
        let i = choose|i: int| 0 <= i < before.len() && before[i] == edge;
        assert(all[i] == edge);
    } else {
        assert(all[all.len() - 1] == edge);
    }
}

/// A call graph is truncated exactly where something was left out: `calls` are all
/// calls there are, of which the query returns as many as it was allowed to.
pub proof fn law_truncated_means_that_more_exist(
    calls: Seq<EdgeRow>,
    edge_limit: usize,
    node_limit: nat,
)
    requires
        edge_limit < i64::MAX,
    ensures
        graph_of(
            first_of(calls, one_more(edge_limit) as nat),
            edge_limit as nat,
            node_limit,
        ).truncated <==> calls.len() > edge_limit || touched(
            first_of(calls, edge_limit as nat),
        ).len() > node_limit,
{
    let rows = first_of(calls, one_more(edge_limit) as nat);
    assert(first_of(rows, edge_limit as nat) =~= first_of(calls, edge_limit as nat));
}

// ─── Laws of references ──────────────────────────────────────────────────

proof fn lemma_last_segment(front: Seq<char>, name: Seq<char>)
    requires
        !text::occurs(name, "::"@),
        name.len() > 0 ==> name[0] != ':',
    ensures
        last_segment(front + "::"@ + name) == name,
    decreases name.len(),
{
    reveal_strlit("::");
    let s = front + "::"@ + name;
    if name.len() == 0 {
        assert(s.subrange(s.len() - 2, s.len() as int) =~= "::"@);
        assert(last_segment(s) =~= name);
    } else {
        let short = name.drop_last();
        assert(s.drop_last() =~= front + "::"@ + short);
        assert(!text::occurs(short, "::"@)) by {
            if text::occurs(short, "::"@) {
                let i = choose|i: int| text::stands_at(short, "::"@, i);
                assert(name.subrange(i, i + 2) =~= short.subrange(i, i + 2));
                assert(text::stands_at(name, "::"@, i));
            }
        }
        lemma_last_segment(front, short);
        assert(!text::has_suffix(s, "::"@)) by {
            let end = s.subrange(s.len() - 2, s.len() as int);
            if end == "::"@ {
                assert(end[1] == name.last());
                if name.len() == 1 {
                    assert(end[1] == name[0]);
                } else {
                    assert(name.subrange(name.len() - 2, name.len() as int) =~= end);
                    assert(text::stands_at(name, "::"@, name.len() - 2));
                }
            }
        }
        assert(last_segment(s) =~= short.push(name.last()));
        assert(short.push(name.last()) =~= name);
    }
}

/// The name of a symbol is read back out of the reference that it is stored
/// under, unless the name itself holds the separator or runs into it.
pub proof fn law_name_reads_back(q: QualifiedSymbolView)
    requires
        !text::occurs(q.name, "::"@),
        q.name.len() > 0 ==> q.name[0] != ':',
    ensures
        name_in_ref(q.record_id()) == Some(q.name),
{
    let opening = "symbol:⟨"@;
    let closing = "⟩"@;
    let parts = seq![q.file] + q.scope_path;
    assert((parts + seq![q.name]).drop_last() =~= parts);
    let fqn = q.fqn();
    assert(fqn == text::join(parts, "::"@) + "::"@ + q.name);
    lemma_last_segment(text::join(parts, "::"@), q.name);
    let s = q.record_id();
    assert(s.subrange(0, opening.len() as int) =~= opening);
    let rest = s.skip(opening.len() as int);
    assert(rest.subrange(rest.len() - closing.len(), rest.len() as int) =~= closing);
    assert(s.subrange(opening.len() as int, s.len() - closing.len()) =~= fqn);
}

/// A call between two nodes is an edge of the graph: where both symbols of one of the
/// taken calls are still there and both are nodes, under their file and name, the
/// graph leads from the one to the other.
pub proof fn law_call_between_nodes_is_an_edge(
    rows: Seq<EdgeRow>,
    edge_limit: nat,
    node_limit: nat,
    k: int,
    caller: Seq<char>,
    callee: Seq<char>,
    i: int,
    j: int,
)
    requires
        0 <= k < rows.len(),
        k < edge_limit,
        text::text_opt(rows[k].in_name) == Some(caller),
        text::text_opt(rows[k].out_name) == Some(callee),
        0 <= i < graph_of(rows, edge_limit, node_limit).nodes.len(),
        0 <= j < graph_of(rows, edge_limit, node_limit).nodes.len(),
        graph_of(rows, edge_limit, node_limit).nodes[i].id == rows[k].in_file@ + "::"@ + caller,
        graph_of(rows, edge_limit, node_limit).nodes[j].id == rows[k].out_file@ + "::"@ + callee,
    ensures
        graph_of(rows, edge_limit, node_limit).edges.contains(
            GraphEdgeView {
                source: rows[k].in_file@ + "::"@ + caller,
                target: rows[k].out_file@ + "::"@ + callee,
            },
        ),
{
    let taken = first_of(rows, edge_limit);
    let nodes = graph_of(rows, edge_limit, node_limit).nodes;
    assert(taken[k] == rows[k]);
    assert(has_id(nodes, rows[k].in_file@ + "::"@ + caller));
    assert(has_id(nodes, rows[k].out_file@ + "::"@ + callee));
    law_graph_holds_every_call(taken, nodes, k);
}

/// Every edge of a call graph is one of the taken calls, from its caller to its
/// callee, both of which are nodes.
pub proof fn law_every_edge_is_a_call(
    rows: Seq<EdgeRow>,
    edge_limit: nat,
    node_limit: nat,
    e: GraphEdgeView,
)
    requires
        graph_of(rows, edge_limit, node_limit).edges.contains(e),
    ensures
        exists|k: int|
            0 <= k < rows.len() && k < edge_limit && text::text_opt(
                (#[trigger] rows[k]).in_name,
            ) is Some && text::text_opt(rows[k].out_name) is Some && e.source == rows[k].in_file@
                + "::"@ + text::text_opt(rows[k].in_name)->0 && e.target == rows[k].out_file@
                + "::"@ + text::text_opt(rows[k].out_name)->0,
        has_id(graph_of(rows, edge_limit, node_limit).nodes, e.source),
        has_id(graph_of(rows, edge_limit, node_limit).nodes, e.target),
{
    let taken = first_of(rows, edge_limit);
    let nodes = graph_of(rows, edge_limit, node_limit).nodes;
    lemma_edge_comes_from_a_call(taken, nodes, e);
    let k = choose|k: int|
        0 <= k < taken.len() && #[trigger] edge_of(taken[k], nodes) == Some(e);
    assert(taken[k] == rows[k]);
}

proof fn lemma_edge_comes_from_a_call(
    rows: Seq<EdgeRow>,
    nodes: Seq<GraphNodeView>,
    e: GraphEdgeView,
)
    requires
        edges_of(rows, nodes).contains(e),
    ensures
        exists|k: int| 0 <= k < rows.len() && #[trigger] edge_of(rows[k], nodes) == Some(e),
    decreases rows.len(),
{
    if rows.len() > 0 {
        let front = rows.drop_last();
        let before = edges_of(front, nodes);
        let all = edges_of(rows, nodes);
        let i = choose|i: int| 0 <= i < all.len() && all[i] == e;
        if i < before.len() {
            assert(before[i] == e);
            assert(before.contains(e));
            lemma_edge_comes_from_a_call(front, nodes, e);
            let k = choose|k: int|
                0 <= k < front.len() && #[trigger] edge_of(front[k], nodes) == Some(e);
            assert(edge_of(rows[k], nodes) == Some(e));
        } else {
            assert(edge_of(rows[rows.len() - 1], nodes) == Some(e));
        }
    }
}

/// The edges stand in the order of the calls, one for each call at most.
pub proof fn law_edges_follow_the_calls(
    a: Seq<EdgeRow>,
    b: Seq<EdgeRow>,
    nodes: Seq<GraphNodeView>,
)
    ensures
        edges_of(a + b, nodes) == edges_of(a, nodes) + edges_of(b, nodes),
        a.len() == 0 ==> edges_of(a, nodes).len() == 0,
        a.len() == 1 ==> edges_of(a, nodes).len() <= 1,
    decreases b.len(),
{
    if b.len() == 0 {
        assert(a + b =~= a);
    } else {
        law_edges_follow_the_calls(a, b.drop_last(), nodes);
        assert((a + b).drop_last() =~= a + b.drop_last());
    }
    assert(edges_of(a + b, nodes) =~= edges_of(a, nodes) + edges_of(b, nodes));
    if a.len() == 1 {
        assert(a.drop_last() =~= seq![]);
        assert(edges_of(a.drop_last(), nodes) =~= seq![]);
    }
}

/// Whether a node describes the symbol at the start of a call.
pub open spec fn describes_caller(node: GraphNodeView, row: EdgeRow) -> bool {
    &&& text::text_opt(row.in_name) == Some(node.name)
    &&& node.file == row.in_file@
    &&& node.id == row.in_file@ + "::"@ + node.name
    &&& text::text_opt(row.in_kind) matches Some(k) ==> node.kind == k
    &&& row.in_kind is None ==> node.kind.len() == 0
    &&& row.in_line_start matches Some(l) ==> node.line_start == l
    &&& row.in_line_start is None ==> node.line_start == 0
    &&& row.in_line_end matches Some(l) ==> node.line_end == l
    &&& row.in_line_end is None ==> node.line_end == 0
}

/// Whether a node describes the symbol at the end of a call.
pub open spec fn describes_callee(node: GraphNodeView, row: EdgeRow) -> bool {
    &&& text::text_opt(row.out_name) == Some(node.name)
    &&& node.file == row.out_file@
    &&& node.id == row.out_file@ + "::"@ + node.name
    &&& text::text_opt(row.out_kind) matches Some(k) ==> node.kind == k
    &&& row.out_kind is None ==> node.kind.len() == 0
    &&& row.out_line_start matches Some(l) ==> node.line_start == l
    &&& row.out_line_start is None ==> node.line_start == 0
    &&& row.out_line_end matches Some(l) ==> node.line_end == l
    &&& row.out_line_end is None ==> node.line_end == 0
}

/// Every node describes the symbol at one end of a taken call: its file and name, of
/// which its identifier is made, its kind and its lines, as far as the call gives
/// them.
pub proof fn law_nodes_describe_their_symbols(
    rows: Seq<EdgeRow>,
    edge_limit: nat,
    node_limit: nat,
    i: int,
)
    requires
        0 <= i < graph_of(rows, edge_limit, node_limit).nodes.len(),
    ensures
        exists|k: int|
            0 <= k < rows.len() && k < edge_limit && (describes_caller(
                graph_of(rows, edge_limit, node_limit).nodes[i],
                #[trigger] rows[k],
            ) || describes_callee(graph_of(rows, edge_limit, node_limit).nodes[i], rows[k])),
{
    let taken = first_of(rows, edge_limit);
    let symbols = touched(taken);
    let node = graph_of(rows, edge_limit, node_limit).nodes[i];
    assert(symbols[i] == node);
    lemma_touched_describe(taken, i);
    let k = choose|k: int|
        0 <= k < taken.len() && (describes_caller(node, #[trigger] taken[k]) || describes_callee(
            node,
            taken[k],
        ));
    assert(taken[k] == rows[k]);
}

proof fn lemma_touched_describe(rows: Seq<EdgeRow>, i: int)
    requires
        0 <= i < touched(rows).len(),
    ensures
        exists|k: int|
            0 <= k < rows.len() && (describes_caller(touched(rows)[i], #[trigger] rows[k])
                || describes_callee(touched(rows)[i], rows[k])),
    decreases rows.len(),
{
    let front = rows.drop_last();
    let last = rows.last();
    let before = touched(front);
    let mid = with_node(before, caller_node(last));
    let all = touched(rows);
    if i < before.len() {
        assert(all[i] == before[i]);
        lemma_touched_describe(front, i);
        let k = choose|k: int|
            0 <= k < front.len() && (describes_caller(before[i], #[trigger] front[k])
                || describes_callee(before[i], front[k]));
        assert(rows[k] == front[k]);
    } else if i < mid.len() {
        assert(all[i] == mid[i]);
        assert(describes_caller(all[i], rows[rows.len() - 1]));
    } else {
        assert(describes_callee(all[i], rows[rows.len() - 1]));
    }
}

/// Symbols stand in the order in which the calls reach them: more calls only add
/// symbols behind those that are there. A call alone touches its caller, then its
/// callee, each if it is still there, and both as one if they are the same.
pub proof fn law_symbols_stand_as_they_are_reached(a: Seq<EdgeRow>, b: Seq<EdgeRow>)
    ensures
        touched(a).len() <= touched(a + b).len(),
        touched(a + b).take(touched(a).len() as int) == touched(a),
        a.len() == 0 ==> touched(a).len() == 0,
        a.len() == 1 && text::text_opt(a[0].in_name) is Some ==> touched(a).len() > 0
            && describes_caller(touched(a)[0], a[0]),
        a.len() == 1 && text::text_opt(a[0].in_name) is None && text::text_opt(
            a[0].out_name,
        ) is Some ==> touched(a).len() == 1 && describes_callee(touched(a)[0], a[0]),
        a.len() == 1 && text::text_opt(a[0].in_name) is Some && text::text_opt(
            a[0].out_name,
        ) is Some && a[0].in_file@ + "::"@ + text::text_opt(a[0].in_name)->0 != a[0].out_file@
            + "::"@ + text::text_opt(a[0].out_name)->0 ==> touched(a).len() == 2
            && describes_callee(touched(a)[1], a[0]),
    decreases b.len(),
{
    if b.len() == 0 {
        assert(a + b =~= a);
        assert(touched(a).take(touched(a).len() as int) =~= touched(a));
    } else {
        let front = b.drop_last();
        law_symbols_stand_as_they_are_reached(a, front);
        assert((a + b).drop_last() =~= a + front);
        let all = touched(a + b);
        let before = touched(a + front);
        let n = touched(a).len() as int;
        assert(all.take(n) =~= before.take(n));
    }
    if a.len() == 1 {
        assert(a.drop_last() =~= seq![]);
        assert(touched(a.drop_last()) =~= seq![]);
        let none = Seq::<GraphNodeView>::empty();
        let mid = with_node(none, caller_node(a[0]));
        if caller_node(a[0]) is Some {
            let c = caller_node(a[0])->0;
            assert(!has_id(none, c.id));
            assert(mid =~= seq![c]);
            if callee_node(a[0]) is Some && callee_node(a[0])->0.id != c.id {
                assert(!has_id(mid, callee_node(a[0])->0.id)) by {
                    assert(mid[0].id == c.id);
                }
            }
        } else if callee_node(a[0]) is Some {
            assert(!has_id(none, callee_node(a[0])->0.id));
        }
    }
}

/// A call graph says that it was capped exactly where it was: unless more calls came
/// than are taken, or a symbol of a taken call is no node, it is whole.
pub proof fn law_truncated_where_something_is_missing(
    rows: Seq<EdgeRow>,
    edge_limit: nat,
    node_limit: nat,
)
    ensures
        graph_of(rows, edge_limit, node_limit).truncated <==> rows.len() > edge_limit || exists|
            k: int,
            id: Seq<char>,
        |
            0 <= k < rows.len() && k < edge_limit && #[trigger] touches(rows[k], id) && !has_id(
                graph_of(rows, edge_limit, node_limit).nodes,
                id,
            ),
        graph_of(rows, edge_limit, node_limit).nodes.len() <= node_limit,
        graph_of(rows, edge_limit, node_limit).edges.len() <= edge_limit,
{
    let taken = first_of(rows, edge_limit);
    let symbols = touched(taken);
    let graph = graph_of(rows, edge_limit, node_limit);
    law_touched_symbols_are_the_ends(taken);
    law_nodes_are_the_touched_symbols(rows, edge_limit, node_limit);
    law_graph_is_consistent(taken, graph.nodes);
    if symbols.len() > node_limit {
        let missing = symbols[node_limit as int].id;
        assert(has_id(symbols, missing));
        let k = choose|k: int| 0 <= k < taken.len() && touches(#[trigger] taken[k], missing);
        assert(taken[k] == rows[k]);
        assert(touches(rows[k], missing));
        assert(!has_id(graph.nodes, missing)) by {
            if has_id(graph.nodes, missing) {
                let i = choose|i: int|
                    0 <= i < graph.nodes.len() && (#[trigger] graph.nodes[i]).id == missing;
                assert(symbols[i].id == missing);
            }
        }
    }
    if exists|k: int, id: Seq<char>|
        0 <= k < rows.len() && k < edge_limit && #[trigger] touches(rows[k], id) && !has_id(
            graph.nodes,
            id,
        ) {
        let (k, id) = choose|k: int, id: Seq<char>|
            0 <= k < rows.len() && k < edge_limit && #[trigger] touches(rows[k], id) && !has_id(
                graph.nodes,
                id,
            );
        assert(taken[k] == rows[k]);
        assert(touches(taken[k], id));
    }
}

/// A call touches the symbols at its ends, each under its file and name, if it is
/// still there.
pub proof fn law_a_call_touches_its_ends(row: EdgeRow, id: Seq<char>)
    ensures
        touches(row, id) <==> (text::text_opt(row.in_name) matches Some(n) && id == row.in_file@
            + "::"@ + n) || (text::text_opt(row.out_name) matches Some(n) && id == row.out_file@
            + "::"@ + n),
{
}

/// The query for the calls asks for one more than are taken, so that it shows whether
/// there are more.
pub proof fn law_one_call_more_is_asked_for(limit: usize)
    ensures
        limit < i64::MAX ==> one_more(limit) == limit + 1,
        limit >= i64::MAX ==> one_more(limit) == i64::MAX,
{
}

// ─── Laws of statements and rows ─────────────────────────────────────────

/// Deleting a file's data takes one statement for each table, edges first; the
/// statements are the same for every file, and the path is bound to each of them.
pub proof fn law_deletion_binds_the_path(a: Seq<char>, b: Seq<char>, i: int)
    requires
        0 <= i < 8,
    ensures
        file_deletion(a).len() == 8,
        file_deletion(a)[i].sql == file_deletion(b)[i].sql,
        file_deletion(a)[i].context == file_deletion(b)[i].context,
        file_deletion(a)[i].binds == seq![("path"@, ValueView::Text(a))],
        full_deletion().len() == 8,
        full_deletion()[i].binds.len() == 0,
        text::has_prefix(file_deletion(a)[i].sql, full_deletion()[i].sql),
        i < 5 ==> file_deletion(a)[i].sql == full_deletion()[i].sql
            + " WHERE in_file = $path OR out_file = $path"@,
        i == 5 || i == 6 ==> file_deletion(a)[i].sql == full_deletion()[i].sql
            + " WHERE file = $path"@,
        i == 7 ==> file_deletion(a)[i].sql == full_deletion()[i].sql + " WHERE path = $path"@,
{
    lemma_deletion_tables(a, i);
    assert(file_deletion(a)[i].binds =~= seq![("path"@, ValueView::Text(a))]);
}

proof fn lemma_deletion_tables(a: Seq<char>, i: int)
    requires
        0 <= i < 8,
    ensures
        text::has_prefix(file_deletion(a)[i].sql, full_deletion()[i].sql),
        i < 5 ==> file_deletion(a)[i].sql == full_deletion()[i].sql
            + " WHERE in_file = $path OR out_file = $path"@,
        i == 5 || i == 6 ==> file_deletion(a)[i].sql == full_deletion()[i].sql
            + " WHERE file = $path"@,
        i == 7 ==> file_deletion(a)[i].sql == full_deletion()[i].sql + " WHERE path = $path"@,
{
    reveal_strlit(" WHERE in_file = $path OR out_file = $path");
    reveal_strlit(" WHERE file = $path");
    reveal_strlit(" WHERE path = $path");
    let all = full_deletion()[i].sql;
    let own = file_deletion(a)[i].sql;
    if i == 0 {
        reveal_strlit("DELETE FROM calls");
        reveal_strlit("DELETE FROM calls WHERE in_file = $path OR out_file = $path");
    } else if i == 1 {
        reveal_strlit("DELETE FROM uses");
        reveal_strlit("DELETE FROM uses WHERE in_file = $path OR out_file = $path");
    } else if i == 2 {
        reveal_strlit("DELETE FROM imports");
        reveal_strlit("DELETE FROM imports WHERE in_file = $path OR out_file = $path");
    } else if i == 3 {
        reveal_strlit("DELETE FROM contains");
        reveal_strlit("DELETE FROM contains WHERE in_file = $path OR out_file = $path");
    } else if i == 4 {
        reveal_strlit("DELETE FROM implements");
        reveal_strlit("DELETE FROM implements WHERE in_file = $path OR out_file = $path");
    } else if i == 5 {
        reveal_strlit("DELETE FROM symbol");
        reveal_strlit("DELETE FROM symbol WHERE file = $path");
    } else if i == 6 {
        reveal_strlit("DELETE FROM chunk");
        reveal_strlit("DELETE FROM chunk WHERE file = $path");
    } else {
        reveal_strlit("DELETE FROM file_meta");
        reveal_strlit("DELETE FROM file_meta WHERE path = $path");
    }
    if i < 5 {
        assert(own =~= all + " WHERE in_file = $path OR out_file = $path"@);
    } else if i < 7 {
        assert(own =~= all + " WHERE file = $path"@);
    } else {
        assert(own =~= all + " WHERE path = $path"@);
    }
    assert(own.subrange(0, all.len() as int) =~= all);
}

/// A statement that stores a symbol is the same for every symbol; what it stores are
/// the symbol's own values, each bound to the parameter of its name.
pub proof fn law_symbol_is_bound(a: SymbolView, b: SymbolView)
    ensures
        symbol_upsert(a).sql == symbol_upsert(b).sql,
        symbol_upsert(a).context == symbol_upsert(b).context,
        symbol_upsert(a).binds.len() == 8,
        symbol_upsert(a).binds[0] == ("id"@, ValueView::Text(
            "symbol:⟨"@ + a.qualified.fqn() + "⟩"@,
        )),
        symbol_upsert(a).binds[1] == ("name"@, ValueView::Text(a.qualified.name)),
        symbol_upsert(a).binds[2] == ("kind"@, ValueView::Text(kind_name(a.kind))),
        symbol_upsert(a).binds[3] == ("file"@, ValueView::Text(a.qualified.file)),
        symbol_upsert(a).binds[4].0 == "line_start"@,
        symbol_upsert(a).binds[4].1 matches ValueView::Int(n) && n == a.line_start,
        symbol_upsert(a).binds[5].0 == "line_end"@,
        symbol_upsert(a).binds[5].1 matches ValueView::Int(n) && n == a.line_end,
        symbol_upsert(a).binds[6] == ("signature"@, ValueView::OptionalText(a.signature)),
        symbol_upsert(a).binds[7].0 == "parent"@,
        a.parent_fqn is None ==> symbol_upsert(a).binds[7].1 == ValueView::OptionalText(None),
        a.parent_fqn matches Some(p) ==> symbol_upsert(a).binds[7].1 == ValueView::OptionalText(
            Some("symbol:⟨"@ + p + "⟩"@),
        ),
{
}

/// A statement that stores an edge depends on the kind alone; what it binds are the
/// records of both ends, the line of a call, and the files of both ends.
pub proof fn law_edge_is_bound(
    from: QualifiedSymbolView,
    to: QualifiedSymbolView,
    kind: EdgeKind,
    line: u32,
    other_from: QualifiedSymbolView,
    other_to: QualifiedSymbolView,
    other_line: u32,
)
    ensures
        edge_insert(from, to, kind, line).sql == edge_insert(
            other_from,
            other_to,
            kind,
            other_line,
        ).sql,
        edge_insert(from, to, kind, line).context == edge_insert(
            other_from,
            other_to,
            kind,
            other_line,
        ).context,
        edge_insert(from, to, kind, line).binds.take(2) == seq![
            ("from"@, ValueView::Text("symbol:⟨"@ + from.fqn() + "⟩"@)),
            ("to"@, ValueView::Text("symbol:⟨"@ + to.fqn() + "⟩"@)),
        ],
        kind == EdgeKind::Calls ==> edge_insert(from, to, kind, line).binds.skip(2) == seq![
            ("line"@, ValueView::Int(line as i64)),
            ("in_file"@, ValueView::Text(from.file)),
            ("out_file"@, ValueView::Text(to.file)),
        ],
        kind != EdgeKind::Calls ==> edge_insert(from, to, kind, line).binds.skip(2) == seq![
            ("in_file"@, ValueView::Text(from.file)),
            ("out_file"@, ValueView::Text(to.file)),
        ],
{
    let b = edge_insert(from, to, kind, line).binds;
    assert(b.take(2) =~= seq![
        ("from"@, ValueView::Text("symbol:⟨"@ + from.fqn() + "⟩"@)),
        ("to"@, ValueView::Text("symbol:⟨"@ + to.fqn() + "⟩"@)),
    ]);
    if kind == EdgeKind::Calls {
        assert(b.skip(2) =~= seq![
            ("line"@, ValueView::Int(line as i64)),
            ("in_file"@, ValueView::Text(from.file)),
            ("out_file"@, ValueView::Text(to.file)),
        ]);
    } else {
        assert(b.skip(2) =~= seq![
            ("in_file"@, ValueView::Text(from.file)),
            ("out_file"@, ValueView::Text(to.file)),
        ]);
    }
}

/// A statement that stores a chunk is the same for every chunk; what it binds are the
/// chunk's own values and the embedding that it is run with.
pub proof fn law_chunk_is_bound(a: ChunkView, b: ChunkView)
    ensures
        chunk_insert(a).sql == chunk_insert(b).sql,
        chunk_insert(a).context == chunk_insert(b).context,
        chunk_insert(a).binds.len() == 6,
        chunk_insert(a).binds[0] == ("file"@, ValueView::Text(a.file)),
        chunk_insert(a).binds[1].0 == "line_start"@,
        chunk_insert(a).binds[1].1 matches ValueView::Int(n) && n == a.line_start,
        chunk_insert(a).binds[2].0 == "line_end"@,
        chunk_insert(a).binds[2].1 matches ValueView::Int(n) && n == a.line_end,
        chunk_insert(a).binds[3] == ("content"@, ValueView::Text(a.content)),
        chunk_insert(a).binds[4] == ("embedding"@, ValueView::Embedding),
        chunk_insert(a).binds[5].0 == "symbol_ref"@,
        a.symbol_ref is None ==> chunk_insert(a).binds[5].1 == ValueView::OptionalText(None),
        a.symbol_ref matches Some(f) ==> chunk_insert(a).binds[5].1 == ValueView::OptionalText(
            Some("symbol:⟨"@ + f + "⟩"@),
        ),
{
}

/// No two kinds of symbol are stored under the same name.
pub proof fn law_kinds_are_told_apart(a: SymbolKind, b: SymbolKind)
    ensures
        kind_name(a) == kind_name(b) ==> a == b,
{
    reveal_strlit("function");
    reveal_strlit("method");
    reveal_strlit("struct");
    reveal_strlit("trait");
    reveal_strlit("impl");
    reveal_strlit("class");
    reveal_strlit("module");
    reveal_strlit("interface");
    let x = kind_name(a);
    let y = kind_name(b);
    if x == y {
        assert(x[0] == y[0] && x[1] == y[1] && x.len() == y.len());
    }
}

/// Every row stands for the symbol of its own file and name, and the rows keep their
/// order.
pub proof fn law_rows_name_symbols(rows: Seq<SymbolRow>, i: int)
    requires
        0 <= i < rows.len(),
    ensures
        names_of_rows(rows).len() == rows.len(),
        names_of_rows(rows)[i].file == rows[i].file@,
        names_of_rows(rows)[i].name == rows[i].name@,
        names_of_rows(rows)[i].scope_path.len() == 0,
{
}

/// A count is the number in the first row, and zero where nothing came; a number of
/// dimensions below zero counts as zero.
pub proof fn law_counts(rows: Seq<i64>, n: i64)
    ensures
        rows.len() == 0 ==> count_in(rows) == 0,
        rows.len() > 0 && rows[0] >= 0 ==> count_in(rows) == rows[0],
        n >= 0 ==> at_least_zero(n) == n,
        n < 0 ==> at_least_zero(n) == 0,
{
}

/// The file browser shows every file that came, in order, with its own data and the
/// number of its chunks: that of the last group for its path, zero if there is none.
pub proof fn law_file_browser(metas: Seq<MetaRow>, groups: Seq<GroupRow>, i: int, g: int)
    requires
        0 <= i < metas.len(),
    ensures
        browser_rows(metas, groups).len() == metas.len(),
        browser_rows(metas, groups)[i].path == metas[i].path@,
        browser_rows(metas, groups)[i].mtime == metas[i].mtime,
        browser_rows(metas, groups)[i].size == metas[i].size,
        (forall|k: int| 0 <= k < groups.len() ==> (#[trigger] groups[k]).file@ != metas[i].path@)
            ==> browser_rows(metas, groups)[i].chunks == 0,
        0 <= g < groups.len() && groups[g].file@ == metas[i].path@ && groups[g].count >= 0 && (
        forall|k: int| g < k < groups.len() ==> (#[trigger] groups[k]).file@ != metas[i].path@)
            ==> browser_rows(metas, groups)[i].chunks == groups[g].count,
{
    lemma_last_group(groups, metas[i].path@, g);
}

proof fn lemma_last_group(groups: Seq<GroupRow>, file: Seq<char>, g: int)
    ensures
        (forall|k: int| 0 <= k < groups.len() ==> (#[trigger] groups[k]).file@ != file)
            ==> chunk_count(groups, file) == 0,
        0 <= g < groups.len() && groups[g].file@ == file && (forall|k: int|
            g < k < groups.len() ==> (#[trigger] groups[k]).file@ != file) ==> chunk_count(
            groups,
            file,
        ) == at_least_zero(groups[g].count),
    decreases groups.len(),
{
    if groups.len() > 0 {
        let front = groups.drop_last();
        lemma_last_group(front, file, g);
        assert(groups[groups.len() - 1] == groups.last());
        assert forall|k: int| 0 <= k < front.len() implies front[k] == #[trigger] groups[k] by {}
    }
}

/// The details of every chunk that came are its own, in order, with the name of the
/// symbol that its reference gives.
pub proof fn law_chunk_details(rows: Seq<ChunkRow>, i: int)
    requires
        0 <= i < rows.len(),
    ensures
        details_of_rows(rows).len() == rows.len(),
        details_of_rows(rows)[i].line_start == rows[i].line_start,
        details_of_rows(rows)[i].line_end == rows[i].line_end,
        details_of_rows(rows)[i].content == rows[i].content@,
        rows[i].embedding_dim >= 0 ==> details_of_rows(rows)[i].embedding_dim
            == rows[i].embedding_dim,
        rows[i].embedding_dim < 0 ==> details_of_rows(rows)[i].embedding_dim == 0,
        rows[i].symbol_ref is None ==> details_of_rows(rows)[i].symbol is None,
        rows[i].symbol_ref matches Some(s) ==> details_of_rows(rows)[i].symbol == name_in_ref(s@),
{
}

/// A reference is read as what stands behind the last `::` between its brackets, or
/// all of it if there is none; what lacks the opening or the closing is no reference.
pub proof fn law_reference_is_read(front: Seq<char>, name: Seq<char>, other: Seq<char>)
    requires
        !text::occurs(name, "::"@),
    ensures
        name.len() == 0 || name[0] != ':' ==> name_in_ref(
            "symbol:⟨"@ + (front + "::"@ + name) + "⟩"@,
        ) == Some(name),
        name_in_ref("symbol:⟨"@ + name + "⟩"@) == Some(name),
        !text::has_prefix(other, "symbol:⟨"@) ==> name_in_ref(other) is None,
        !text::has_suffix(other, "⟩"@) ==> name_in_ref(other) is None,
{
    let opening = "symbol:⟨"@;
    let closing = "⟩"@;
    let fqn = front + "::"@ + name;
    lemma_reference_parts(fqn);
    lemma_reference_parts(name);
    if name.len() == 0 || name[0] != ':' {
        lemma_last_segment(front, name);
    }
    lemma_whole_segment(name);
    if text::has_prefix(other, opening) && text::has_suffix(
        other.skip(opening.len() as int),
        closing,
    ) {
        let rest = other.skip(opening.len() as int);
        assert(other.subrange(other.len() - closing.len(), other.len() as int) =~= rest.subrange(
            rest.len() - closing.len(),
            rest.len() as int,
        ));
        assert(text::has_suffix(other, closing));
    }
}

proof fn lemma_reference_parts(fqn: Seq<char>)
    ensures
        name_in_ref("symbol:⟨"@ + fqn + "⟩"@) == Some(last_segment(fqn)),
{
    let opening = "symbol:⟨"@;
    let closing = "⟩"@;
    let s = opening + fqn + closing;
    assert(s.subrange(0, opening.len() as int) =~= opening);
    let rest = s.skip(opening.len() as int);
    assert(rest.subrange(rest.len() - closing.len(), rest.len() as int) =~= closing);
    assert(s.subrange(opening.len() as int, s.len() - closing.len()) =~= fqn);
}

proof fn lemma_whole_segment(name: Seq<char>)
    requires
        !text::occurs(name, "::"@),
    ensures
        last_segment(name) == name,
    decreases name.len(),
{
    reveal_strlit("::");
    if name.len() > 0 {
        let short = name.drop_last();
        assert(!text::has_suffix(name, "::"@)) by {
            if text::has_suffix(name, "::"@) {
                assert(text::stands_at(name, "::"@, name.len() - 2));
            }
        }
        assert(!text::occurs(short, "::"@)) by {
            if text::occurs(short, "::"@) {
                let i = choose|i: int| text::stands_at(short, "::"@, i);
                assert(name.subrange(i, i + 2) =~= short.subrange(i, i + 2));
                assert(text::stands_at(name, "::"@, i));
            }
        }
        lemma_whole_segment(short);
        assert(short.push(name.last()) =~= name);
    } else {
        assert(last_segment(name) =~= name);
    }
}


/// Of the calls the first ones are taken, as many as allowed, and of the symbols that
/// they touch the first ones are nodes, as many as allowed; the edges are those of
/// the taken calls.
pub proof fn law_the_first_are_kept(rows: Seq<EdgeRow>, edge_limit: nat, node_limit: nat, n: int, m: int)
    requires
        n == rows.len() || (n == edge_limit && n < rows.len()),
        n <= edge_limit,
        m == touched(rows.take(n)).len() || (m == node_limit && m < touched(rows.take(n)).len()),
        m <= node_limit,
    ensures
        graph_of(rows, edge_limit, node_limit).nodes == touched(rows.take(n)).take(m),
        graph_of(rows, edge_limit, node_limit).edges == edges_of(
            rows.take(n),
            touched(rows.take(n)).take(m),
        ),
{
    let taken = first_of(rows, edge_limit);
    assert(taken =~= rows.take(n));
    let symbols = touched(taken);
    assert(first_of(symbols, node_limit) =~= symbols.take(m));
}


/// The statement that stores a symbol sets every field to the parameter of its name,
/// in the record that is bound.
pub proof fn law_symbol_statement_assigns_its_parameters(sym: SymbolView)
    ensures
        text::has_prefix(symbol_upsert(sym).sql, "UPSERT type::thing($id) SET "@),
        text::occurs(symbol_upsert(sym).sql, "name = $name"@),
        text::occurs(symbol_upsert(sym).sql, "kind = $kind"@),
        text::occurs(symbol_upsert(sym).sql, "file = $file"@),
        text::occurs(symbol_upsert(sym).sql, "line_start = $line_start"@),
        text::occurs(symbol_upsert(sym).sql, "line_end = $line_end"@),
        text::occurs(symbol_upsert(sym).sql, "signature = $signature"@),
        text::occurs(symbol_upsert(sym).sql, "parent = $parent"@),
        symbol_upsert(sym).sql.len() == 158,
{
    let sql = symbol_upsert(sym).sql;
    reveal_strlit(
        "UPSERT type::thing($id) SET name = $name, kind = $kind, file = $file, line_start = $line_start, line_end = $line_end, signature = $signature, parent = $parent",
    );
    reveal_strlit("UPSERT type::thing($id) SET ");
    reveal_strlit("name = $name");
    reveal_strlit("kind = $kind");
    reveal_strlit("file = $file");
    reveal_strlit("line_start = $line_start");
    reveal_strlit("line_end = $line_end");
    reveal_strlit("signature = $signature");
    reveal_strlit("parent = $parent");
    assert(sql.subrange(0, 28) =~= "UPSERT type::thing($id) SET "@);
    assert(sql.subrange(28, 40) =~= "name = $name"@);
    assert(text::stands_at(sql, "name = $name"@, 28));
    assert(sql.subrange(42, 54) =~= "kind = $kind"@);
    assert(text::stands_at(sql, "kind = $kind"@, 42));
    assert(sql.subrange(56, 68) =~= "file = $file"@);
    assert(text::stands_at(sql, "file = $file"@, 56));
    assert(sql.subrange(70, 94) =~= "line_start = $line_start"@);
    assert(text::stands_at(sql, "line_start = $line_start"@, 70));
    assert(sql.subrange(96, 116) =~= "line_end = $line_end"@);
    assert(text::stands_at(sql, "line_end = $line_end"@, 96));
    assert(sql.subrange(118, 140) =~= "signature = $signature"@);
    assert(text::stands_at(sql, "signature = $signature"@, 118));
    assert(sql.subrange(142, 158) =~= "parent = $parent"@);
    assert(text::stands_at(sql, "parent = $parent"@, 142));
}


/// The statement that stores a chunk sets every field to the parameter of its name.
pub proof fn law_chunk_statement_assigns_its_parameters(chunk: ChunkView)
    ensures
        text::has_prefix(chunk_insert(chunk).sql, "CREATE chunk SET "@),
        text::occurs(chunk_insert(chunk).sql, "file = $file"@),
        text::occurs(chunk_insert(chunk).sql, "line_start = $line_start"@),
        text::occurs(chunk_insert(chunk).sql, "line_end = $line_end"@),
        text::occurs(chunk_insert(chunk).sql, "content = $content"@),
        text::occurs(chunk_insert(chunk).sql, "embedding = $embedding"@),
        text::occurs(chunk_insert(chunk).sql, "symbol_ref = $symbol_ref"@),
        chunk_insert(chunk).sql.len() == 147,
{
    let sql = chunk_insert(chunk).sql;
    reveal_strlit(
        "CREATE chunk SET file = $file, line_start = $line_start, line_end = $line_end, content = $content, embedding = $embedding, symbol_ref = $symbol_ref",
    );
    reveal_strlit("CREATE chunk SET ");
    reveal_strlit("file = $file");
    reveal_strlit("line_start = $line_start");
    reveal_strlit("line_end = $line_end");
    reveal_strlit("content = $content");
    reveal_strlit("embedding = $embedding");
    reveal_strlit("symbol_ref = $symbol_ref");
    assert(sql.subrange(0, 17) =~= "CREATE chunk SET "@);
    assert(sql.subrange(17, 29) =~= "file = $file"@);
    assert(text::stands_at(sql, "file = $file"@, 17));
    assert(sql.subrange(31, 55) =~= "line_start = $line_start"@);
    assert(text::stands_at(sql, "line_start = $line_start"@, 31));
    assert(sql.subrange(57, 77) =~= "line_end = $line_end"@);
    assert(text::stands_at(sql, "line_end = $line_end"@, 57));
    assert(sql.subrange(79, 97) =~= "content = $content"@);
    assert(text::stands_at(sql, "content = $content"@, 79));
    assert(sql.subrange(99, 121) =~= "embedding = $embedding"@);
    assert(text::stands_at(sql, "embedding = $embedding"@, 99));
    assert(sql.subrange(123, 147) =~= "symbol_ref = $symbol_ref"@);
    assert(text::stands_at(sql, "symbol_ref = $symbol_ref"@, 123));
}

/// A group below zero counts as none.
pub proof fn law_no_count_below_zero(metas: Seq<MetaRow>, groups: Seq<GroupRow>, i: int, g: int)
    requires
        0 <= i < metas.len(),
        0 <= g < groups.len(),
        groups[g].file@ == metas[i].path@,
        groups[g].count < 0,
        forall|k: int| g < k < groups.len() ==> (#[trigger] groups[k]).file@ != metas[i].path@,
    ensures
        browser_rows(metas, groups)[i].chunks == 0,
{
    lemma_last_group(groups, metas[i].path@, g);
}

/// The model of a list of nodes or edges has each of them at its place, with its own
/// parts.
pub proof fn law_graph_models(nodes: Seq<GraphNode>, edges: Seq<GraphEdge>, i: int)
    ensures
        node_views(nodes).len() == nodes.len(),
        graph_edge_views(edges).len() == edges.len(),
        0 <= i < nodes.len() ==> node_views(nodes)[i] == (GraphNodeView {
            id: nodes[i].id@,
            name: nodes[i].name@,
            kind: nodes[i].kind@,
            file: nodes[i].file@,
            line_start: nodes[i].line_start,
            line_end: nodes[i].line_end,
        }),
        0 <= i < edges.len() ==> graph_edge_views(edges)[i] == (GraphEdgeView {
            source: edges[i].source@,
            target: edges[i].target@,
        }),
{
}

/// The model of a list of rows has each of them at its place, with its own parts.
pub proof fn law_row_models(files: Seq<FileBrowserRow>, chunks: Seq<ChunkDetailRow>, i: int)
    ensures
        file_row_views(files).len() == files.len(),
        detail_row_views(chunks).len() == chunks.len(),
        0 <= i < files.len() ==> file_row_views(files)[i] == (FileBrowserRowView {
            path: files[i].path@,
            mtime: files[i].mtime,
            size: files[i].size,
            chunks: files[i].chunks,
        }),
        0 <= i < chunks.len() ==> detail_row_views(chunks)[i] == (ChunkDetailRowView {
            line_start: chunks[i].line_start,
            line_end: chunks[i].line_end,
            content: chunks[i].content@,
            embedding_dim: chunks[i].embedding_dim,
            symbol: text::text_opt(chunks[i].symbol),
        }),
{
}

} // verus!
