//! Splitting a source file into chunks for embedding.

use vstd::prelude::*;

use crate::parsing::symbols;
use crate::parsing::symbols::Symbol;
use crate::parsing::symbols::SymbolView;
use crate::text;
use crate::text::clone_opt;
use crate::text::is_blank;
use crate::text::join_range;
use crate::text::split_lines;

verus! {

/// A text chunk ready for embedding.
#[derive(Debug)]
pub struct Chunk {
    /// Absolute path of the source file.
    pub file: String,
    pub line_start: u32,
    pub line_end: u32,
    pub content: String,
    /// FQN of the containing symbol, if this chunk came from a symbol body.
    pub symbol_ref: Option<String>,
}

/// The model of a [`Chunk`].
#[verifier::ext_equal]
pub struct ChunkView {
    pub file: Seq<char>,
    pub line_start: u32,
    pub line_end: u32,
    pub content: Seq<char>,
    pub symbol_ref: Option<Seq<char>>,
}

impl View for Chunk {
    type V = ChunkView;

    open spec fn view(&self) -> ChunkView {
        ChunkView {
            file: self.file@,
            line_start: self.line_start,
            line_end: self.line_end,
            content: self.content@,
            symbol_ref: text::text_opt(self.symbol_ref),
        }
    }
}

impl Clone for Chunk {
    fn clone(&self) -> (r: Self)
        ensures
            r@ == self@,
    {
        Chunk {
            file: self.file.clone(),
            line_start: self.line_start,
            line_end: self.line_end,
            content: self.content.clone(),
            symbol_ref: clone_opt(&self.symbol_ref),
        }
    }
}

/// The models of a sequence of chunks.
pub open spec fn chunk_views(s: Seq<Chunk>) -> Seq<ChunkView> {
    Seq::new(s.len(), |i: int| s[i]@)
}

/// Lines in a coverage window.
pub const WINDOW: u32 = 50;

/// Lines from one coverage window's start to the next.
pub const STRIDE: u32 = 25;

// ─── What the chunks of a file are ───────────────────────────────────────

/// The lines `first..=last` of a file, counted from zero, as one chunk.
pub open spec fn line_chunk(
    file: Seq<char>,
    lines: Seq<Seq<char>>,
    first: int,
    last: int,
    symbol_ref: Option<Seq<char>>,
) -> ChunkView {
    ChunkView {
        file,
        line_start: (first + 1) as u32,
        line_end: (last + 1) as u32,
        content: text::join(lines.subrange(first, last + 1), "\n"@),
        symbol_ref,
    }
}

/// The first line of a symbol, counted from zero.
pub open spec fn first_line(sym: SymbolView) -> int {
    if sym.line_start == 0 {
        0
    } else {
        sym.line_start - 1
    }
}

/// The last line of a symbol in a file of `total` lines, counted from zero.
pub open spec fn last_line(sym: SymbolView, total: int) -> int {
    let end = if sym.line_end < total {
        sym.line_end as int
    } else {
        total
    };
    if end == 0 {
        0
    } else {
        end - 1
    }
}

/// Whether a symbol has any line in a file of `total` lines.
pub open spec fn has_lines(sym: SymbolView, total: int) -> bool {
    first_line(sym) <= last_line(sym, total) && first_line(sym) < total
}

/// Whether line `i` lies within the body of one of the symbols.
pub open spec fn covered(syms: Seq<SymbolView>, total: int, i: int) -> bool {
    exists|k: int| 0 <= k < syms.len() && #[trigger] covers(syms[k], total, i)
}

/// Whether line `i` lies within the body of `sym`.
pub open spec fn covers(sym: SymbolView, total: int, i: int) -> bool {
    has_lines(sym, total) && first_line(sym) <= i <= last_line(sym, total)
}

/// The chunks of the symbols that have lines, in the symbols' order.
pub open spec fn symbol_chunks(
    file: Seq<char>,
    lines: Seq<Seq<char>>,
    syms: Seq<SymbolView>,
) -> Seq<ChunkView>
    decreases syms.len(),
{
    if syms.len() == 0 {
        seq![]
    } else {
        let sym = syms.last();
        let before = symbol_chunks(file, lines, syms.drop_last());
        let total = lines.len() as int;
        if has_lines(sym, total) {
            before.push(
                line_chunk(
                    file,
                    lines,
                    first_line(sym),
                    last_line(sym, total),
                    Some(sym.qualified.fqn()),
                ),
            )
        } else {
            before
        }
    }
}

/// The last line of the window that starts at line `start`.
pub open spec fn window_end(total: int, start: int) -> int {
    if start + WINDOW - 1 < total - 1 {
        start + WINDOW - 1
    } else {
        total - 1
    }
}

/// Whether the window that starts at line `start` has a line outside every symbol.
pub open spec fn window_open(syms: Seq<SymbolView>, total: int, start: int) -> bool {
    exists|i: int| start <= i <= window_end(total, start) && !covered(syms, total, i)
}

/// The chunks of the first `n` windows, of those that have a line outside every
/// symbol.
pub open spec fn window_chunks(
    file: Seq<char>,
    lines: Seq<Seq<char>>,
    syms: Seq<SymbolView>,
    n: nat,
) -> Seq<ChunkView>
    decreases n,
{
    if n == 0 {
        seq![]
    } else {
        let start = (n - 1) * STRIDE;
        let total = lines.len() as int;
        let before = window_chunks(file, lines, syms, (n - 1) as nat);
        if window_open(syms, total, start) {
            before.push(line_chunk(file, lines, start, window_end(total, start), None))
        } else {
            before
        }
    }
}

/// The number of windows that start within a file of `total` lines.
pub open spec fn window_count(total: int) -> nat {
    ((total + STRIDE - 1) / STRIDE as int) as nat
}

/// The chunks of `all` that are not blank, in order.
pub open spec fn not_blank(all: Seq<ChunkView>) -> Seq<ChunkView>
    decreases all.len(),
{
    if all.len() == 0 {
        seq![]
    } else if text::blank(all.last().content) {
        not_blank(all.drop_last())
    } else {
        not_blank(all.drop_last()).push(all.last())
    }
}

/// The chunks of a file: those of its symbols, then those of the windows, blank
/// ones left out.
pub open spec fn file_chunks(
    file: Seq<char>,
    source: Seq<char>,
    syms: Seq<SymbolView>,
) -> Seq<ChunkView> {
    let lines = text::lines(source);
    not_blank(
        symbol_chunks(file, lines, syms) + window_chunks(
            file,
            lines,
            syms,
            window_count(lines.len() as int),
        ),
    )
}

// ─── Chunking ────────────────────────────────────────────────────────────

/// Appends the lines `first..=last` as a chunk, unless they are blank.
fn push_chunk(
    chunks: &mut Vec<Chunk>,
    file: &str,
    lines: &Vec<String>,
    first: u32,
    last: u32,
    symbol_ref: Option<String>,
    Ghost(all): Ghost<Seq<ChunkView>>,
)
    requires
        first <= last < lines.len(),
        last < u32::MAX,
        chunk_views(old(chunks)@) == not_blank(all),
    ensures
        chunk_views(final(chunks)@) == not_blank(
            all.push(
                line_chunk(
                    file@,
                    text::texts(lines@),
                    first as int,
                    last as int,
                    text::text_opt(symbol_ref),
                ),
            ),
        ),
{
    let ghost view = line_chunk(
        file@,
        text::texts(lines@),
        first as int,
        last as int,
        text::text_opt(symbol_ref),
    );
    let content = join_range(lines, first as usize, last as usize + 1, "\n");
    assert(all.push(view).drop_last() =~= all);
    if !is_blank(content.as_str()) {
        chunks.push(
            Chunk {
                file: file.to_owned(),
                line_start: first + 1,
                line_end: last + 1,
                content,
                symbol_ref,
            },
        );
        assert(chunk_views(chunks@) =~= chunk_views(old(chunks)@).push(view));
    }
}

/// Produce chunks for a source file.
///
/// 1. **Symbol chunks**: each symbol body becomes one chunk (linked via `symbol_ref`).
/// 2. **Coverage chunks**: a sliding window (50 lines, 25-line stride) for lines not
///    already fully covered by a symbol chunk, with no `symbol_ref`.
///
/// Lines are 1-indexed. No chunk is blank.
pub fn chunk_file(file: &str, source: &str, symbols: &[Symbol]) -> (r: Vec<Chunk>)
    requires
        text::lines(source@).len() + WINDOW <= u32::MAX,
    ensures
        chunk_views(r@) == file_chunks(file@, source@, symbols::symbol_views(symbols@)),
{
    let lines = split_lines(source);
    let total: u32 = lines.len() as u32;
    let ghost syms = symbols::symbol_views(symbols@);
    let ghost views = text::texts(lines@);
    let mut chunks: Vec<Chunk> = Vec::new();
    assert(chunk_views(chunks@) =~= seq![]);
    if total == 0 {
        proof {
            lemma_no_lines(file@, views, syms);
        }
        return chunks;
    }
    let mut symbol_covered: Vec<bool> = Vec::new();
    let mut i: u32 = 0;
    while i < total
        invariant
            i <= total,
            symbol_covered.len() == i,
            forall|j: int| 0 <= j < i ==> !symbol_covered[j],
        decreases total - i,
    {
        symbol_covered.push(false);
        i = i + 1;
    }

    let mut n: usize = 0;
    assert(symbol_chunks(file@, views, syms.take(0)) =~= seq![]);
    while n < symbols.len()
        invariant
            n <= symbols.len(),
            0 < total == lines.len(),
            total + WINDOW <= u32::MAX,
            views == text::texts(lines@),
            syms == symbols::symbol_views(symbols@),
            symbol_covered.len() == total,
            forall|j: int|
                0 <= j < total ==> #[trigger] symbol_covered[j] == covered(
                    syms.take(n as int),
                    total as int,
                    j,
                ),
            chunk_views(chunks@) == not_blank(symbol_chunks(file@, views, syms.take(n as int))),
        decreases symbols.len() - n,
    {
        let sym = &symbols[n];
        let ghost sym_view = sym@;
        let ghost before = syms.take(n as int);
        let ghost after = syms.take(n + 1);
        proof {
            assert(after.drop_last() =~= before);
            assert(after.last() == sym_view);
            lemma_covered_step(before, sym_view, total as int);
            assert(after =~= before.push(sym_view));
        }
        let start: u32 = if sym.line_start == 0 {
            0
        } else {
            sym.line_start - 1
        };
        let capped: u32 = if sym.line_end < total {
            sym.line_end
        } else {
            total
        };
        let end: u32 = if capped == 0 {
            0
        } else {
            capped - 1
        };
        if start <= end && start < total {
            push_chunk(
                &mut chunks,
                file,
                &lines,
                start,
                end,
                Some(sym.qualified.fqn()),
                Ghost(symbol_chunks(file@, views, before)),
            );
            let mut i: u32 = start;
            while i <= end
                invariant
                    start <= i <= end + 1,
                    end < total,
                    total < u32::MAX,
                    symbol_covered.len() == total,
                    forall|j: int|
                        0 <= j < total ==> #[trigger] symbol_covered[j] == (covered(
                            before,
                            total as int,
                            j,
                        ) || start <= j < i),
                decreases end + 1 - i,
            {
                symbol_covered.set(i as usize, true);
                i = i + 1;
            }
        }
        n = n + 1;
    }
    assert(syms.take(n as int) =~= syms);

    let ghost head = symbol_chunks(file@, views, syms);
    let ghost mut k: nat = 0;
    let mut window_start: u32 = 0;
    assert(head + window_chunks(file@, views, syms, 0) =~= head);
    while window_start < total
        invariant
            0 < total == lines.len(),
            total + WINDOW <= u32::MAX,
            window_start == k * STRIDE,
            window_start < total + STRIDE,
            views == text::texts(lines@),
            symbol_covered.len() == total,
            forall|j: int|
                0 <= j < total ==> #[trigger] symbol_covered[j] == covered(syms, total as int, j),
            chunk_views(chunks@) == not_blank(head + window_chunks(file@, views, syms, k)),
        decreases total + STRIDE - window_start,
    {
        let reach: u32 = window_start + WINDOW - 1;
        let end: u32 = if reach < total - 1 {
            reach
        } else {
            total - 1
        };
        let mut has_uncovered = false;
        let mut i: u32 = window_start;
        while i <= end && !has_uncovered
            invariant
                window_start <= i <= end + 1,
                end < total,
                total < u32::MAX,
                end == window_end(total as int, window_start as int),
                symbol_covered.len() == total,
                forall|j: int|
                    0 <= j < total ==> #[trigger] symbol_covered[j] == covered(
                        syms,
                        total as int,
                        j,
                    ),
                has_uncovered ==> window_open(syms, total as int, window_start as int),
                !has_uncovered ==> forall|j: int|
                    window_start <= j < i ==> covered(syms, total as int, j),
            decreases end + 1 - i,
        {
            if !symbol_covered[i as usize] {
                assert(!covered(syms, total as int, i as int));
                has_uncovered = true;
            }
            i = i + 1;
        }
        let ghost so_far = head + window_chunks(file@, views, syms, k);
        let ghost next = window_chunks(file@, views, syms, k + 1);
        if has_uncovered {
            push_chunk(&mut chunks, file, &lines, window_start, end, None, Ghost(so_far));
            assert(head + next =~= so_far.push(
                line_chunk(file@, views, window_start as int, end as int, None),
            ));
        } else {
            assert(!window_open(syms, total as int, window_start as int));
        }
        proof {
            k = k + 1;
        }
        window_start = window_start + STRIDE;
    }
    proof {
        assert(k == window_count(total as int));
    }
    chunks
}

/// A file without lines has no chunks.
proof fn lemma_no_lines(file: Seq<char>, lines: Seq<Seq<char>>, syms: Seq<SymbolView>)
    requires
        lines.len() == 0,
    ensures
        symbol_chunks(file, lines, syms) == Seq::<ChunkView>::empty(),
        window_chunks(file, lines, syms, window_count(0)) == Seq::<ChunkView>::empty(),
        not_blank(
            symbol_chunks(file, lines, syms) + window_chunks(file, lines, syms, window_count(0)),
        ) == Seq::<ChunkView>::empty(),
    decreases syms.len(),
{
    if syms.len() > 0 {
        lemma_no_lines(file, lines, syms.drop_last());
    }
    assert(window_count(0) == 0);
}

/// One more symbol covers its own lines on top of the others'.
proof fn lemma_covered_step(before: Seq<SymbolView>, sym: SymbolView, total: int)
    ensures
        forall|i: int|
            #[trigger] covered(before.push(sym), total, i) <==> covered(before, total, i) || covers(
                sym,
                total,
                i,
            ),
{
    let after = before.push(sym);
    assert forall|i: int| #[trigger]
        covered(after, total, i) <==> covered(before, total, i) || covers(sym, total, i) by {
        if covered(before, total, i) {
            let k = choose|k: int| 0 <= k < before.len() && #[trigger] covers(before[k], total, i);
            assert(covers(after[k], total, i));
        }
        if covers(sym, total, i) {
            assert(covers(after[before.len() as int], total, i));
        }
        if covered(after, total, i) {
            let k = choose|k: int| 0 <= k < after.len() && #[trigger] covers(after[k], total, i);
            if k < before.len() {
                assert(covers(before[k], total, i));
            }
        }
    }
}

// ─── Laws ────────────────────────────────────────────────────────────────

/// The chunk of the symbol `sym`, if it has lines.
pub open spec fn symbol_chunk(
    file: Seq<char>,
    lines: Seq<Seq<char>>,
    sym: SymbolView,
) -> ChunkView {
    line_chunk(
        file,
        lines,
        first_line(sym),
        last_line(sym, lines.len() as int),
        Some(sym.qualified.fqn()),
    )
}

/// The chunk of the window with the number `k`, counted from zero.
pub open spec fn window_chunk(file: Seq<char>, lines: Seq<Seq<char>>, k: int) -> ChunkView {
    line_chunk(file, lines, k * STRIDE, window_end(lines.len() as int, k * STRIDE), None)
}

/// What stays when blank chunks are left out.
proof fn lemma_not_blank(all: Seq<ChunkView>)
    ensures
        forall|c: ChunkView|
            #[trigger] not_blank(all).contains(c) <==> all.contains(c) && !text::blank(c.content),
    decreases all.len(),
{
    if all.len() > 0 {
        let front = all.drop_last();
        let last = all.last();
        lemma_not_blank(front);
        assert forall|c: ChunkView| #[trigger]
            not_blank(all).contains(c) <==> all.contains(c) && !text::blank(c.content) by {
            assert(all =~= front.push(last));
            lemma_contains_push(front, last, c);
            lemma_contains_push(not_blank(front), last, c);
        }
    }
}

proof fn lemma_contains_push(s: Seq<ChunkView>, x: ChunkView, c: ChunkView)
    ensures
        s.push(x).contains(c) <==> s.contains(c) || c == x,
{
    if s.contains(c) {
        let i = choose|i: int| 0 <= i < s.len() && s[i] == c;
        assert(s.push(x)[i] == c);
    }
    if c == x {
        assert(s.push(x)[s.len() as int] == c);
    }
    if s.push(x).contains(c) && c != x {
        let i = choose|i: int| 0 <= i < s.push(x).len() && s.push(x)[i] == c;
        assert(s[i] == c);
    }
}

/// Which chunks the symbols give.
proof fn lemma_symbol_chunks(file: Seq<char>, lines: Seq<Seq<char>>, syms: Seq<SymbolView>)
    ensures
        forall|k: int|
            0 <= k < syms.len() && has_lines(#[trigger] syms[k], lines.len() as int)
                ==> symbol_chunks(file, lines, syms).contains(symbol_chunk(file, lines, syms[k])),
        forall|c: ChunkView| #[trigger]
            symbol_chunks(file, lines, syms).contains(c) ==> exists|k: int|
                0 <= k < syms.len() && has_lines(#[trigger] syms[k], lines.len() as int) && c
                    == symbol_chunk(file, lines, syms[k]),
    decreases syms.len(),
{
    if syms.len() > 0 {
        let front = syms.drop_last();
        let last = syms.last();
        let total = lines.len() as int;
        let before = symbol_chunks(file, lines, front);
        let all = symbol_chunks(file, lines, syms);
        lemma_symbol_chunks(file, lines, front);
        let own = symbol_chunk(file, lines, last);
        assert forall|k: int| 0 <= k < syms.len() && has_lines(#[trigger] syms[k], total) implies
            all.contains(symbol_chunk(file, lines, syms[k])) by {
            if k < front.len() {
                assert(front[k] == syms[k]);
            }
            lemma_contains_push(before, own, symbol_chunk(file, lines, syms[k]));
        }
        assert forall|c: ChunkView| #[trigger] all.contains(c) implies exists|k: int|
            0 <= k < syms.len() && has_lines(#[trigger] syms[k], total) && c == symbol_chunk(
                file,
                lines,
                syms[k],
            ) by {
            lemma_contains_push(before, own, c);
            if before.contains(c) {
                let k = choose|k: int|
                    0 <= k < front.len() && has_lines(#[trigger] front[k], total) && c
                        == symbol_chunk(file, lines, front[k]);
                assert(syms[k] == front[k]);
            } else {
                assert(syms[syms.len() - 1] == last);
            }
        }
    }
}

/// Which chunks the windows give.
proof fn lemma_window_chunks(
    file: Seq<char>,
    lines: Seq<Seq<char>>,
    syms: Seq<SymbolView>,
    n: nat,
)
    ensures
        forall|k: int|
            0 <= k < n && window_open(syms, lines.len() as int, k * STRIDE)
                ==> window_chunks(file, lines, syms, n).contains(
                #[trigger] window_chunk(file, lines, k),
            ),
        forall|c: ChunkView| #[trigger]
            window_chunks(file, lines, syms, n).contains(c) ==> exists|k: int|
                0 <= k < n && window_open(syms, lines.len() as int, k * STRIDE) && c
                    == #[trigger] window_chunk(file, lines, k),
    decreases n,
{
    if n > 0 {
        let m = (n - 1) as nat;
        let total = lines.len() as int;
        let before = window_chunks(file, lines, syms, m);
        let all = window_chunks(file, lines, syms, n);
        let own = window_chunk(file, lines, m as int);
        lemma_window_chunks(file, lines, syms, m);
        assert forall|k: int| 0 <= k < n && window_open(syms, total, k * STRIDE) implies
            all.contains(#[trigger] window_chunk(file, lines, k)) by {
            lemma_contains_push(before, own, window_chunk(file, lines, k));
        }
        assert forall|c: ChunkView| #[trigger] all.contains(c) implies exists|k: int|
            0 <= k < n && window_open(syms, total, k * STRIDE) && c == #[trigger] window_chunk(
                file,
                lines,
                k,
            ) by {
            lemma_contains_push(before, own, c);
            if !before.contains(c) {
                assert(c == window_chunk(file, lines, m as int));
            }
        }
    }
}

/// The parts of a blank joined text are blank.
proof fn lemma_blank_join(parts: Seq<Seq<char>>, sep: Seq<char>, j: int)
    requires
        0 <= j < parts.len(),
        text::blank(text::join(parts, sep)),
    ensures
        text::blank(parts[j]),
    decreases parts.len(),
{
    if parts.len() > 1 {
        let front = text::join(parts.drop_last(), sep);
        let whole = text::join(parts, sep);
        assert forall|i: int| 0 <= i < front.len() implies text::is_space(#[trigger] front[i]) by {
            assert(whole[i] == front[i]);
        }
        let offset = front.len() + sep.len();
        assert forall|i: int| 0 <= i < parts.last().len() implies text::is_space(
            #[trigger] parts.last()[i],
        ) by {
            assert(whole[offset + i] == parts.last()[i]);
        }
        if j < parts.len() - 1 {
            lemma_blank_join(parts.drop_last(), sep, j);
        }
    }
}

/// A chunk of the lines `first..=last` that hold a line that is not blank is not
/// blank itself.
proof fn lemma_line_chunk_not_blank(
    file: Seq<char>,
    lines: Seq<Seq<char>>,
    first: int,
    last: int,
    symbol_ref: Option<Seq<char>>,
    i: int,
)
    requires
        0 <= first <= i <= last < lines.len(),
        !text::blank(lines[i]),
    ensures
        !text::blank(line_chunk(file, lines, first, last, symbol_ref).content),
{
    let parts = lines.subrange(first, last + 1);
    if text::blank(text::join(parts, "\n"@)) {
        lemma_blank_join(parts, "\n"@, i - first);
        assert(parts[i - first] == lines[i]);
    }
}

/// No chunk of a file is blank.
pub proof fn law_no_blank_chunk(file: Seq<char>, source: Seq<char>, syms: Seq<SymbolView>, c: ChunkView)
    requires
        file_chunks(file, source, syms).contains(c),
    ensures
        !text::blank(c.content),
{
    let lines = text::lines(source);
    lemma_not_blank(
        symbol_chunks(file, lines, syms) + window_chunks(
            file,
            lines,
            syms,
            window_count(lines.len() as int),
        ),
    );
}

/// Every chunk of a file is a run of the file's lines: it names the file, its
/// line numbers lie within the file, and its content is those lines. A chunk
/// that names a symbol is the body of a symbol of that name; one that names
/// none is at most a window long and has a line outside every symbol.
pub proof fn law_chunk_is_a_run_of_lines(
    file: Seq<char>,
    source: Seq<char>,
    syms: Seq<SymbolView>,
    c: ChunkView,
)
    requires
        text::lines(source).len() + WINDOW <= u32::MAX,
        file_chunks(file, source, syms).contains(c),
    ensures
        c.file == file,
        1 <= c.line_start <= c.line_end <= text::lines(source).len(),
        c.content == text::join(
            text::lines(source).subrange(c.line_start - 1, c.line_end as int),
            "\n"@,
        ),
        c.symbol_ref matches Some(fqn) ==> exists|k: int|
            0 <= k < syms.len() && fqn == (#[trigger] syms[k]).qualified.fqn() && c.line_start - 1
                == first_line(syms[k]) && c.line_end - 1 == last_line(
                syms[k],
                text::lines(source).len() as int,
            ),
        c.symbol_ref is None ==> c.line_end - c.line_start < WINDOW && exists|i: int|
            c.line_start <= i + 1 <= c.line_end && !covered(
                syms,
                text::lines(source).len() as int,
                i,
            ),
{
    let lines = text::lines(source);
    let total = lines.len() as int;
    let n = window_count(total);
    let from_symbols = symbol_chunks(file, lines, syms);
    let from_windows = window_chunks(file, lines, syms, n);
    lemma_not_blank(from_symbols + from_windows);
    lemma_symbol_chunks(file, lines, syms);
    lemma_window_chunks(file, lines, syms, n);
    let i = choose|i: int|
        0 <= i < (from_symbols + from_windows).len() && (from_symbols + from_windows)[i] == c;
    if i < from_symbols.len() {
        assert(from_symbols[i] == c);
        assert(from_symbols.contains(c));
        let k = choose|k: int|
            0 <= k < syms.len() && has_lines(#[trigger] syms[k], total) && c == symbol_chunk(
                file,
                lines,
                syms[k],
            );
        assert(syms[k].qualified.fqn() == c.symbol_ref->0);
    } else {
        assert(from_windows[i - from_symbols.len()] == c);
        assert(from_windows.contains(c));
        let k = choose|k: int|
            0 <= k < n && window_open(syms, total, k * STRIDE) && c == #[trigger] window_chunk(
                file,
                lines,
                k,
            );
        let j = choose|j: int|
            k * STRIDE <= j <= window_end(total, k * STRIDE) && !covered(syms, total, j);
        assert(c.line_start <= j + 1 <= c.line_end);
    }
}

/// Every line that is not blank lies in some chunk of the file.
pub proof fn law_every_line_is_in_a_chunk(
    file: Seq<char>,
    source: Seq<char>,
    syms: Seq<SymbolView>,
    i: int,
)
    requires
        text::lines(source).len() + WINDOW <= u32::MAX,
        0 <= i < text::lines(source).len(),
        !text::blank(text::lines(source)[i]),
    ensures
        exists|c: ChunkView| #[trigger]
            file_chunks(file, source, syms).contains(c) && c.line_start <= i + 1 <= c.line_end,
{
    let lines = text::lines(source);
    let total = lines.len() as int;
    let n = window_count(total);
    let from_symbols = symbol_chunks(file, lines, syms);
    let from_windows = window_chunks(file, lines, syms, n);
    let all = from_symbols + from_windows;
    lemma_not_blank(all);
    lemma_symbol_chunks(file, lines, syms);
    lemma_window_chunks(file, lines, syms, n);
    if covered(syms, total, i) {
        let k = choose|k: int| 0 <= k < syms.len() && #[trigger] covers(syms[k], total, i);
        let c = symbol_chunk(file, lines, syms[k]);
        assert(from_symbols.contains(c));
        let at = choose|at: int| 0 <= at < from_symbols.len() && from_symbols[at] == c;
        assert(all[at] == c);
        lemma_line_chunk_not_blank(
            file,
            lines,
            first_line(syms[k]),
            last_line(syms[k], total),
            c.symbol_ref,
            i,
        );
        assert(file_chunks(file, source, syms).contains(c));
    } else {
        let k = i / STRIDE as int;
        assert(k * STRIDE <= i < k * STRIDE + STRIDE);
        assert(0 <= k < n);
        assert(window_open(syms, total, k * STRIDE));
        let c = window_chunk(file, lines, k);
        assert(from_windows.contains(c));
        let at = choose|at: int| 0 <= at < from_windows.len() && from_windows[at] == c;
        assert(all[from_symbols.len() + at] == c);
        lemma_line_chunk_not_blank(
            file,
            lines,
            k * STRIDE,
            window_end(total, k * STRIDE),
            None,
            i,
        );
        assert(file_chunks(file, source, syms).contains(c));
    }
}

/// Each symbol body becomes one chunk: a symbol that stands on the lines `lo` to
/// `hi` of the file, not all of them blank, has a chunk of exactly these lines that
/// names it. A symbol that claims to start before the first line starts there, and
/// one that claims to end behind the last line ends there.
pub proof fn law_symbol_body_is_a_chunk(
    file: Seq<char>,
    source: Seq<char>,
    syms: Seq<SymbolView>,
    k: int,
    lo: u32,
    hi: u32,
    line: int,
)
    requires
        text::lines(source).len() + WINDOW <= u32::MAX,
        0 <= k < syms.len(),
        lo == syms[k].line_start || (syms[k].line_start == 0 && lo == 1),
        hi == syms[k].line_end || (syms[k].line_end == 0 && hi == 1) || (syms[k].line_end > hi && hi
            == text::lines(source).len()),
        1 <= lo <= hi <= text::lines(source).len(),
        lo <= line <= hi,
        !text::blank(text::lines(source)[line - 1]),
    ensures
        file_chunks(file, source, syms).contains(
            ChunkView {
                file,
                line_start: lo,
                line_end: hi,
                content: text::join(text::lines(source).subrange(lo - 1, hi as int), "\n"@),
                symbol_ref: Some(syms[k].qualified.fqn()),
            },
        ),
{
    let lines = text::lines(source);
    let total = lines.len() as int;
    let n = window_count(total);
    let from_symbols = symbol_chunks(file, lines, syms);
    let all = from_symbols + window_chunks(file, lines, syms, n);
    lemma_not_blank(all);
    lemma_symbol_chunks(file, lines, syms);
    let c = symbol_chunk(file, lines, syms[k]);
    assert(first_line(syms[k]) == lo - 1);
    assert(last_line(syms[k], total) == hi - 1);
    assert(has_lines(syms[k], total));
    assert(from_symbols.contains(c));
    let at = choose|at: int| 0 <= at < from_symbols.len() && from_symbols[at] == c;
    assert(all[at] == c);
    lemma_line_chunk_not_blank(file, lines, lo - 1, hi - 1, c.symbol_ref, line - 1);
    assert(file_chunks(file, source, syms).contains(c));
}

/// A chunk that names a symbol is the body of a symbol of that name: it starts where
/// the symbol starts and ends where the symbol ends, or with the file.
pub proof fn law_named_chunk_is_a_symbol_body(
    file: Seq<char>,
    source: Seq<char>,
    syms: Seq<SymbolView>,
    c: ChunkView,
    fqn: Seq<char>,
)
    requires
        text::lines(source).len() + WINDOW <= u32::MAX,
        file_chunks(file, source, syms).contains(c),
        c.symbol_ref == Some(fqn),
    ensures
        exists|k: int|
            0 <= k < syms.len() && (#[trigger] syms[k]).qualified.fqn() == fqn && (c.line_start
                == syms[k].line_start || (syms[k].line_start == 0 && c.line_start == 1)) && (
            c.line_end == syms[k].line_end || (syms[k].line_end == 0 && c.line_end == 1) || (
            syms[k].line_end > c.line_end && c.line_end == text::lines(source).len())),
{
    law_chunk_is_a_run_of_lines(file, source, syms, c);
    let k = choose|k: int|
        0 <= k < syms.len() && fqn == (#[trigger] syms[k]).qualified.fqn() && c.line_start - 1
            == first_line(syms[k]) && c.line_end - 1 == last_line(
            syms[k],
            text::lines(source).len() as int,
        );
    assert(syms[k].qualified.fqn() == fqn);
}

/// Whether the line with the number `line` lies outside every symbol: before its
/// first line or behind its last, which is line 1 at least.
pub open spec fn outside_all(syms: Seq<SymbolView>, line: int) -> bool {
    forall|m: int|
        0 <= m < syms.len() ==> line < (#[trigger] syms[m]).line_start || (line
            > syms[m].line_end && line > 1)
}

proof fn lemma_outside(syms: Seq<SymbolView>, total: int, line: int)
    requires
        1 <= line <= total,
    ensures
        outside_all(syms, line) <==> !covered(syms, total, line - 1),
{
    if outside_all(syms, line) {
        assert(!covered(syms, total, line - 1)) by {
            if covered(syms, total, line - 1) {
                let m = choose|m: int|
                    0 <= m < syms.len() && #[trigger] covers(syms[m], total, line - 1);
                assert(syms[m].line_start <= line);
            }
        }
    }
    if !covered(syms, total, line - 1) {
        assert forall|m: int| 0 <= m < syms.len() implies line < (#[trigger] syms[m]).line_start
            || (line > syms[m].line_end && line > 1) by {
            assert(!covers(syms[m], total, line - 1));
        }
    }
}

/// Coverage windows are 50 lines long and start every 25 lines: one of them that has
/// a line outside every symbol, and a line that is not blank, is a chunk that names
/// no symbol. The last ones end with the file.
pub proof fn law_open_window_is_a_chunk(
    file: Seq<char>,
    source: Seq<char>,
    syms: Seq<SymbolView>,
    k: int,
    lo: u32,
    hi: u32,
    free: int,
    line: int,
)
    requires
        text::lines(source).len() + WINDOW <= u32::MAX,
        0 <= k,
        lo == 25 * k + 1,
        lo <= text::lines(source).len(),
        hi == 25 * k + 50 || (hi < 25 * k + 50 && hi == text::lines(source).len()),
        hi <= text::lines(source).len(),
        lo <= free <= hi,
        outside_all(syms, free),
        lo <= line <= hi,
        !text::blank(text::lines(source)[line - 1]),
    ensures
        file_chunks(file, source, syms).contains(
            ChunkView {
                file,
                line_start: lo,
                line_end: hi,
                content: text::join(text::lines(source).subrange(lo - 1, hi as int), "\n"@),
                symbol_ref: None,
            },
        ),
{
    let lines = text::lines(source);
    let total = lines.len() as int;
    let n = window_count(total);
    let from_symbols = symbol_chunks(file, lines, syms);
    let from_windows = window_chunks(file, lines, syms, n);
    let all = from_symbols + from_windows;
    lemma_not_blank(all);
    lemma_window_chunks(file, lines, syms, n);
    lemma_outside(syms, total, free);
    let c = window_chunk(file, lines, k);
    assert(window_end(total, k * STRIDE) == hi - 1);
    assert(k * STRIDE <= free - 1 <= window_end(total, k * STRIDE));
    assert(window_open(syms, total, k * STRIDE));
    assert(0 <= k < n);
    assert(from_windows.contains(c));
    let at = choose|at: int| 0 <= at < from_windows.len() && from_windows[at] == c;
    assert(all[from_symbols.len() + at] == c);
    lemma_line_chunk_not_blank(file, lines, lo - 1, hi - 1, None, line - 1);
    assert(file_chunks(file, source, syms).contains(c));
}

/// A chunk that names no symbol is such a window: it starts on line 1, 26, 51 and so
/// on, is 50 lines long unless the file ends before, and has a line outside every
/// symbol.
pub proof fn law_unnamed_chunk_is_an_open_window(
    file: Seq<char>,
    source: Seq<char>,
    syms: Seq<SymbolView>,
    c: ChunkView,
)
    requires
        text::lines(source).len() + WINDOW <= u32::MAX,
        file_chunks(file, source, syms).contains(c),
        c.symbol_ref is None,
    ensures
        c.line_start as int % 25 == 1,
        c.line_end == c.line_start + 49 || (c.line_end < c.line_start + 49 && c.line_end
            == text::lines(source).len()),
        exists|free: int|
            c.line_start <= free <= c.line_end && #[trigger] outside_all(syms, free),
{
    let lines = text::lines(source);
    let total = lines.len() as int;
    let n = window_count(total);
    let from_symbols = symbol_chunks(file, lines, syms);
    let from_windows = window_chunks(file, lines, syms, n);
    let all = from_symbols + from_windows;
    lemma_not_blank(all);
    lemma_symbol_chunks(file, lines, syms);
    lemma_window_chunks(file, lines, syms, n);
    let i = choose|i: int| 0 <= i < all.len() && all[i] == c;
    if i < from_symbols.len() {
        assert(from_symbols[i] == c);
        assert(from_symbols.contains(c));
    } else {
        assert(from_windows[i - from_symbols.len()] == c);
        assert(from_windows.contains(c));
        let k = choose|k: int|
            0 <= k < n && window_open(syms, total, k * STRIDE) && c == #[trigger] window_chunk(
                file,
                lines,
                k,
            );
        let j = choose|j: int|
            k * STRIDE <= j <= window_end(total, k * STRIDE) && !covered(syms, total, j);
        lemma_outside(syms, total, j + 1);
        assert(outside_all(syms, j + 1));
        assert(c.line_start == 25 * k + 1);
    }
}

/// The chunks that name a symbol.
pub open spec fn naming(chunks: Seq<ChunkView>) -> Seq<ChunkView> {
    chunks.filter(|c: ChunkView| c.symbol_ref is Some)
}

/// The chunks of the symbols stand in the order of the symbols, one for each at
/// most: those of some symbols and those of some more are the chunks of all of them.
pub proof fn law_symbol_chunks_follow_the_symbols(
    file: Seq<char>,
    source: Seq<char>,
    a: Seq<SymbolView>,
    b: Seq<SymbolView>,
)
    ensures
        naming(file_chunks(file, source, a + b)) == naming(file_chunks(file, source, a)) + naming(
            file_chunks(file, source, b),
        ),
        a.len() == 0 ==> naming(file_chunks(file, source, a)).len() == 0,
        a.len() == 1 ==> naming(file_chunks(file, source, a)).len() <= 1,
{
    let lines = text::lines(source);
    lemma_naming(file, source, a);
    lemma_naming(file, source, b);
    lemma_naming(file, source, a + b);
    lemma_symbol_chunks_concat(file, lines, a, b);
    lemma_not_blank_concat(symbol_chunks(file, lines, a), symbol_chunks(file, lines, b));
    if a.len() == 1 {
        assert(a.drop_last() =~= seq![]);
        assert(symbol_chunks(file, lines, a.drop_last()) =~= seq![]);
        lemma_not_blank_is_shorter(symbol_chunks(file, lines, a));
    }
}

proof fn lemma_not_blank_is_shorter(all: Seq<ChunkView>)
    ensures
        not_blank(all).len() <= all.len(),
    decreases all.len(),
{
    if all.len() > 0 {
        lemma_not_blank_is_shorter(all.drop_last());
    }
}

proof fn lemma_not_blank_concat(a: Seq<ChunkView>, b: Seq<ChunkView>)
    ensures
        not_blank(a + b) == not_blank(a) + not_blank(b),
    decreases b.len(),
{
    if b.len() == 0 {
        assert(a + b =~= a);
        assert(not_blank(a) + not_blank(b) =~= not_blank(a));
    } else {
        lemma_not_blank_concat(a, b.drop_last());
        assert((a + b).drop_last() =~= a + b.drop_last());
        assert(not_blank(a + b) =~= not_blank(a) + not_blank(b));
    }
}

proof fn lemma_symbol_chunks_concat(
    file: Seq<char>,
    lines: Seq<Seq<char>>,
    a: Seq<SymbolView>,
    b: Seq<SymbolView>,
)
    ensures
        symbol_chunks(file, lines, a + b) == symbol_chunks(file, lines, a) + symbol_chunks(
            file,
            lines,
            b,
        ),
    decreases b.len(),
{
    if b.len() == 0 {
        assert(a + b =~= a);
        assert(symbol_chunks(file, lines, a) + symbol_chunks(file, lines, b) =~= symbol_chunks(
            file,
            lines,
            a,
        ));
    } else {
        lemma_symbol_chunks_concat(file, lines, a, b.drop_last());
        assert((a + b).drop_last() =~= a + b.drop_last());
        assert(symbol_chunks(file, lines, a + b) =~= symbol_chunks(file, lines, a)
            + symbol_chunks(file, lines, b));
    }
}

/// The chunks that name a symbol come before the windows.
proof fn lemma_naming(file: Seq<char>, source: Seq<char>, syms: Seq<SymbolView>)
    ensures
        naming(file_chunks(file, source, syms)) == not_blank(
            symbol_chunks(file, text::lines(source), syms),
        ),
{
    let lines = text::lines(source);
    let n = window_count(lines.len() as int);
    let s = symbol_chunks(file, lines, syms);
    let w = window_chunks(file, lines, syms, n);
    lemma_not_blank_concat(s, w);
    lemma_not_blank(s);
    lemma_not_blank(w);
    lemma_symbol_chunks(file, lines, syms);
    lemma_window_chunks(file, lines, syms, n);
    let x = not_blank(s);
    let y = not_blank(w);
    assert forall|i: int| 0 <= i < x.len() implies (#[trigger] x[i]).symbol_ref is Some by {
        assert(x.contains(x[i]));
    }
    assert forall|i: int| 0 <= i < y.len() implies (#[trigger] y[i]).symbol_ref is None by {
        assert(y.contains(y[i]));
    }
    lemma_all_named(x);
    lemma_none_named(x, y);
}

proof fn lemma_all_named(x: Seq<ChunkView>)
    requires
        forall|i: int| 0 <= i < x.len() ==> (#[trigger] x[i]).symbol_ref is Some,
    ensures
        naming(x) == x,
    decreases x.len(),
{
    reveal(Seq::filter);
    if x.len() > 0 {
        let front = x.drop_last();
        assert forall|i: int| 0 <= i < front.len() implies (#[trigger] front[i]).symbol_ref is Some by {
            assert(front[i] == x[i]);
        }
        lemma_all_named(front);
        assert(x[x.len() - 1].symbol_ref is Some);
        assert(front.push(x.last()) =~= x);
    }
}

proof fn lemma_none_named(x: Seq<ChunkView>, y: Seq<ChunkView>)
    requires
        forall|i: int| 0 <= i < y.len() ==> (#[trigger] y[i]).symbol_ref is None,
    ensures
        naming(x + y) == naming(x),
    decreases y.len(),
{
    reveal(Seq::filter);
    if y.len() > 0 {
        let front = y.drop_last();
        assert forall|i: int| 0 <= i < front.len() implies (#[trigger] front[i]).symbol_ref is None by {
            assert(front[i] == y[i]);
        }
        lemma_none_named(x, front);
        assert(y[y.len() - 1].symbol_ref is None);
        assert((x + y).drop_last() =~= x + front);
        assert((x + y).last() == y[y.len() - 1]);
    } else {
        assert(x + y =~= x);
    }
}

/// The windows come behind the chunks of the symbols, each once, in the order of the
/// file.
pub proof fn law_windows_come_last_in_order(
    file: Seq<char>,
    source: Seq<char>,
    syms: Seq<SymbolView>,
    i: int,
    j: int,
)
    requires
        text::lines(source).len() + WINDOW <= u32::MAX,
        0 <= i < j < file_chunks(file, source, syms).len(),
        file_chunks(file, source, syms)[i].symbol_ref is None,
    ensures
        file_chunks(file, source, syms)[j].symbol_ref is None,
        file_chunks(file, source, syms)[i].line_start < file_chunks(
            file,
            source,
            syms,
        )[j].line_start,
{
    let lines = text::lines(source);
    let n = window_count(lines.len() as int);
    let s = symbol_chunks(file, lines, syms);
    let w = window_chunks(file, lines, syms, n);
    let all = file_chunks(file, source, syms);
    lemma_not_blank_concat(s, w);
    lemma_not_blank(s);
    lemma_symbol_chunks(file, lines, syms);
    let x = not_blank(s);
    let y = not_blank(w);
    if i < x.len() {
        assert(x[i] == all[i]);
        assert(x.contains(x[i]));
    }
    assert(y[i - x.len()] == all[i]);
    assert(y[j - x.len()] == all[j]);
    assert(n * STRIDE <= lines.len() + STRIDE - 1) by {
        assert(n == (lines.len() + STRIDE - 1) / STRIDE as int);
    }
    lemma_windows_grow(file, lines, syms, n);
    lemma_not_blank_grows(w);
}

proof fn lemma_windows_grow(
    file: Seq<char>,
    lines: Seq<Seq<char>>,
    syms: Seq<SymbolView>,
    n: nat,
)
    requires
        lines.len() + WINDOW <= u32::MAX,
        n * STRIDE <= lines.len() + STRIDE - 1,
    ensures
        forall|i: int|
            0 <= i < window_chunks(file, lines, syms, n).len() ==> (#[trigger] window_chunks(
                file,
                lines,
                syms,
                n,
            )[i]).symbol_ref is None && window_chunks(file, lines, syms, n)[i].line_start <= n
                * STRIDE,
        grows(window_chunks(file, lines, syms, n)),
    decreases n,
{
    if n > 0 {
        let m = (n - 1) as nat;
        assert(m * STRIDE + STRIDE == n * STRIDE);
        lemma_windows_grow(file, lines, syms, m);
        let before = window_chunks(file, lines, syms, m);
        let all = window_chunks(file, lines, syms, n);
        assert forall|i: int| 0 <= i < all.len() implies (#[trigger] all[i]).symbol_ref is None
            && all[i].line_start <= n * STRIDE by {
            if i < before.len() {
                assert(all[i] == before[i]);
            }
        }
        assert forall|i: int, j: int| 0 <= i < j < all.len() implies (#[trigger] all[i]).line_start
            < (#[trigger] all[j]).line_start && all[j].symbol_ref is None by {
            assert(all[i] == before[i]);
            if j < before.len() {
                assert(all[j] == before[j]);
            }
        }
    }
}

/// Whether the chunks start ever later and name no symbol.
spec fn grows(chunks: Seq<ChunkView>) -> bool {
    forall|i: int, j: int|
        0 <= i < j < chunks.len() ==> (#[trigger] chunks[i]).line_start < (
        #[trigger] chunks[j]).line_start && chunks[j].symbol_ref is None
}

proof fn lemma_not_blank_grows(w: Seq<ChunkView>)
    requires
        grows(w),
    ensures
        grows(not_blank(w)),
    decreases w.len(),
{
    if w.len() > 0 {
        let front = w.drop_last();
        assert forall|i: int, j: int| 0 <= i < j < front.len() implies (
        #[trigger] front[i]).line_start < (#[trigger] front[j]).line_start
            && front[j].symbol_ref is None by {
            assert(front[i] == w[i] && front[j] == w[j]);
        }
        lemma_not_blank_grows(front);
        lemma_not_blank(front);
        let y = not_blank(front);
        let all = not_blank(w);
        assert forall|i: int, j: int| 0 <= i < j < all.len() implies (#[trigger] all[i]).line_start
            < (#[trigger] all[j]).line_start && all[j].symbol_ref is None by {
            if j < y.len() {
                assert(all[i] == y[i] && all[j] == y[j]);
            } else {
                assert(all[i] == y[i]);
                assert(y.contains(y[i]));
                let k = choose|k: int| 0 <= k < front.len() && front[k] == y[i];
                assert(w[k] == y[i]);
                assert(w[w.len() - 1] == all[j]);
            }
        }
    }
}


/// The model of a list of chunks has each of them at its place, with its own parts.
pub proof fn law_chunk_models(list: Seq<Chunk>, i: int)
    requires
        0 <= i < list.len(),
    ensures
        chunk_views(list).len() == list.len(),
        chunk_views(list)[i] == (ChunkView {
            file: list[i].file@,
            line_start: list[i].line_start,
            line_end: list[i].line_end,
            content: list[i].content@,
            symbol_ref: text::text_opt(list[i].symbol_ref),
        }),
{
}

} // verus!
