//! Symbols and their fully qualified names.

use vstd::prelude::*;
use vstd::string::*;

use crate::text;
use crate::text::clone_opt;
use crate::text::clone_strings;

verus! {

/// What kind of definition a symbol is.
#[derive(Debug, Clone, Copy, PartialEq, Eq, Structural)]
pub enum SymbolKind {
    Function,
    Method,
    Struct,
    Trait,
    Impl,
    Class,
    Module,
    Interface,
}

/// A symbol's name, qualified by its file and the scopes around it.
#[derive(Debug)]
pub struct QualifiedSymbol {
    pub file: String,
    /// Enclosing scopes, outermost first.
    pub scope_path: Vec<String>,
    pub name: String,
}

/// The model of a [`QualifiedSymbol`].
#[verifier::ext_equal]
pub struct QualifiedSymbolView {
    pub file: Seq<char>,
    pub scope_path: Seq<Seq<char>>,
    pub name: Seq<char>,
}

impl QualifiedSymbolView {
    /// File, scopes and name, joined by `::`.
    pub open spec fn fqn(self) -> Seq<char> {
        text::join(seq![self.file] + self.scope_path + seq![self.name], "::"@)
    }

    /// The identifier of the symbol's record.
    pub open spec fn record_id(self) -> Seq<char> {
        symbol_ref(self.fqn())
    }
}

/// The reference under which the symbol with the qualified name `fqn` is stored.
pub open spec fn symbol_ref(fqn: Seq<char>) -> Seq<char> {
    "symbol:⟨"@ + fqn + "⟩"@
}

impl View for QualifiedSymbol {
    type V = QualifiedSymbolView;

    open spec fn view(&self) -> QualifiedSymbolView {
        QualifiedSymbolView {
            file: self.file@,
            scope_path: text::texts(self.scope_path@),
            name: self.name@,
        }
    }
}

impl Clone for QualifiedSymbol {
    fn clone(&self) -> (r: Self)
        ensures
            r@ == self@,
    {
        QualifiedSymbol {
            file: self.file.clone(),
            scope_path: clone_strings(&self.scope_path),
            name: self.name.clone(),
        }
    }
}

impl QualifiedSymbol {
    /// The fully qualified name: file, scopes and name, joined by `::`.
    pub fn fqn(&self) -> (r: String)
        ensures
            r@ == self@.fqn(),
    {
        let ghost parts = seq![self@.file] + self@.scope_path;
        let mut out = self.file.clone();
        let mut i: usize = 0;
        assert(parts.take(1) =~= seq![self@.file]);
        while i < self.scope_path.len()
            invariant
                i <= self.scope_path.len(),
                parts == seq![self@.file] + self@.scope_path,
                out@ == text::join(parts.take(i + 1), "::"@),
            decreases self.scope_path.len() - i,
        {
            out.append("::");
            out.append(self.scope_path[i].as_str());
            assert(parts.take(i + 2).drop_last() =~= parts.take(i + 1));
            assert(parts.take(i + 2).last() == self.scope_path@[i as int]@);
            i = i + 1;
        }
        assert(parts.take(i + 1) =~= parts);
        out.append("::");
        out.append(self.name.as_str());
        assert((parts + seq![self@.name]).drop_last() =~= parts);
        out
    }

    /// The identifier of the symbol's record.
    pub fn record_id(&self) -> (r: String)
        ensures
            r@ == self@.record_id(),
    {
        wrap_symbol_ref(self.fqn().as_str())
    }
}

/// The reference under which the symbol with the qualified name `fqn` is stored.
pub fn wrap_symbol_ref(fqn: &str) -> (r: String)
    ensures
        r@ == symbol_ref(fqn@),
{
    let mut out = "symbol:⟨".to_owned();
    out.append(fqn);
    out.append("⟩");
    out
}

/// A symbol defined in a source file. Lines are counted from one.
#[derive(Debug)]
pub struct Symbol {
    pub qualified: QualifiedSymbol,
    pub kind: SymbolKind,
    pub line_start: u32,
    pub line_end: u32,
    pub signature: Option<String>,
    pub parent_fqn: Option<String>,
}

/// The model of a [`Symbol`].
#[verifier::ext_equal]
pub struct SymbolView {
    pub qualified: QualifiedSymbolView,
    pub kind: SymbolKind,
    pub line_start: u32,
    pub line_end: u32,
    pub signature: Option<Seq<char>>,
    pub parent_fqn: Option<Seq<char>>,
}

impl View for Symbol {
    type V = SymbolView;

    open spec fn view(&self) -> SymbolView {
        SymbolView {
            qualified: self.qualified@,
            kind: self.kind,
            line_start: self.line_start,
            line_end: self.line_end,
            signature: text::text_opt(self.signature),
            parent_fqn: text::text_opt(self.parent_fqn),
        }
    }
}

impl Clone for Symbol {
    fn clone(&self) -> (r: Self)
        ensures
            r@ == self@,
    {
        Symbol {
            qualified: self.qualified.clone(),
            kind: self.kind,
            line_start: self.line_start,
            line_end: self.line_end,
            signature: clone_opt(&self.signature),
            parent_fqn: clone_opt(&self.parent_fqn),
        }
    }
}

/// The models of a sequence of symbols.
pub open spec fn symbol_views(s: Seq<Symbol>) -> Seq<SymbolView> {
    Seq::new(s.len(), |i: int| s[i]@)
}

/// The models of a sequence of qualified names.
pub open spec fn qualified_views(s: Seq<QualifiedSymbol>) -> Seq<QualifiedSymbolView> {
    Seq::new(s.len(), |i: int| s[i]@)
}


/// A qualified name is made of the file, the scopes from the outermost in, and the
/// name, with `::` between any two; the record is named after it.
pub proof fn law_qualified_name(q: QualifiedSymbolView)
    ensures
        q.scope_path.len() == 0 ==> q.fqn() == q.file + "::"@ + q.name,
        q.scope_path.len() > 0 ==> q.fqn() == q.file + "::"@ + text::join(q.scope_path, "::"@)
            + "::"@ + q.name,
        q.record_id() == "symbol:⟨"@ + q.fqn() + "⟩"@,
{
    let sep = "::"@;
    let f = seq![q.file];
    let n = seq![q.name];
    text::law_join_separates_neighbours(f, q.scope_path, sep);
    text::law_join_separates_neighbours(f + q.scope_path, n, sep);
    text::law_join_separates_neighbours(n, n, sep);
    if q.scope_path.len() == 0 {
        assert(f + q.scope_path =~= f);
    }
}


/// The model of a list of symbols has each of them at its place, with its own parts,
/// and so has that of a list of qualified names.
pub proof fn law_symbol_models(syms: Seq<Symbol>, names: Seq<QualifiedSymbol>, i: int)
    ensures
        symbol_views(syms).len() == syms.len(),
        qualified_views(names).len() == names.len(),
        0 <= i < syms.len() ==> symbol_views(syms)[i] == (SymbolView {
            qualified: syms[i].qualified@,
            kind: syms[i].kind,
            line_start: syms[i].line_start,
            line_end: syms[i].line_end,
            signature: text::text_opt(syms[i].signature),
            parent_fqn: text::text_opt(syms[i].parent_fqn),
        }),
        0 <= i < names.len() ==> qualified_views(names)[i] == (QualifiedSymbolView {
            file: names[i].file@,
            scope_path: text::texts(names[i].scope_path@),
            name: names[i].name@,
        }),
{
}

} // verus!
