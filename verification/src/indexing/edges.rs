//! Resolving the edges between symbols across files.

use vstd::hash_map::StringHashMap;
use vstd::prelude::*;

use crate::indexing::transaction;
use crate::indexing::transaction::ResolvedEdgeView;
use crate::parsing::relations;
use crate::parsing::relations::EdgeKind;
use crate::parsing::relations::EdgeTarget;
use crate::parsing::relations::EdgeTargetView;
use crate::parsing::relations::RawEdge;
use crate::parsing::relations::RawEdgeView;
use crate::parsing::symbols;
use crate::parsing::symbols::QualifiedSymbol;
use crate::parsing::symbols::QualifiedSymbolView;
use crate::parsing::symbols::Symbol;
use crate::parsing::symbols::SymbolView;

verus! {

// ─── Symbol index ────────────────────────────────────────────────────────

/// Symbols by name. Those of one name stand in the order in which they were
/// added.
pub struct SymbolIndex {
    /// The group of each name.
    slots: StringHashMap<usize>,
    groups: Vec<Vec<QualifiedSymbol>>,
}

/// The symbols of each name that has any.
pub type SymbolMap = Map<Seq<char>, Seq<QualifiedSymbolView>>;

/// `m` with one more symbol.
pub open spec fn index_add(m: SymbolMap, q: QualifiedSymbolView) -> SymbolMap {
    let known = if m.contains_key(q.name) {
        m[q.name]
    } else {
        seq![]
    };
    m.insert(q.name, known.push(q))
}

/// `m` with more symbols, added in order.
pub open spec fn index_add_all(m: SymbolMap, qs: Seq<QualifiedSymbolView>) -> SymbolMap
    decreases qs.len(),
{
    if qs.len() == 0 {
        m
    } else {
        index_add(index_add_all(m, qs.drop_last()), qs.last())
    }
}

/// The qualified names of symbols.
pub open spec fn qualified_of(syms: Seq<SymbolView>) -> Seq<QualifiedSymbolView> {
    Seq::new(syms.len(), |i: int| syms[i].qualified)
}

impl View for SymbolIndex {
    type V = SymbolMap;

    closed spec fn view(&self) -> SymbolMap {
        Map::new(
            |name: Seq<char>| self.slots@.contains_key(name),
            |name: Seq<char>| symbols::qualified_views(self.groups@[self.slots@[name] as int]@),
        )
    }
}

impl SymbolIndex {
    /// Every name has a group of its own.
    pub closed spec fn wf(&self) -> bool {
        &&& forall|name: Seq<char>| #[trigger]
            self.slots@.contains_key(name) ==> self.slots@[name] < self.groups@.len()
        &&& forall|a: Seq<char>, b: Seq<char>| #[trigger]
            self.slots@.contains_key(a) && #[trigger] self.slots@.contains_key(b) && a != b
                ==> self.slots@[a] != self.slots@[b]
    }

    /// An index without symbols.
    pub fn new() -> (r: Self)
        ensures
            r.wf(),
            r@ == Map::<Seq<char>, Seq<QualifiedSymbolView>>::empty(),
    {
        let r = SymbolIndex { slots: StringHashMap::new(), groups: Vec::new() };
        assert(r@ =~= Map::<Seq<char>, Seq<QualifiedSymbolView>>::empty());
        r
    }

    /// Adds a symbol.
    pub fn add(&mut self, q: QualifiedSymbol)
        requires
            old(self).wf(),
        ensures
            final(self).wf(),
            final(self)@ == index_add(old(self)@, q@),
    {
        let ghost name = q@.name;
        let ghost view = q@;
        let found: Option<usize> = match self.slots.get(q.name.as_str()) {
            Some(slot) => Some(*slot),
            None => None,
        };
        match found {
            Some(slot) => {
                self.groups[slot].push(q);
                assert(symbols::qualified_views(self.groups@[slot as int]@)
                    =~= symbols::qualified_views(old(self).groups@[slot as int]@).push(view));
            },
            None => {
                let slot: usize = self.groups.len();
                let key = q.name.clone();
                let mut group: Vec<QualifiedSymbol> = Vec::new();
                group.push(q);
                assert(symbols::qualified_views(group@)
                    =~= Seq::<QualifiedSymbolView>::empty().push(view));
                self.groups.push(group);
                self.slots.insert(key, slot);
            },
        }
        assert(self@ =~= index_add(old(self)@, view));
    }

    /// The symbols of a name, if it has any.
    pub fn get(&self, name: &str) -> (r: Option<&Vec<QualifiedSymbol>>)
        requires
            self.wf(),
        ensures
            match r {
                Some(group) => self@.contains_key(name@) && symbols::qualified_views(group@)
                    == self@[name@],
                None => !self@.contains_key(name@),
            },
    {
        match self.slots.get(name) {
            Some(slot) => Some(&self.groups[*slot]),
            None => None,
        }
    }

    /// Adds several symbols, in order.
    pub fn add_all(&mut self, qs: &[QualifiedSymbol])
        requires
            old(self).wf(),
        ensures
            final(self).wf(),
            final(self)@ == index_add_all(old(self)@, symbols::qualified_views(qs@)),
    {
        let ghost views = symbols::qualified_views(qs@);
        let mut i: usize = 0;
        assert(views.take(0) =~= seq![]);
        while i < qs.len()
            invariant
                i <= qs.len(),
                views == symbols::qualified_views(qs@),
                self.wf(),
                self@ == index_add_all(old(self)@, views.take(i as int)),
            decreases qs.len() - i,
        {
            self.add(qs[i].clone());
            assert(views.take(i + 1).drop_last() =~= views.take(i as int));
            i = i + 1;
        }
        assert(views.take(i as int) =~= views);
    }
}

/// The symbols by name.
pub fn build_symbol_index(syms: &[Symbol]) -> (r: SymbolIndex)
    ensures
        r.wf(),
        r@ == index_add_all(Map::empty(), qualified_of(symbols::symbol_views(syms@))),
{
    let ghost views = qualified_of(symbols::symbol_views(syms@));
    let mut index = SymbolIndex::new();
    let mut i: usize = 0;
    assert(views.take(0) =~= seq![]);
    while i < syms.len()
        invariant
            i <= syms.len(),
            views == qualified_of(symbols::symbol_views(syms@)),
            index.wf(),
            index@ == index_add_all(Map::empty(), views.take(i as int)),
        decreases syms.len() - i,
    {
        index.add(syms[i].qualified.clone());
        assert(views.take(i + 1).drop_last() =~= views.take(i as int));
        i = i + 1;
    }
    assert(views.take(i as int) =~= views);
    index
}

// ─── Edge resolution ─────────────────────────────────────────────────────

/// The first of the candidates that is in `file`, or `default` if none is.
pub open spec fn in_file_or(
    candidates: Seq<QualifiedSymbolView>,
    file: Seq<char>,
    default: QualifiedSymbolView,
) -> QualifiedSymbolView
    decreases candidates.len(),
{
    if candidates.len() == 0 {
        default
    } else if candidates[0].file == file {
        candidates[0]
    } else {
        in_file_or(candidates.drop_first(), file, default)
    }
}

/// The symbol that an edge leads to. Of several of the name, one in the file
/// where the edge starts is preferred; otherwise it is the first.
pub open spec fn target_of(edge: RawEdgeView, m: SymbolMap) -> Option<QualifiedSymbolView> {
    match edge.to {
        EdgeTargetView::Resolved(q) => Some(q),
        EdgeTargetView::Unresolved { name } => if m.contains_key(name) && m[name].len() > 0 {
            Some(in_file_or(m[name], edge.from.file, m[name][0]))
        } else {
            None
        },
    }
}

/// The edges whose target is known, in order.
pub open spec fn resolved(edges: Seq<RawEdgeView>, m: SymbolMap) -> Seq<ResolvedEdgeView>
    decreases edges.len(),
{
    if edges.len() == 0 {
        seq![]
    } else {
        let e = edges.last();
        let before = resolved(edges.drop_last(), m);
        match target_of(e, m) {
            Some(to) => before.push(
                ResolvedEdgeView { from: e.from, to, kind: e.kind, line: e.line },
            ),
            None => before,
        }
    }
}

fn pick_candidate(candidates: &Vec<QualifiedSymbol>, file: &String) -> (r: QualifiedSymbol)
    requires
        candidates.len() > 0,
    ensures
        r@ == in_file_or(
            symbols::qualified_views(candidates@),
            file@,
            symbols::qualified_views(candidates@)[0],
        ),
{
    let ghost views = symbols::qualified_views(candidates@);
    let mut i: usize = 0;
    assert(views.skip(0) =~= views);
    while i < candidates.len()
        invariant
            i <= candidates.len(),
            views == symbols::qualified_views(candidates@),
            in_file_or(views.skip(i as int), file@, views[0]) == in_file_or(views, file@, views[0]),
        decreases candidates.len() - i,
    {
        assert(views.skip(i as int)[0] == candidates@[i as int]@);
        if candidates[i].file == *file {
            return candidates[i].clone();
        }
        assert(views.skip(i as int).drop_first() =~= views.skip(i + 1));
        i = i + 1;
    }
    candidates[0].clone()
}

/// The edges with their targets. An edge that names its target only is resolved
/// through the index, a symbol of its own file first; one whose target is not in
/// the index is dropped.
pub fn resolve_edges(edges: &[RawEdge], symbol_index: &SymbolIndex) -> (r: Vec<
    (QualifiedSymbol, QualifiedSymbol, EdgeKind, u32),
>)
    requires
        symbol_index.wf(),
    ensures
        transaction::resolved_views(r@) == resolved(relations::edge_views(edges@), symbol_index@),
{
    let ghost views = relations::edge_views(edges@);
    let mut out: Vec<(QualifiedSymbol, QualifiedSymbol, EdgeKind, u32)> = Vec::new();
    let mut i: usize = 0;
    assert(transaction::resolved_views(out@) =~= resolved(views.take(0), symbol_index@));
    while i < edges.len()
        invariant
            i <= edges.len(),
            views == relations::edge_views(edges@),
            symbol_index.wf(),
            transaction::resolved_views(out@) == resolved(views.take(i as int), symbol_index@),
        decreases edges.len() - i,
    {
        let edge = &edges[i];
        let to: Option<QualifiedSymbol> = match &edge.to {
            EdgeTarget::Resolved(qs) => Some(qs.clone()),
            EdgeTarget::Unresolved { name } => match symbol_index.get(name.as_str()) {
                Some(candidates) => if candidates.len() > 0 {
                    Some(pick_candidate(candidates, &edge.from.file))
                } else {
                    None
                },
                None => None,
            },
        };
        assert(views.take(i + 1).drop_last() =~= views.take(i as int));
        assert(views.take(i + 1).last() == edge@);
        let ghost before = transaction::resolved_views(out@);
        match to {
            Some(to) => {
                let ghost view = ResolvedEdgeView {
                    from: edge@.from,
                    to: to@,
                    kind: edge@.kind,
                    line: edge@.line,
                };
                out.push((edge.from.clone(), to, edge.kind, edge.line));
                assert(transaction::resolved_views(out@) =~= before.push(view));
            },
            None => {},
        }
        i = i + 1;
    }
    assert(views.take(i as int) =~= views);
    out
}

// ─── Laws ────────────────────────────────────────────────────────────────

/// The symbols with the name `name`, in order.
pub open spec fn named(qs: Seq<QualifiedSymbolView>, name: Seq<char>) -> Seq<QualifiedSymbolView>
    decreases qs.len(),
{
    if qs.len() == 0 {
        seq![]
    } else if qs.last().name == name {
        named(qs.drop_last(), name).push(qs.last())
    } else {
        named(qs.drop_last(), name)
    }
}

/// The index lists under each name the symbols of that name, in their order, and
/// knows no other name.
pub proof fn law_index_groups_by_name(qs: Seq<QualifiedSymbolView>, name: Seq<char>)
    ensures
        index_add_all(Map::empty(), qs).contains_key(name) <==> named(qs, name).len() > 0,
        named(qs, name).len() > 0 ==> index_add_all(Map::empty(), qs)[name] == named(qs, name),
    decreases qs.len(),
{
    if qs.len() > 0 {
        law_index_groups_by_name(qs.drop_last(), name);
        if named(qs.drop_last(), name).len() == 0 {
            assert(named(qs.drop_last(), name) =~= seq![]);
        }
    }
}

/// Symbols may be added to an index in two goes.
pub proof fn law_index_extends(
    m: SymbolMap,
    a: Seq<QualifiedSymbolView>,
    b: Seq<QualifiedSymbolView>,
)
    ensures
        index_add_all(m, a + b) == index_add_all(index_add_all(m, a), b),
    decreases b.len(),
{
    if b.len() == 0 {
        assert(a + b =~= a);
    } else {
        law_index_extends(m, a, b.drop_last());
        assert((a + b).drop_last() =~= a + b.drop_last());
    }
}

/// What `in_file_or` finds.
proof fn lemma_in_file_or(
    candidates: Seq<QualifiedSymbolView>,
    file: Seq<char>,
    default: QualifiedSymbolView,
)
    ensures
        ({
            let r = in_file_or(candidates, file, default);
            &&& (exists|i: int| 0 <= i < candidates.len() && (#[trigger] candidates[i]).file
                == file) ==> candidates.contains(r) && r.file == file
            &&& (forall|i: int| 0 <= i < candidates.len() ==> (#[trigger] candidates[i]).file
                != file) ==> r == default
        }),
    decreases candidates.len(),
{
    if candidates.len() > 0 {
        let rest = candidates.drop_first();
        let r = in_file_or(candidates, file, default);
        if candidates[0].file == file {
            assert(candidates.contains(candidates[0]));
        } else {
            lemma_in_file_or(rest, file, default);
            if exists|i: int| 0 <= i < candidates.len() && (#[trigger] candidates[i]).file == file {
                let i = choose|i: int|
                    0 <= i < candidates.len() && (#[trigger] candidates[i]).file == file;
                assert(rest[i - 1] == candidates[i]);
                let j = choose|j: int| 0 <= j < rest.len() && rest[j] == r;
                assert(candidates[j + 1] == r);
            } else {
                assert forall|i: int| 0 <= i < rest.len() implies (#[trigger] rest[i]).file
                    != file by {
                    assert(rest[i] == candidates[i + 1]);
                }
            }
        }
    }
}

/// An edge that names its target leads to a symbol of that name: to one in the
/// file where it starts if there is any, else to the first of the name. If the
/// name is unknown, the edge leads nowhere.
pub proof fn law_target_by_name(edge: RawEdgeView, qs: Seq<QualifiedSymbolView>, name: Seq<char>)
    requires
        edge.to == (EdgeTargetView::Unresolved { name }),
    ensures
        ({
            let group = named(qs, name);
            let own_file = exists|i: int|
                0 <= i < group.len() && (#[trigger] group[i]).file == edge.from.file;
            match target_of(edge, index_add_all(Map::empty(), qs)) {
                Some(to) => group.contains(to) && (own_file ==> to.file == edge.from.file) && (
                !own_file ==> to == group[0]),
                None => group.len() == 0,
            }
        }),
{
    law_index_groups_by_name(qs, name);
    let group = named(qs, name);
    if group.len() > 0 {
        lemma_in_file_or(group, edge.from.file, group[0]);
        assert(group.contains(group[0]));
    }
}

/// An edge whose target the parser knows leads to that target, whatever the index
/// holds.
pub proof fn law_known_target_is_kept(edge: RawEdgeView, m: SymbolMap, q: QualifiedSymbolView)
    requires
        edge.to == EdgeTargetView::Resolved(q),
    ensures
        target_of(edge, m) == Some(q),
        resolved(seq![edge], m) == seq![
            ResolvedEdgeView { from: edge.from, to: q, kind: edge.kind, line: edge.line },
        ],
{
    law_edges_are_resolved_one_by_one(seq![edge], seq![], m);
}

/// Edges are resolved one by one, in their order: an edge whose target is known
/// keeps its start, its kind and its line; one whose target is not is dropped.
pub proof fn law_edges_are_resolved_one_by_one(
    a: Seq<RawEdgeView>,
    b: Seq<RawEdgeView>,
    m: SymbolMap,
)
    ensures
        resolved(a + b, m) == resolved(a, m) + resolved(b, m),
        a.len() == 0 ==> resolved(a, m).len() == 0,
        a.len() == 1 && target_of(a[0], m) is None ==> resolved(a, m).len() == 0,
        a.len() == 1 && target_of(a[0], m) is Some ==> resolved(a, m) == seq![
            ResolvedEdgeView {
                from: a[0].from,
                to: target_of(a[0], m)->0,
                kind: a[0].kind,
                line: a[0].line,
            },
        ],
    decreases b.len(),
{
    if b.len() == 0 {
        assert(a + b =~= a);
    } else {
        law_edges_are_resolved_one_by_one(a, b.drop_last(), m);
        assert((a + b).drop_last() =~= a + b.drop_last());
    }
    assert(resolved(a + b, m) =~= resolved(a, m) + resolved(b, m));
    if a.len() == 1 {
        assert(a.drop_last() =~= seq![]);
        assert(resolved(a.drop_last(), m) =~= seq![]);
        if target_of(a[0], m) is Some {
            assert(resolved(a, m) =~= seq![
                ResolvedEdgeView {
                    from: a[0].from,
                    to: target_of(a[0], m)->0,
                    kind: a[0].kind,
                    line: a[0].line,
                },
            ]);
        }
    }
}

proof fn lemma_first_in_file(
    candidates: Seq<QualifiedSymbolView>,
    file: Seq<char>,
    default: QualifiedSymbolView,
    i: int,
)
    requires
        0 <= i < candidates.len(),
        candidates[i].file == file,
        forall|j: int| 0 <= j < i ==> (#[trigger] candidates[j]).file != file,
    ensures
        in_file_or(candidates, file, default) == candidates[i],
    decreases candidates.len(),
{
    if i > 0 {
        assert(candidates[0].file != file);
        let rest = candidates.drop_first();
        assert forall|j: int| 0 <= j < i - 1 implies (#[trigger] rest[j]).file != file by {
            assert(rest[j] == candidates[j + 1]);
        }
        lemma_first_in_file(rest, file, default, i - 1);
    }
}

/// The place that a symbol has among those of its name.
proof fn lemma_place_in_group(qs: Seq<QualifiedSymbolView>, name: Seq<char>, i: int)
    requires
        0 <= i < qs.len(),
        qs[i].name == name,
    ensures
        named(qs.take(i), name).len() < named(qs, name).len(),
        named(qs, name)[named(qs.take(i), name).len() as int] == qs[i],
        forall|j: int|
            0 <= j < named(qs.take(i), name).len() ==> #[trigger] named(qs, name)[j] == named(
                qs.take(i),
                name,
            )[j],
    decreases qs.len(),
{
    let front = qs.drop_last();
    if i == qs.len() - 1 {
        assert(qs.take(i) =~= front);
    } else {
        assert(front.take(i) =~= qs.take(i));
        lemma_place_in_group(front, name, i);
    }
}

/// The symbols of a name come out of the list, all of them with that name.
proof fn lemma_group_members(qs: Seq<QualifiedSymbolView>, name: Seq<char>)
    ensures
        forall|j: int|
            0 <= j < named(qs, name).len() ==> (#[trigger] named(qs, name)[j]).name == name
                && qs.contains(named(qs, name)[j]),
    decreases qs.len(),
{
    if qs.len() > 0 {
        let front = qs.drop_last();
        lemma_group_members(front, name);
        assert forall|j: int| 0 <= j < named(qs, name).len() implies (
        #[trigger] named(qs, name)[j]).name == name && qs.contains(named(qs, name)[j]) by {
            if j < named(front, name).len() {
                let k = choose|k: int| 0 <= k < front.len() && front[k] == named(front, name)[j];
                assert(qs[k] == named(qs, name)[j]);
            } else {
                assert(qs[qs.len() - 1] == named(qs, name)[j]);
            }
        }
    }
}

/// An edge that names its target leads to the first symbol of that name in its own
/// file; without one there, to the first symbol of that name anywhere; without one
/// at all, nowhere. `qs` are the known symbols, `i` is the place of one of them.
pub proof fn law_named_target_is_the_first_match(
    edge: RawEdgeView,
    qs: Seq<QualifiedSymbolView>,
    name: Seq<char>,
    i: int,
)
    requires
        edge.to == (EdgeTargetView::Unresolved { name }),
    ensures
        0 <= i < qs.len() && qs[i].name == name && qs[i].file == edge.from.file && (forall|j: int|
            0 <= j < i ==> (#[trigger] qs[j]).name != name || qs[j].file != edge.from.file)
            ==> target_of(edge, index_add_all(Map::empty(), qs)) == Some(qs[i]),
        0 <= i < qs.len() && qs[i].name == name && (forall|j: int|
            0 <= j < i ==> (#[trigger] qs[j]).name != name) && (forall|j: int|
            0 <= j < qs.len() ==> (#[trigger] qs[j]).name != name || qs[j].file
                != edge.from.file) ==> target_of(edge, index_add_all(Map::empty(), qs)) == Some(
            qs[i],
        ),
        (forall|j: int| 0 <= j < qs.len() ==> (#[trigger] qs[j]).name != name) ==> target_of(
            edge,
            index_add_all(Map::empty(), qs),
        ) is None,
{
    let group = named(qs, name);
    law_index_groups_by_name(qs, name);
    lemma_group_members(qs, name);
    if 0 <= i < qs.len() && qs[i].name == name {
        let before = named(qs.take(i), name);
        let at = before.len() as int;
        lemma_place_in_group(qs, name, i);
        lemma_group_members(qs.take(i), name);
        if qs[i].file == edge.from.file && forall|j: int|
            0 <= j < i ==> (#[trigger] qs[j]).name != name || qs[j].file != edge.from.file {
            assert forall|j: int| 0 <= j < at implies (#[trigger] group[j]).file
                != edge.from.file by {
                assert(group[j] == before[j]);
                let k = choose|k: int| 0 <= k < qs.take(i).len() && qs.take(i)[k] == before[j];
                assert(qs[k] == before[j]);
            }
            lemma_first_in_file(group, edge.from.file, group[0], at);
        }
        if (forall|j: int| 0 <= j < i ==> (#[trigger] qs[j]).name != name) && (forall|j: int|
            0 <= j < qs.len() ==> (#[trigger] qs[j]).name != name || qs[j].file
                != edge.from.file) {
            assert(at == 0) by {
                if at > 0 {
                    assert(before[0].name == name);
                    let k = choose|k: int| 0 <= k < qs.take(i).len() && qs.take(i)[k] == before[0];
                    assert(qs[k] == before[0]);
                }
            }
            assert forall|j: int| 0 <= j < group.len() implies (#[trigger] group[j]).file
                != edge.from.file by {
                let k = choose|k: int| 0 <= k < qs.len() && qs[k] == group[j];
                assert(qs[k].name == name);
            }
            lemma_in_file_or(group, edge.from.file, group[0]);
        }
    }
    if forall|j: int| 0 <= j < qs.len() ==> (#[trigger] qs[j]).name != name {
        assert(group.len() == 0) by {
            if group.len() > 0 {
                let k = choose|k: int| 0 <= k < qs.len() && qs[k] == group[0];
                assert(qs[k].name == name);
            }
        }
    }
}

/// The index is built of the symbols' own qualified names, in their order.
pub proof fn law_qualified_names(syms: Seq<SymbolView>, i: int)
    requires
        0 <= i < syms.len(),
    ensures
        qualified_of(syms).len() == syms.len(),
        qualified_of(syms)[i] == syms[i].qualified,
{
}

} // verus!
