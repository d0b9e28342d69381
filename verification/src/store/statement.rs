//! Statements with their bound values.

use vstd::prelude::*;

use crate::text;
use crate::text::clone_opt;

verus! {

/// A value bound to a parameter of a statement.
#[derive(Debug)]
pub enum Value {
    Text(String),
    Int(i64),
    OptionalText(Option<String>),
    /// The embedding that the statement is run with.
    Embedding,
}

/// The model of a [`Value`].
#[verifier::ext_equal]
pub enum ValueView {
    Text(Seq<char>),
    Int(i64),
    OptionalText(Option<Seq<char>>),
    Embedding,
}

impl View for Value {
    type V = ValueView;

    open spec fn view(&self) -> ValueView {
        match self {
            Value::Text(s) => ValueView::Text(s@),
            Value::Int(n) => ValueView::Int(*n),
            Value::OptionalText(o) => ValueView::OptionalText(text::text_opt(*o)),
            Value::Embedding => ValueView::Embedding,
        }
    }
}

/// A parameter and the value that is bound to it.
#[derive(Debug)]
pub struct Bind {
    pub name: String,
    pub value: Value,
}

/// A statement for the store.
#[derive(Debug)]
pub struct Statement {
    pub sql: String,
    pub binds: Vec<Bind>,
    /// What was attempted, for the report of an error.
    pub context: String,
}

/// The model of a [`Statement`].
#[verifier::ext_equal]
pub struct StatementView {
    pub sql: Seq<char>,
    pub binds: Seq<(Seq<char>, ValueView)>,
    pub context: Seq<char>,
}

/// The models of a sequence of binds.
pub open spec fn bind_views(s: Seq<Bind>) -> Seq<(Seq<char>, ValueView)> {
    Seq::new(s.len(), |i: int| (s[i].name@, s[i].value@))
}

impl View for Statement {
    type V = StatementView;

    open spec fn view(&self) -> StatementView {
        StatementView {
            sql: self.sql@,
            binds: bind_views(self.binds@),
            context: self.context@,
        }
    }
}

/// The models of a sequence of statements.
pub open spec fn statement_views(s: Seq<Statement>) -> Seq<StatementView> {
    Seq::new(s.len(), |i: int| s[i]@)
}

/// A statement without parameters.
pub open spec fn plain(sql: Seq<char>, context: Seq<char>) -> StatementView {
    StatementView { sql, binds: seq![], context }
}

impl StatementView {
    /// The statement with one more value bound.
    pub open spec fn with(self, name: Seq<char>, value: ValueView) -> StatementView {
        StatementView { binds: self.binds.push((name, value)), ..self }
    }

    /// The statement with one more text bound.
    pub open spec fn with_text(self, name: Seq<char>, value: Seq<char>) -> StatementView {
        self.with(name, ValueView::Text(value))
    }

    /// The statement with one more number bound.
    pub open spec fn with_int(self, name: Seq<char>, value: i64) -> StatementView {
        self.with(name, ValueView::Int(value))
    }

    /// The statement with one more optional text bound.
    pub open spec fn with_opt(self, name: Seq<char>, value: Option<Seq<char>>) -> StatementView {
        self.with(name, ValueView::OptionalText(value))
    }
}

impl Statement {
    /// A statement without parameters.
    pub fn new(sql: &str, context: &str) -> (r: Self)
        ensures
            r@ == plain(sql@, context@),
    {
        let r = Statement {
            sql: sql.to_owned(),
            binds: Vec::new(),
            context: context.to_owned(),
        };
        assert(r@ =~= plain(sql@, context@));
        r
    }

    /// Binds a value to a parameter.
    pub fn bind(self, name: &str, value: Value) -> (r: Self)
        ensures
            r@ == self@.with(name@, value@),
    {
        let mut binds = self.binds;
        binds.push(Bind { name: name.to_owned(), value });
        let r = Statement { sql: self.sql, binds, context: self.context };
        assert(r@ =~= self@.with(name@, value@));
        r
    }

    /// Binds a text to a parameter.
    pub fn bind_text(self, name: &str, value: &str) -> (r: Self)
        ensures
            r@ == self@.with_text(name@, value@),
    {
        self.bind(name, Value::Text(value.to_owned()))
    }

    /// Binds a number to a parameter.
    pub fn bind_int(self, name: &str, value: i64) -> (r: Self)
        ensures
            r@ == self@.with_int(name@, value),
    {
        self.bind(name, Value::Int(value))
    }

    /// Binds an optional text to a parameter.
    pub fn bind_opt(self, name: &str, value: &Option<String>) -> (r: Self)
        ensures
            r@ == self@.with_opt(name@, text::text_opt(*value)),
    {
        self.bind(name, Value::OptionalText(clone_opt(value)))
    }
}


/// Binding a value puts it behind those that are bound, under its name, and changes
/// nothing else.
pub proof fn law_binding_adds_one_value(
    s: StatementView,
    name: Seq<char>,
    t: Seq<char>,
    n: i64,
    o: Option<Seq<char>>,
)
    ensures
        s.with_text(name, t).binds == s.binds + seq![(name, ValueView::Text(t))],
        s.with_int(name, n).binds == s.binds + seq![(name, ValueView::Int(n))],
        s.with_opt(name, o).binds == s.binds + seq![(name, ValueView::OptionalText(o))],
        s.with(name, ValueView::Embedding).binds == s.binds + seq![(name, ValueView::Embedding)],
        s.with_text(name, t).sql == s.sql && s.with_text(name, t).context == s.context,
        s.with_int(name, n).sql == s.sql && s.with_int(name, n).context == s.context,
        s.with_opt(name, o).sql == s.sql && s.with_opt(name, o).context == s.context,
        plain(s.sql, s.context).sql == s.sql,
        plain(s.sql, s.context).context == s.context,
        plain(s.sql, s.context).binds.len() == 0,
{
    assert(s.with_text(name, t).binds =~= s.binds + seq![(name, ValueView::Text(t))]);
    assert(s.with_int(name, n).binds =~= s.binds + seq![(name, ValueView::Int(n))]);
    assert(s.with_opt(name, o).binds =~= s.binds + seq![(name, ValueView::OptionalText(o))]);
    assert(s.with(name, ValueView::Embedding).binds =~= s.binds + seq![
        (name, ValueView::Embedding),
    ]);
}


/// The model of a list of statements has each of them at its place, with its own
/// parts, and so has that of the values bound to it.
pub proof fn law_statement_models(list: Seq<Statement>, binds: Seq<Bind>, i: int)
    ensures
        statement_views(list).len() == list.len(),
        bind_views(binds).len() == binds.len(),
        0 <= i < list.len() ==> statement_views(list)[i].sql == list[i].sql@
            && statement_views(list)[i].context == list[i].context@
            && statement_views(list)[i].binds == bind_views(list[i].binds@),
        0 <= i < binds.len() ==> bind_views(binds)[i].0 == binds[i].name@,
        0 <= i < binds.len() ==> bind_views(binds)[i].1 == (match binds[i].value {
            Value::Text(s) => ValueView::Text(s@),
            Value::Int(n) => ValueView::Int(n),
            Value::OptionalText(Some(s)) => ValueView::OptionalText(Some(s@)),
            Value::OptionalText(None) => ValueView::OptionalText(None),
            Value::Embedding => ValueView::Embedding,
        }),
{
}

} // verus!
