//! Statements that change a database, ready to be executed.

use vstd::prelude::*;

verus! {

/// A parameter of a statement.
#[derive(Debug)]
pub enum Value<'a> {
    Text(String),
    Blob(&'a [u8]),
}

/// The contents of a parameter.
pub enum ValueView {
    Text(Seq<char>),
    Blob(Seq<u8>),
}

impl<'a> View for Value<'a> {
    type V = ValueView;

    open spec fn view(&self) -> ValueView {
        match *self {
            Value::Text(text) => ValueView::Text(text@),
            Value::Blob(bytes) => ValueView::Blob(bytes@),
        }
    }
}

/// A statement with its parameters.
#[derive(Debug)]
pub struct Statement<'a> {
    pub sql: String,
    /// The text holds several statements, which have no parameters.
    pub batch: bool,
    pub params: Vec<Value<'a>>,
}

/// The text of a statement and the contents of its parameters.
#[verifier::ext_equal]
pub struct StatementView {
    pub sql: Seq<char>,
    pub batch: bool,
    pub params: Seq<ValueView>,
}

/// The contents of the parameters.
pub open spec fn value_views(values: Seq<Value<'_>>) -> Seq<ValueView> {
    values.map_values(|value: Value| value@)
}

impl<'a> View for Statement<'a> {
    type V = StatementView;

    open spec fn view(&self) -> StatementView {
        StatementView { sql: self.sql@, batch: self.batch, params: value_views(self.params@) }
    }
}

/// The contents of the statements.
pub open spec fn statement_views(statements: Seq<Statement<'_>>) -> Seq<StatementView> {
    statements.map_values(|statement: Statement| statement@)
}

/// A statement without parameters.
pub open spec fn plain(sql: Seq<char>) -> StatementView {
    StatementView { sql, batch: false, params: Seq::empty() }
}

/// A statement with one parameter.
pub open spec fn with_text(sql: Seq<char>, a: Seq<char>) -> StatementView {
    StatementView { sql, batch: false, params: seq![ValueView::Text(a)] }
}

/// A statement with two parameters.
pub open spec fn with_texts(sql: Seq<char>, a: Seq<char>, b: Seq<char>) -> StatementView {
    StatementView { sql, batch: false, params: seq![ValueView::Text(a), ValueView::Text(b)] }
}

impl<'a> Statement<'a> {
    /// Several statements in one text.
    pub fn batch(sql: String) -> (statement: Self)
        ensures
            statement@ == (StatementView { sql: sql@, batch: true, params: Seq::empty() }),
    {
        let statement = Statement { sql, batch: true, params: Vec::new() };
        assert(statement@.params =~= Seq::empty());
        statement
    }

    /// A statement with the given parameters.
    pub fn new(sql: &str, params: Vec<Value<'a>>) -> (statement: Self)
        ensures
            statement@ == (StatementView {
                sql: sql@,
                batch: false,
                params: value_views(params@),
            }),
    {
        Statement { sql: sql.to_owned(), batch: false, params }
    }

    /// A statement without parameters.
    pub fn plain(sql: &str) -> (statement: Self)
        ensures
            statement@ == plain(sql@),
    {
        let statement = Statement::new(sql, Vec::new());
        assert(statement@.params =~= Seq::empty());
        statement
    }

    /// A statement with one parameter.
    pub fn with_text(sql: &str, a: &str) -> (statement: Self)
        ensures
            statement@ == with_text(sql@, a@),
    {
        let mut params: Vec<Value> = Vec::new();
        params.push(Value::Text(a.to_owned()));
        assert(value_views(params@) =~= seq![ValueView::Text(a@)]);
        Statement::new(sql, params)
    }

    /// A statement with two parameters.
    pub fn with_texts(sql: &str, a: &str, b: &str) -> (statement: Self)
        ensures
            statement@ == with_texts(sql@, a@, b@),
    {
        let mut params: Vec<Value> = Vec::new();
        params.push(Value::Text(a.to_owned()));
        params.push(Value::Text(b.to_owned()));
        assert(value_views(params@) =~= seq![ValueView::Text(a@), ValueView::Text(b@)]);
        Statement::new(sql, params)
    }

    /// A statement with three parameters.
    pub fn with_three_texts(sql: &str, texts: &[String; 3]) -> (statement: Self)
        ensures
            statement@ == (StatementView {
                sql: sql@,
                batch: false,
                params: seq![
                    ValueView::Text(texts@[0]@),
                    ValueView::Text(texts@[1]@),
                    ValueView::Text(texts@[2]@),
                ],
            }),
    {
        let mut params: Vec<Value> = Vec::new();
        params.push(Value::Text(texts[0].clone()));
        params.push(Value::Text(texts[1].clone()));
        params.push(Value::Text(texts[2].clone()));
        assert(value_views(params@) =~= seq![
            ValueView::Text(texts@[0]@),
            ValueView::Text(texts@[1]@),
            ValueView::Text(texts@[2]@),
        ]);
        Statement::new(sql, params)
    }
}

/// The contents of statements are those of each statement, in their order, and those of a statement are
/// its text and the contents of each of its parameters, in their order.
pub proof fn law_statement_contents(statements: Seq<Statement<'_>>)
    ensures
        statement_views(statements).len() == statements.len(),
        forall|i: int|
            0 <= i < statements.len() ==> {
                let statement = statements[i];
                let contents = #[trigger] statement_views(statements)[i];
                &&& contents.sql == statement.sql@
                &&& contents.batch == statement.batch
                &&& contents.params.len() == statement.params@.len()
                &&& forall|j: int|
                    0 <= j < statement.params@.len() ==> match statement.params@[j] {
                        Value::Text(text) => #[trigger] contents.params[j] == ValueView::Text(text@),
                        Value::Blob(bytes) => contents.params[j] == ValueView::Blob(bytes@),
                    }
            },
{
}

/// The statements that are told apart by their parameters hold them in order.
pub proof fn law_parameters(sql: Seq<char>, a: Seq<char>, b: Seq<char>)
    ensures
        plain(sql).sql == sql && !plain(sql).batch && plain(sql).params.len() == 0,
        with_text(sql, a).sql == sql && !with_text(sql, a).batch && with_text(sql, a).params
            == seq![ValueView::Text(a)],
        with_texts(sql, a, b).sql == sql && !with_texts(sql, a, b).batch && with_texts(
            sql,
            a,
            b,
        ).params == seq![ValueView::Text(a), ValueView::Text(b)],
{
}

} // verus!
