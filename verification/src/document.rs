//! The tree that a ConfigNode file is read into.

use vstd::prelude::*;

verus! {

/// One statement of a document.
#[derive(Debug, PartialEq, Eq)]
pub enum Statement {
    /// A key and its value, both as they stand in the source text.
    Assignment(String, String),
    /// A named block and the statements between its braces, in source order.
    Node(String, Vec<Statement>),
}

/// The statements of one file, in source order.
#[derive(Debug, PartialEq, Eq)]
pub struct Document {
    pub statements: Vec<Statement>,
}

/// The mathematical value of a [`Statement`].
pub enum StatementView {
    Assignment(Seq<char>, Seq<char>),
    Node(Seq<char>, Seq<StatementView>),
}

/// The values of a sequence of statements, one for one.
pub open spec fn statements_view(statements: Seq<Statement>) -> Seq<StatementView>
    decreases statements,
{
    // The bounds test is there for the termination check only: `Seq::new` asks
    // for no value outside them.
    Seq::new(
        statements.len(),
        |i: int|
            if 0 <= i < statements.len() {
                statements[i]@
            } else {
                arbitrary()
            },
    )
}

impl View for Statement {
    type V = StatementView;

    open spec fn view(&self) -> StatementView
        decreases self,
    {
        match self {
            Statement::Assignment(identifier, value) => StatementView::Assignment(
                identifier@,
                value@,
            ),
            Statement::Node(kind, children) => StatementView::Node(
                kind@,
                statements_view(children@),
            ),
        }
    }
}

impl View for Document {
    type V = Seq<StatementView>;

    open spec fn view(&self) -> Seq<StatementView> {
        statements_view(self.statements@)
    }
}

/// A copy of `statements`, statement by statement.
pub fn clone_statements(statements: &Vec<Statement>) -> (copies: Vec<Statement>)
    ensures
        statements_view(copies@) == statements_view(statements@),
    decreases statements,
{
    let mut copies: Vec<Statement> = Vec::new();
    let mut i: usize = 0;
    while i < statements.len()
        invariant
            i <= statements.len(),
            copies@.len() == i,
            forall|j: int| 0 <= j < i ==> copies@[j]@ == statements@[j]@,
        decreases statements.len() - i,
    {
        let copy = statements[i].clone();
        copies.push(copy);
        i += 1;
    }
    assert(statements_view(copies@) =~= statements_view(statements@));
    copies
}

impl Clone for Statement {
    fn clone(&self) -> (copy: Self)
        ensures
            copy@ == self@,
        decreases self,
    {
        match self {
            Statement::Assignment(identifier, value) => Statement::Assignment(
                identifier.clone(),
                value.clone(),
            ),
            Statement::Node(kind, children) => Statement::Node(
                kind.clone(),
                clone_statements(children),
            ),
        }
    }
}

impl Clone for Document {
    fn clone(&self) -> (copy: Self)
        ensures
            copy@ == self@,
    {
        Document { statements: clone_statements(&self.statements) }
    }
}

} // verus!
