//! The raw parse tree: what the grammar matched, before it is turned into
//! statements.

use crate::document::StatementView;
use vstd::prelude::*;

verus! {

/// One match of a rule of the grammar.
#[derive(Debug, PartialEq, Eq)]
pub enum Pair {
    /// A key or the name of a block, with its text.
    Identifier(String),
    /// The value of an assignment, with its text.
    Value(String),
    /// An assignment: its key and its value.
    Assignment(Vec<Pair>),
    /// A block: its name, then its statements.
    Node(Vec<Pair>),
    /// The end of the text.
    EndOfInput,
}

/// The mathematical value of a [`Pair`].
pub enum PairView {
    Identifier(Seq<char>),
    Value(Seq<char>),
    Assignment(Seq<PairView>),
    Node(Seq<PairView>),
    EndOfInput,
}

/// The values of a sequence of pairs, one for one.
pub open spec fn pairs_view(pairs: Seq<Pair>) -> Seq<PairView>
    decreases pairs,
{
    // The bounds test is there for the termination check only: `Seq::new` asks
    // for no value outside them.
    Seq::new(
        pairs.len(),
        |i: int|
            if 0 <= i < pairs.len() {
                pairs[i]@
            } else {
                arbitrary()
            },
    )
}

impl View for Pair {
    type V = PairView;

    open spec fn view(&self) -> PairView
        decreases self,
    {
        match self {
            Pair::Identifier(text) => PairView::Identifier(text@),
            Pair::Value(text) => PairView::Value(text@),
            Pair::Assignment(inner) => PairView::Assignment(pairs_view(inner@)),
            Pair::Node(inner) => PairView::Node(pairs_view(inner@)),
            Pair::EndOfInput => PairView::EndOfInput,
        }
    }
}

/// Whether `pair` matched a rule whose text is kept.
pub open spec fn has_text(pair: PairView) -> bool {
    pair is Identifier || pair is Value
}

/// The text that `pair` matched, where it is kept.
pub open spec fn pair_text(pair: PairView) -> Seq<char> {
    match pair {
        PairView::Identifier(text) => text,
        PairView::Value(text) => text,
        _ => Seq::empty(),
    }
}

/// Whether `pair` stands for a statement or for the end of the text, with
/// all that a statement needs: two texts in an assignment; in a block a text
/// and then pairs of which the same holds.
pub open spec fn is_well_shaped(pair: PairView) -> bool
    decreases pair,
{
    match pair {
        PairView::Assignment(inner) => inner.len() >= 2 && has_text(inner[0]) && has_text(
            inner[1],
        ),
        PairView::Node(inner) => inner.len() >= 1 && has_text(inner[0]) && forall|i: int|
            1 <= i < inner.len() ==> is_well_shaped(#[trigger] inner[i]),
        PairView::EndOfInput => true,
        _ => false,
    }
}

/// Whether each of `pairs` stands for a statement or for the end of the text.
pub open spec fn are_well_shaped(pairs: Seq<PairView>) -> bool {
    forall|i: int| 0 <= i < pairs.len() ==> is_well_shaped(#[trigger] pairs[i])
}

/// The statement that `pair` stands for.
pub open spec fn built_statement(pair: PairView) -> StatementView
    decreases pair,
{
    match pair {
        PairView::Node(inner) if inner.len() >= 1 => StatementView::Node(
            pair_text(inner[0]),
            built_statements(inner.drop_first()),
        ),
        PairView::Assignment(inner) => StatementView::Assignment(
            pair_text(inner[0]),
            pair_text(inner[1]),
        ),
        _ => StatementView::Node(Seq::empty(), Seq::empty()),
    }
}

/// The statements that `pairs` stand for: one for each pair in order, none
/// for the end of the text.
pub open spec fn built_statements(pairs: Seq<PairView>) -> Seq<StatementView>
    decreases pairs,
{
    if pairs.len() == 0 {
        Seq::empty()
    } else if pairs[0] is EndOfInput {
        built_statements(pairs.drop_first())
    } else {
        seq![built_statement(pairs[0])] + built_statements(pairs.drop_first())
    }
}

/// The pair that the grammar gives for `statement`: key and value for an
/// assignment; for a block its name, then the pairs of its statements.
pub open spec fn pair_of(statement: StatementView) -> PairView
    decreases statement,
{
    match statement {
        StatementView::Assignment(identifier, value) => PairView::Assignment(
            seq![PairView::Identifier(identifier), PairView::Value(value)],
        ),
        StatementView::Node(kind, children) => PairView::Node(
            seq![PairView::Identifier(kind)] + pairs_of(children),
        ),
    }
}

/// The pairs that the grammar gives for `statements`, one for one.
pub open spec fn pairs_of(statements: Seq<StatementView>) -> Seq<PairView>
    decreases statements,
{
    // The bounds test is there for the termination check only: `Seq::new` asks
    // for no value outside them.
    Seq::new(
        statements.len(),
        |i: int|
            if 0 <= i < statements.len() {
                pair_of(statements[i])
            } else {
                arbitrary()
            },
    )
}

/// What a single pair stands for, as a row.
pub proof fn lemma_built_statements_single(pair: PairView)
    ensures
        built_statements(seq![pair]) == if pair is EndOfInput {
            Seq::<StatementView>::empty()
        } else {
            seq![built_statement(pair)]
        },
{
    let row = seq![pair];
    assert(row.drop_first() =~= Seq::<PairView>::empty());
    assert(built_statements(row.drop_first()) =~= Seq::<StatementView>::empty());
    assert(seq![built_statement(pair)] + Seq::<StatementView>::empty() =~= seq![
        built_statement(pair),
    ]);
}

/// What two rows of pairs stand for is what the first stands for, followed
/// by what the second stands for.
pub proof fn lemma_built_statements_concat(a: Seq<PairView>, b: Seq<PairView>)
    ensures
        built_statements(a + b) == built_statements(a) + built_statements(b),
    decreases a.len(),
{
    if a.len() == 0 {
        assert(a + b =~= b);
        assert(built_statements(a) + built_statements(b) =~= built_statements(b));
    } else {
        lemma_built_statements_concat(a.drop_first(), b);
        assert((a + b).drop_first() =~= a.drop_first() + b);
        assert(built_statements(a + b) =~= built_statements(a) + built_statements(b));
    }
}

/// The pair of a statement is well shaped and stands for the statement.
pub proof fn lemma_pair_of_builds(statement: StatementView)
    ensures
        is_well_shaped(pair_of(statement)),
        !(pair_of(statement) is EndOfInput),
        built_statement(pair_of(statement)) == statement,
    decreases statement, 0nat,
{
    match statement {
        StatementView::Assignment(identifier, value) => {},
        StatementView::Node(kind, children) => {
            let inner = seq![PairView::Identifier(kind)] + pairs_of(children);
            lemma_pairs_of_build(children);
            assert(inner.drop_first() =~= pairs_of(children));
            assert forall|i: int| 1 <= i < inner.len() implies is_well_shaped(
                #[trigger] inner[i],
            ) by {
                assert(inner[i] == pairs_of(children)[i - 1]);
            }
        },
    }
}

/// The pairs of statements are well shaped and stand for the statements,
/// with or without the end of the text behind them.
pub proof fn lemma_pairs_of_build(statements: Seq<StatementView>)
    ensures
        are_well_shaped(pairs_of(statements)),
        built_statements(pairs_of(statements)) == statements,
        are_well_shaped(pairs_of(statements).push(PairView::EndOfInput)),
        built_statements(pairs_of(statements).push(PairView::EndOfInput)) == statements,
    decreases statements, 1nat,
{
    let pairs = pairs_of(statements);
    assert forall|i: int| 0 <= i < pairs.len() implies is_well_shaped(#[trigger] pairs[i]) by {
        lemma_pair_of_builds(statements[i]);
    }
    if statements.len() == 0 {
        assert(built_statements(pairs) =~= statements);
    } else {
        let rest = statements.drop_first();
        lemma_pair_of_builds(statements[0]);
        lemma_pairs_of_build(rest);
        assert(pairs.drop_first() =~= pairs_of(rest));
        assert(seq![statements[0]] + rest =~= statements);
    }
    let closed = pairs.push(PairView::EndOfInput);
    assert(closed =~= pairs + seq![PairView::EndOfInput]);
    lemma_built_statements_concat(pairs, seq![PairView::EndOfInput]);
    lemma_built_statements_single(PairView::EndOfInput);
    assert(statements + Seq::<StatementView>::empty() =~= statements);
    assert forall|i: int| 0 <= i < closed.len() implies is_well_shaped(#[trigger] closed[i]) by {
        if i < pairs.len() {
            assert(closed[i] == pairs[i]);
        }
    }
}

} // verus!
