//! The tree builder: from the raw parse tree to a document.
//!
//! The translation is structural. Every assignment of the parse tree becomes
//! an assignment, every block a block with the statements built from its own
//! pairs, and the mark of the end of the text is dropped.

use crate::document::{statements_view, Document, Statement, StatementView};
use crate::grammar::parsed_document;
use crate::pairs::{
    are_well_shaped, built_statement, built_statements, has_text, is_well_shaped,
    lemma_pairs_of_build, pair_text, pairs_view, Pair,
};
use crate::parser::{syntax_error, ConfigNodeParser, SyntaxError};
use vstd::prelude::*;
use vstd::slice::slice_subrange;

verus! {

impl Pair {
    /// The text that the pair matched.
    pub fn as_str(&self) -> (text: &str)
        requires
            has_text(self@),
        ensures
            text@ == pair_text(self@),
    {
        match self {
            Pair::Identifier(text) => text.as_str(),
            Pair::Value(text) => text.as_str(),
            _ => vstd::pervasive::unreached(),
        }
    }
}

/// The assignment whose key and value are the first two of `pairs`.
pub fn parse_assignment(pairs: &[Pair]) -> (statement: Statement)
    requires
        pairs@.len() >= 2,
        has_text(pairs@[0]@),
        has_text(pairs@[1]@),
    ensures
        statement@ == StatementView::Assignment(pair_text(pairs@[0]@), pair_text(pairs@[1]@)),
{
    let first = &pairs[0];
    let second = &pairs[1];
    Statement::Assignment(first.as_str().to_owned(), second.as_str().to_owned())
}

/// The block whose name is the first of `pairs` and whose statements are built
/// from the others.
pub fn parse_node(pairs: &[Pair]) -> (statement: Statement)
    requires
        pairs@.len() >= 1,
        has_text(pairs@[0]@),
        are_well_shaped(pairs_view(pairs@).drop_first()),
    ensures
        statement@ == StatementView::Node(
            pair_text(pairs@[0]@),
            built_statements(pairs_view(pairs@).drop_first()),
        ),
    decreases pairs@, 0nat,
{
    let first = &pairs[0];
    let rest = slice_subrange(pairs, 1, pairs.len());
    assert(pairs_view(rest@) =~= pairs_view(pairs@).drop_first());
    Statement::Node(first.as_str().to_owned(), parse_statements(rest))
}

/// The statements that `pairs` stand for, in order.
pub fn parse_statements(pairs: &[Pair]) -> (statements: Vec<Statement>)
    requires
        are_well_shaped(pairs_view(pairs@)),
    ensures
        statements_view(statements@) == built_statements(pairs_view(pairs@)),
    decreases pairs@, 1nat,
{
    let ghost views = pairs_view(pairs@);
    let mut statements: Vec<Statement> = Vec::new();
    let mut i: usize = 0;
    assert(views.skip(0) =~= views);
    assert(statements_view(statements@) + built_statements(views) =~= built_statements(views));
    while i < pairs.len()
        invariant
            i <= pairs.len(),
            views == pairs_view(pairs@),
            are_well_shaped(views),
            statements_view(statements@) + built_statements(views.skip(i as int))
                == built_statements(views),
        decreases pairs.len() - i,
    {
        let ghost built = statements_view(statements@);
        proof {
            let rest = views.skip(i as int);
            assert(rest.drop_first() =~= views.skip(i + 1));
            assert(rest[0] == pairs@[i as int]@);
            assert(is_well_shaped(views[i as int]));
        }
        match &pairs[i] {
            Pair::Assignment(inner) => {
                proof {
                    let inner_views = pairs_view(inner@);
                    assert(inner_views[0] == inner@[0]@);
                    assert(inner_views[1] == inner@[1]@);
                }
                statements.push(parse_assignment(inner.as_slice()));
                proof {
                    assert(statements_view(statements@) =~= built + seq![
                        built_statement(pairs@[i as int]@),
                    ]);
                }
            },
            Pair::Node(inner) => {
                proof {
                    let inner_views = pairs_view(inner@);
                    assert(inner_views[0] == inner@[0]@);
                    assert forall|j: int| 0 <= j < inner_views.drop_first().len() implies is_well_shaped(
                     #[trigger] inner_views.drop_first()[j]) by {
                        assert(inner_views.drop_first()[j] == inner_views[j + 1]);
                    }
                }
                statements.push(parse_node(inner.as_slice()));
                proof {
                    assert(statements_view(statements@) =~= built + seq![
                        built_statement(pairs@[i as int]@),
                    ]);
                }
            },
            Pair::EndOfInput => {},
            _ => {
                vstd::pervasive::unreached::<()>();
            },
        }
        i += 1;
    }
    assert(built_statements(views.skip(i as int)) =~= Seq::<StatementView>::empty());
    assert(statements_view(statements@) + Seq::<StatementView>::empty() =~= statements_view(
        statements@,
    ));
    statements
}

/// Parses `string` as a document.
///
/// Where `string` is a document of the language, its statements come back in
/// source order. Where it is none, the first failure comes back with its
/// place.
pub fn parse_string(string: &str) -> (result: Result<Document, SyntaxError>)
    ensures
        match parsed_document(string@) {
            Ok(statements) => result matches Ok(document) && document@ == statements,
            Err(failure) => result == Err::<Document, SyntaxError>(syntax_error(string@, failure)),
        },
{
    match ConfigNodeParser::parse(string) {
        Ok(pairs) => {
            proof {
                lemma_pairs_of_build(parsed_document(string@)->Ok_0);
            }
            Ok(Document { statements: parse_statements(pairs.as_slice()) })
        },
        Err(error) => Err(error),
    }
}

} // verus!
