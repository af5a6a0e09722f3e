//! Parsing and writing are inverse to each other.
//!
//! A well-formed document that is written and parsed again is the document it
//! was. What the parser gives is well formed. So a text that parses, once
//! written, is a fixed point: parsing and writing it again gives the same
//! text.

use crate::document::StatementView;
use crate::grammar::{
    are_well_formed, is_identifier, is_line_break, is_value, is_well_formed, lemma_run_end,
    lemma_trimmed_end, parsed_document, parsed_statement, parsed_statements, prefixed, run_end,
    trimmed_end, CharClass, Failure,
};
use crate::render::{indentation, render_statement, render_statements, unix_ending, windows_ending};
use vstd::prelude::*;

verus! {

/// Whether `ending` is one of the two line endings in which a document is
/// written.
pub open spec fn is_line_ending(ending: Seq<char>) -> bool {
    ending == unix_ending() || ending == windows_ending()
}

/// Whether `piece` stands in `text` at `pos`.
pub open spec fn occurs_at(text: Seq<char>, pos: int, piece: Seq<char>) -> bool {
    &&& 0 <= pos
    &&& pos + piece.len() <= text.len()
    &&& text.subrange(pos, pos + piece.len()) == piece
}

proof fn lemma_occurs_split(text: Seq<char>, pos: int, a: Seq<char>, b: Seq<char>)
    requires
        occurs_at(text, pos, a + b),
    ensures
        occurs_at(text, pos, a),
        occurs_at(text, pos + a.len(), b),
{
    let whole = text.subrange(pos, pos + (a + b).len());
    assert forall|k: int| 0 <= k < a.len() implies text.subrange(pos, pos + a.len())[k] == a[k] by {
        assert(whole[k] == (a + b)[k]);
    }
    assert(text.subrange(pos, pos + a.len()) =~= a);
    assert forall|k: int| 0 <= k < b.len() implies text.subrange(
        pos + a.len(),
        pos + a.len() + b.len(),
    )[k] == b[k] by {
        assert(whole[a.len() + k] == (a + b)[a.len() + k]);
    }
    assert(text.subrange(pos + a.len(), pos + a.len() + b.len()) =~= b);
}

proof fn lemma_occurs_index(text: Seq<char>, pos: int, piece: Seq<char>, k: int)
    requires
        occurs_at(text, pos, piece),
        0 <= k < piece.len(),
    ensures
        text[pos + k] == piece[k],
{
    assert(text.subrange(pos, pos + piece.len())[k] == piece[k]);
}

/// A run goes on over characters of its class.
proof fn lemma_run_over(text: Seq<char>, from: int, to: int, class: CharClass)
    requires
        0 <= from <= to <= text.len(),
        forall|k: int| from <= k < to ==> class.has(#[trigger] text[k]),
    ensures
        run_end(text, from, class) == run_end(text, to, class),
    decreases to - from,
{
    if from < to {
        assert(class.has(text[from]));
        lemma_run_over(text, from + 1, to, class);
    }
}

/// A run goes on over a piece made of characters of its class.
proof fn lemma_run_over_piece(text: Seq<char>, pos: int, piece: Seq<char>, class: CharClass)
    requires
        occurs_at(text, pos, piece),
        forall|k: int| 0 <= k < piece.len() ==> class.has(#[trigger] piece[k]),
    ensures
        run_end(text, pos, class) == run_end(text, pos + piece.len(), class),
{
    assert forall|k: int| pos <= k < pos + piece.len() implies class.has(#[trigger] text[k]) by {
        lemma_occurs_index(text, pos, piece, k - pos);
        assert(class.has(piece[k - pos]));
    }
    lemma_run_over(text, pos, pos + piece.len(), class);
}

/// The statements from a place on depend on the place only through the first
/// character behind it that is no space.
proof fn lemma_same_start(text: Seq<char>, a: int, b: int)
    requires
        run_end(text, a, CharClass::Space) == run_end(text, b, CharClass::Space),
    ensures
        parsed_statements(text, a) == parsed_statements(text, b),
{
}

proof fn lemma_line_ending(ending: Seq<char>)
    requires
        is_line_ending(ending),
    ensures
        ending.len() > 0,
        forall|k: int| 0 <= k < ending.len() ==> is_line_break(#[trigger] ending[k]),
{
}

proof fn lemma_indentation(depth: nat)
    ensures
        indentation(depth).len() == depth,
        forall|k: int| 0 <= k < depth ==> #[trigger] indentation(depth)[k] == '\t',
{
}

/// Putting statements in front one row after the other is putting both rows
/// in front.
proof fn lemma_prefixed_twice(
    a: Seq<StatementView>,
    b: Seq<StatementView>,
    then: Result<(Seq<StatementView>, int), Failure>,
)
    ensures
        prefixed(a, prefixed(b, then)) == prefixed(a + b, then),
{
    match then {
        Ok((rest, end)) => {
            assert(a + (b + rest) =~= (a + b) + rest);
        },
        Err(_) => {},
    }
}

/// An assignment that was written is read as what it was.
proof fn lemma_parse_rendered_assignment(
    text: Seq<char>,
    pos: int,
    identifier: Seq<char>,
    value: Seq<char>,
    depth: nat,
    ending: Seq<char>,
)
    requires
        is_identifier(identifier),
        is_value(value),
        is_line_ending(ending),
        occurs_at(
            text,
            pos,
            render_statement(StatementView::Assignment(identifier, value), depth, ending),
        ),
    ensures
        parsed_statements(text, pos) == prefixed(
            seq![StatementView::Assignment(identifier, value)],
            parsed_statements(
                text,
                pos + render_statement(
                    StatementView::Assignment(identifier, value),
                    depth,
                    ending,
                ).len(),
            ),
        ),
{
    let tabs = indentation(depth);
    let sep = seq![' ', '=', ' '];
    lemma_line_ending(ending);
    lemma_indentation(depth);
    lemma_occurs_split(text, pos, tabs + identifier + sep + value, ending);
    lemma_occurs_split(text, pos, tabs + identifier + sep, value);
    lemma_occurs_split(text, pos, tabs + identifier, sep);
    lemma_occurs_split(text, pos, tabs, identifier);
    let key_at = pos + depth;
    let gap_at = key_at + identifier.len();
    let sign_at = gap_at + 1;
    let value_at = gap_at + 3;
    let ending_at = value_at + value.len();
    let after = ending_at + ending.len();
    lemma_occurs_index(text, key_at, identifier, 0);
    lemma_occurs_index(text, gap_at, sep, 0);
    lemma_occurs_index(text, gap_at, sep, 1);
    lemma_occurs_index(text, gap_at, sep, 2);
    lemma_occurs_index(text, ending_at, ending, 0);
    // The tabs in front.
    lemma_run_over_piece(text, pos, tabs, CharClass::Space);
    assert(CharClass::Word.has(identifier[0]));
    assert(run_end(text, key_at, CharClass::Space) == key_at);
    // The key.
    lemma_run_over_piece(text, key_at, identifier, CharClass::Word);
    assert(run_end(text, gap_at, CharClass::Word) == gap_at);
    assert(run_end(text, key_at, CharClass::Word) == gap_at);
    // The blank in front of the sign.
    lemma_run_over(text, gap_at, sign_at, CharClass::Space);
    assert(run_end(text, sign_at, CharClass::Space) == sign_at);
    // The blank behind the sign.
    lemma_run_over(text, sign_at + 1, value_at, CharClass::Blank);
    if value.len() > 0 {
        lemma_occurs_index(text, value_at, value, 0);
        lemma_occurs_index(text, value_at, value, value.len() - 1);
    }
    assert(run_end(text, value_at, CharClass::Blank) == value_at);
    // The value.
    lemma_run_over_piece(text, value_at, value, CharClass::Value);
    assert(run_end(text, ending_at, CharClass::Value) == ending_at);
    assert(trimmed_end(text, value_at, ending_at) == ending_at);
    assert(parsed_statement(text, key_at) == Ok::<(StatementView, int), Failure>(
        (StatementView::Assignment(identifier, value), ending_at),
    ));
    // The line ending.
    lemma_run_over_piece(text, ending_at, ending, CharClass::Space);
    lemma_same_start(text, ending_at, after);
    lemma_same_start(text, pos, key_at);
}

/// A block that was written is read as what it was.
proof fn lemma_parse_rendered_statement(
    text: Seq<char>,
    pos: int,
    statement: StatementView,
    depth: nat,
    ending: Seq<char>,
)
    requires
        is_well_formed(statement),
        is_line_ending(ending),
        occurs_at(text, pos, render_statement(statement, depth, ending)),
    ensures
        parsed_statements(text, pos) == prefixed(
            seq![statement],
            parsed_statements(text, pos + render_statement(statement, depth, ending).len()),
        ),
    decreases statement, 0nat,
{
    match statement {
        StatementView::Assignment(identifier, value) => {
            lemma_parse_rendered_assignment(text, pos, identifier, value, depth, ending);
        },
        StatementView::Node(kind, children) => {
            let tabs = indentation(depth);
            let open = seq!['{'];
            let close = seq!['}'];
            let inside = render_statements(children, depth + 1, ending);
            lemma_line_ending(ending);
            lemma_indentation(depth);
            lemma_occurs_split(
                text,
                pos,
                tabs + kind + ending + tabs + open + ending + inside + tabs + close,
                ending,
            );
            lemma_occurs_split(
                text,
                pos,
                tabs + kind + ending + tabs + open + ending + inside + tabs,
                close,
            );
            lemma_occurs_split(
                text,
                pos,
                tabs + kind + ending + tabs + open + ending + inside,
                tabs,
            );
            lemma_occurs_split(text, pos, tabs + kind + ending + tabs + open + ending, inside);
            lemma_occurs_split(text, pos, tabs + kind + ending + tabs + open, ending);
            lemma_occurs_split(text, pos, tabs + kind + ending + tabs, open);
            lemma_occurs_split(text, pos, tabs + kind + ending, tabs);
            lemma_occurs_split(text, pos, tabs + kind, ending);
            lemma_occurs_split(text, pos, tabs, kind);
            let name_at = pos + depth;
            let first_break = name_at + kind.len();
            let open_tabs = first_break + ending.len();
            let open_at = open_tabs + depth;
            let second_break = open_at + 1;
            let inside_at = second_break + ending.len();
            let close_tabs = inside_at + inside.len();
            let close_at = close_tabs + depth;
            let last_break = close_at + 1;
            let after = last_break + ending.len();
            lemma_occurs_index(text, name_at, kind, 0);
            lemma_occurs_index(text, first_break, ending, 0);
            lemma_occurs_index(text, open_at, open, 0);
            lemma_occurs_index(text, close_at, close, 0);
            // The tabs in front.
            lemma_run_over_piece(text, pos, tabs, CharClass::Space);
            assert(CharClass::Word.has(kind[0]));
            assert(run_end(text, name_at, CharClass::Space) == name_at);
            // The name.
            lemma_run_over_piece(text, name_at, kind, CharClass::Word);
            assert(run_end(text, first_break, CharClass::Word) == first_break);
            // The line break and the tabs in front of the opening brace.
            lemma_run_over_piece(text, first_break, ending, CharClass::Space);
            lemma_run_over_piece(text, open_tabs, tabs, CharClass::Space);
            assert(run_end(text, open_at, CharClass::Space) == open_at);
            // The statements of the block.
            lemma_run_over_piece(text, second_break, ending, CharClass::Space);
            lemma_same_start(text, second_break, inside_at);
            assert(are_well_formed(children));
            lemma_parse_rendered_statements(text, inside_at, children, depth + 1, ending);
            // The tabs in front of the closing brace.
            lemma_run_over_piece(text, close_tabs, tabs, CharClass::Space);
            assert(run_end(text, close_at, CharClass::Space) == close_at);
            assert(parsed_statements(text, close_tabs) == Ok::<(Seq<StatementView>, int), Failure>(
                (Seq::empty(), close_at),
            ));
            assert(children + Seq::<StatementView>::empty() =~= children);
            assert(parsed_statements(text, second_break) == Ok::<(Seq<StatementView>, int), Failure>(
                (children, close_at),
            ));
            assert(parsed_statement(text, name_at) == Ok::<(StatementView, int), Failure>(
                (statement, last_break),
            ));
            // The line ending behind it.
            lemma_run_over_piece(text, last_break, ending, CharClass::Space);
            lemma_same_start(text, last_break, after);
            lemma_same_start(text, pos, name_at);
        },
    }
}

/// Statements that were written one behind the other are read as what they
/// were, and reading goes on behind them.
proof fn lemma_parse_rendered_statements(
    text: Seq<char>,
    pos: int,
    statements: Seq<StatementView>,
    depth: nat,
    ending: Seq<char>,
)
    requires
        are_well_formed(statements),
        is_line_ending(ending),
        occurs_at(text, pos, render_statements(statements, depth, ending)),
    ensures
        parsed_statements(text, pos) == prefixed(
            statements,
            parsed_statements(text, pos + render_statements(statements, depth, ending).len()),
        ),
    decreases statements, 1nat,
{
    if statements.len() == 0 {
        lemma_prefixed_twice(
            Seq::empty(),
            Seq::empty(),
            parsed_statements(text, pos),
        );
        match parsed_statements(text, pos) {
            Ok((rest, end)) => {
                assert(Seq::<StatementView>::empty() + rest =~= rest);
            },
            Err(_) => {},
        }
    } else {
        let first = statements[0];
        let rest = statements.drop_first();
        let head = render_statement(first, depth, ending);
        let tail = render_statements(rest, depth, ending);
        lemma_occurs_split(text, pos, head, tail);
        assert forall|i: int| 0 <= i < rest.len() implies is_well_formed(#[trigger] rest[i]) by {
            assert(rest[i] == statements[i + 1]);
        }
        lemma_parse_rendered_statement(text, pos, first, depth, ending);
        lemma_parse_rendered_statements(text, pos + head.len(), rest, depth, ending);
        lemma_prefixed_twice(
            seq![first],
            rest,
            parsed_statements(text, pos + head.len() + tail.len()),
        );
        assert(seq![first] + rest =~= statements);
    }
}

/// A well-formed document that is written with either line ending and parsed
/// again is the document it was.
pub proof fn law_parse_inverts_render(document: Seq<StatementView>, ending: Seq<char>)
    requires
        are_well_formed(document),
        is_line_ending(ending),
    ensures
        parsed_document(render_statements(document, 0, ending)) == Ok::<
            Seq<StatementView>,
            Failure,
        >(document),
{
    let text = render_statements(document, 0, ending);
    assert(text.subrange(0, text.len() as int) =~= text);
    lemma_parse_rendered_statements(text, 0, document, 0, ending);
    assert(run_end(text, text.len() as int, CharClass::Space) == text.len());
    assert(document + Seq::<StatementView>::empty() =~= document);
}

/// A statement that the grammar reads is well formed and takes up at least
/// one character.
proof fn lemma_parsed_statement_well_formed(text: Seq<char>, start: int)
    requires
        0 <= start <= text.len(),
    ensures
        parsed_statement(text, start) matches Ok((statement, next)) ==> is_well_formed(statement)
            && start < next <= text.len(),
    decreases text.len() - start, 0nat,
{
    let word_end = run_end(text, start, CharClass::Word);
    lemma_run_end(text, start, CharClass::Word);
    let mark = run_end(text, word_end, CharClass::Space);
    lemma_run_end(text, word_end, CharClass::Space);
    if word_end > start {
        let name = text.subrange(start, word_end);
        assert forall|i: int| 0 <= i < name.len() implies CharClass::Word.has(
            #[trigger] name[i],
        ) by {
            assert(name[i] == text[start + i]);
        }
        assert(is_identifier(name));
        if mark < text.len() && text[mark] == '=' {
            let value_start = run_end(text, mark + 1, CharClass::Blank);
            lemma_run_end(text, mark + 1, CharClass::Blank);
            let line_end = run_end(text, value_start, CharClass::Value);
            lemma_run_end(text, value_start, CharClass::Value);
            let value_end = trimmed_end(text, value_start, line_end);
            lemma_trimmed_end(text, value_start, line_end);
            let value = text.subrange(value_start, value_end);
            assert forall|i: int| 0 <= i < value.len() implies CharClass::Value.has(
                #[trigger] value[i],
            ) by {
                assert(value[i] == text[value_start + i]);
            }
            if value.len() > 0 {
                assert(value[0] == text[value_start]);
                assert(value[value.len() - 1] == text[value_end - 1]);
            }
            assert(is_value(value));
        } else if mark < text.len() && text[mark] == '{' {
            lemma_parsed_statements_well_formed(text, mark + 1);
        }
    }
}

/// The statements that the grammar reads are well formed.
proof fn lemma_parsed_statements_well_formed(text: Seq<char>, pos: int)
    requires
        0 <= pos <= text.len(),
    ensures
        parsed_statements(text, pos) matches Ok((statements, end)) ==> are_well_formed(statements)
            && pos <= end <= text.len(),
    decreases text.len() - pos, 1nat,
{
    let start = run_end(text, pos, CharClass::Space);
    lemma_run_end(text, pos, CharClass::Space);
    if !(start >= text.len() || text[start] == '}') {
        lemma_parsed_statement_well_formed(text, start);
        match parsed_statement(text, start) {
            Err(_) => {},
            Ok((statement, next)) => {
                lemma_parsed_statements_well_formed(text, next);
                match parsed_statements(text, next) {
                    Err(_) => {},
                    Ok((rest, end)) => {
                        let all = seq![statement] + rest;
                        assert forall|i: int| 0 <= i < all.len() implies is_well_formed(
                            #[trigger] all[i],
                        ) by {
                            if i > 0 {
                                assert(all[i] == rest[i - 1]);
                            }
                        }
                    },
                }
            },
        }
    }
}

/// The document that a text is read as is well formed.
pub proof fn law_parsed_document_is_well_formed(text: Seq<char>)
    ensures
        parsed_document(text) matches Ok(document) ==> are_well_formed(document),
{
    lemma_parsed_statements_well_formed(text, 0);
}

/// Writing what was read from a text gives a text that is read as the same
/// document, and that stays as it is when it is read and written once more
/// with the same line ending.
pub proof fn law_round_trip(text: Seq<char>, ending: Seq<char>)
    requires
        parsed_document(text) is Ok,
        is_line_ending(ending),
    ensures
        ({
            let document = parsed_document(text)->Ok_0;
            let written = render_statements(document, 0, ending);
            &&& parsed_document(written) == Ok::<Seq<StatementView>, Failure>(document)
            &&& render_statements(parsed_document(written)->Ok_0, 0, ending) == written
        }),
{
    law_parsed_document_is_well_formed(text);
    law_parse_inverts_render(parsed_document(text)->Ok_0, ending);
}

} // verus!
