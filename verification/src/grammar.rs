//! The language of ConfigNode files.
//!
//! A file is a sequence of statements. A statement is an assignment, `key =
//! value`, or a block: a name, `{`, the statements of the block, `}`. There
//! are no comments and no escapes.
//!
//! - A key or a name is a run of characters other than space, tab, line
//!   break, `=`, `{` and `}`. It is not empty.
//! - Spaces, tabs and line breaks may stand in front of a key or name, and
//!   between it and the `=` or `{` behind it.
//! - The value of an assignment stands on the line of its `=`. It is what
//!   follows the `=` up to the line break, the end of the text or the next
//!   `=`, `{` or `}`, without the spaces and tabs at its two ends. It may be
//!   empty, and it may hold spaces and tabs.
//! - A block ends with the `}` behind its last statement; a `}` may stand
//!   on the line of an assignment. A second `=` on a line, or a `{` behind a
//!   value, starts no statement and is an error.
//! - Line feed and carriage return both count as line breaks. Places are
//!   counted in characters, from zero.
//!
//! What the language is stands here as functions of the text alone. The
//! parser is proved to compute them, and `round_trip` proves that they undo
//! what `render` writes.

use crate::document::StatementView;
use vstd::prelude::*;

verus! {

/// Line feed or carriage return.
pub open spec fn is_line_break(c: char) -> bool {
    c == '\n' || c == '\r'
}

/// Space or tab.
pub open spec fn is_blank(c: char) -> bool {
    c == ' ' || c == '\t'
}

/// A character that only separates tokens.
pub open spec fn is_space(c: char) -> bool {
    is_blank(c) || is_line_break(c)
}

/// One of the three punctuation marks of the language.
pub open spec fn is_mark(c: char) -> bool {
    c == '=' || c == '{' || c == '}'
}

/// The sets of characters that the grammar tells apart.
#[derive(Clone, Copy, Debug)]
pub enum CharClass {
    /// What separates tokens: spaces, tabs and line breaks.
    Space,
    /// Spaces and tabs.
    Blank,
    /// What a name or a key is made of: anything but spaces and marks.
    Word,
    /// What a value is made of: anything but line breaks and marks.
    Value,
}

impl CharClass {
    /// Whether `c` belongs to the class.
    pub open spec fn has(self, c: char) -> bool {
        match self {
            CharClass::Space => is_space(c),
            CharClass::Blank => is_blank(c),
            CharClass::Word => !is_space(c) && !is_mark(c),
            CharClass::Value => !is_line_break(c) && !is_mark(c),
        }
    }
}

/// The end of the longest run of characters of `class` that starts at `from`.
pub open spec fn run_end(text: Seq<char>, from: int, class: CharClass) -> int
    decreases text.len() - from,
{
    if 0 <= from < text.len() && class.has(text[from]) {
        run_end(text, from + 1, class)
    } else {
        from
    }
}

/// The end of `text[from..to]` once the blanks at its end are cut off.
pub open spec fn trimmed_end(text: Seq<char>, from: int, to: int) -> int
    decreases to - from,
{
    if from < to && 0 < to <= text.len() && is_blank(text[to - 1]) {
        trimmed_end(text, from, to - 1)
    } else {
        to
    }
}

/// A run ends at or behind its start. Where it starts inside the text, it
/// ends inside the text, holds characters of its class only, and ends at the
/// end of the text or in front of a character of another class.
pub proof fn lemma_run_end(text: Seq<char>, from: int, class: CharClass)
    ensures
        from <= run_end(text, from, class),
        0 <= from <= text.len() ==> {
            &&& run_end(text, from, class) <= text.len()
            &&& forall|k: int|
                from <= k < run_end(text, from, class) ==> class.has(#[trigger] text[k])
            &&& run_end(text, from, class) < text.len() ==> !class.has(
                text[run_end(text, from, class)],
            )
        },
    decreases text.len() - from,
{
    if 0 <= from < text.len() && class.has(text[from]) {
        lemma_run_end(text, from + 1, class);
    }
}

/// What is left when the blanks at the end are cut off does not end with a
/// blank.
pub proof fn lemma_trimmed_end(text: Seq<char>, from: int, to: int)
    requires
        0 <= from <= to <= text.len(),
    ensures
        from <= trimmed_end(text, from, to) <= to,
        from < trimmed_end(text, from, to) ==> !is_blank(text[trimmed_end(text, from, to) - 1]),
        forall|k: int| trimmed_end(text, from, to) <= k < to ==> is_blank(#[trigger] text[k]),
    decreases to - from,
{
    if from < to && is_blank(text[to - 1]) {
        lemma_trimmed_end(text, from, to - 1);
    }
}

/// Whether `s` can stand as a key or as the name of a block: it is not empty
/// and holds neither spaces nor marks.
pub open spec fn is_identifier(s: Seq<char>) -> bool {
    &&& s.len() > 0
    &&& forall|i: int| 0 <= i < s.len() ==> CharClass::Word.has(#[trigger] s[i])
}

/// Whether `s` can stand as a value: it holds neither line breaks nor marks,
/// and neither starts nor ends with a blank.
pub open spec fn is_value(s: Seq<char>) -> bool {
    &&& forall|i: int| 0 <= i < s.len() ==> CharClass::Value.has(#[trigger] s[i])
    &&& s.len() > 0 ==> !is_blank(s[0]) && !is_blank(s[s.len() - 1])
}

/// Whether every key, name and value in `statement` can stand as one in a
/// text.
pub open spec fn is_well_formed(statement: StatementView) -> bool
    decreases statement,
{
    match statement {
        StatementView::Assignment(identifier, value) => is_identifier(identifier) && is_value(
            value,
        ),
        StatementView::Node(kind, children) => is_identifier(kind) && forall|i: int|
            0 <= i < children.len() ==> is_well_formed(#[trigger] children[i]),
    }
}

/// Whether each of `statements` is well formed.
pub open spec fn are_well_formed(statements: Seq<StatementView>) -> bool {
    forall|i: int| 0 <= i < statements.len() ==> is_well_formed(#[trigger] statements[i])
}

/// The ways in which a text can fail to be a document.
#[derive(Clone, Copy, Debug, PartialEq, Eq)]
pub enum SyntaxErrorKind {
    /// A statement starts with `=` or `{`, or a `}` closes no block.
    UnexpectedInput,
    /// A key or a name is followed by neither `=` nor `{`.
    MissingEquals,
    /// The text ends inside a block.
    UnclosedNode,
}

/// Where a text stops being a document, and how.
pub struct Failure {
    pub kind: SyntaxErrorKind,
    /// The number of characters in front of the place.
    pub at: int,
}

/// The statement that starts at `start`, where a name or key is expected,
/// and the place behind it.
///
/// A block that the text does not close fails at its opening brace.
pub open spec fn parsed_statement(text: Seq<char>, start: int) -> Result<
    (StatementView, int),
    Failure,
>
    decreases text.len() - start, 0nat,
    via parsed_statement_decreases
{
    let word_end = run_end(text, start, CharClass::Word);
    let mark = run_end(text, word_end, CharClass::Space);
    if word_end <= start {
        Err(Failure { kind: SyntaxErrorKind::UnexpectedInput, at: start })
    } else if mark < text.len() && text[mark] == '=' {
        let value_start = run_end(text, mark + 1, CharClass::Blank);
        let line_end = run_end(text, value_start, CharClass::Value);
        let value_end = trimmed_end(text, value_start, line_end);
        Ok(
            (
                StatementView::Assignment(
                    text.subrange(start, word_end),
                    text.subrange(value_start, value_end),
                ),
                line_end,
            ),
        )
    } else if mark < text.len() && text[mark] == '{' {
        match parsed_statements(text, mark + 1) {
            Err(failure) => Err(failure),
            Ok((children, close)) => {
                if close < text.len() {
                    Ok((StatementView::Node(text.subrange(start, word_end), children), close + 1))
                } else {
                    Err(Failure { kind: SyntaxErrorKind::UnclosedNode, at: mark })
                }
            },
        }
    } else {
        Err(Failure { kind: SyntaxErrorKind::MissingEquals, at: mark })
    }
}

/// The statements from `pos` up to the end of the text or the `}` that closes
/// the block around them, and the place of that end or brace.
pub open spec fn parsed_statements(text: Seq<char>, pos: int) -> Result<
    (Seq<StatementView>, int),
    Failure,
>
    decreases text.len() - pos, 1nat,
    via parsed_statements_decreases
{
    let start = run_end(text, pos, CharClass::Space);
    if start >= text.len() || text[start] == '}' {
        Ok((Seq::empty(), start))
    } else {
        match parsed_statement(text, start) {
            Err(failure) => Err(failure),
            Ok((statement, next)) => {
                // A statement holds at least one character of the text, so
                // `next` lies behind `start` and not behind the end: the test
                // is there for the termination check.
                if next <= start || text.len() < next {
                    Err(Failure { kind: SyntaxErrorKind::UnexpectedInput, at: start })
                } else {
                    match parsed_statements(text, next) {
                        Err(failure) => Err(failure),
                        Ok((rest, end)) => Ok((seq![statement] + rest, end)),
                    }
                }
            },
        }
    }
}

/// `then` with `statements` put in front of its statements.
pub open spec fn prefixed(
    statements: Seq<StatementView>,
    then: Result<(Seq<StatementView>, int), Failure>,
) -> Result<(Seq<StatementView>, int), Failure> {
    match then {
        Ok((rest, end)) => Ok((statements + rest, end)),
        Err(failure) => Err(failure),
    }
}

#[via_fn]
proof fn parsed_statement_decreases(text: Seq<char>, start: int) {
    let word_end = run_end(text, start, CharClass::Word);
    lemma_run_end(text, word_end, CharClass::Space);
}

#[via_fn]
proof fn parsed_statements_decreases(text: Seq<char>, pos: int) {
    lemma_run_end(text, pos, CharClass::Space);
}

/// The document that `text` is, or the first place at which it is none.
///
/// A `}` that closes no block is unexpected input.
pub open spec fn parsed_document(text: Seq<char>) -> Result<Seq<StatementView>, Failure> {
    match parsed_statements(text, 0) {
        Err(failure) => Err(failure),
        Ok((statements, end)) => {
            if end >= text.len() {
                Ok(statements)
            } else {
                Err(Failure { kind: SyntaxErrorKind::UnexpectedInput, at: end })
            }
        },
    }
}

/// The number of line feeds among the first `offset` characters of `text`.
pub open spec fn line_of(text: Seq<char>, offset: int) -> int
    decreases offset,
{
    if offset <= 0 {
        0
    } else if text[offset - 1] == '\n' {
        line_of(text, offset - 1) + 1
    } else {
        line_of(text, offset - 1)
    }
}

/// The number of characters between the last line feed among the first
/// `offset` characters of `text`, or the start of `text`, and `offset`.
pub open spec fn column_of(text: Seq<char>, offset: int) -> int
    decreases offset,
{
    if offset <= 0 || text[offset - 1] == '\n' {
        0
    } else {
        column_of(text, offset - 1) + 1
    }
}

} // verus!
