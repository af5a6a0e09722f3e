//! The parser: from the text of a file to its raw parse tree.

use crate::document::StatementView;
use crate::grammar::{
    column_of, line_of, parsed_document, parsed_statement, parsed_statements, prefixed,
    run_end, trimmed_end, CharClass, Failure, SyntaxErrorKind,
};
use crate::pairs::{pair_of, pairs_of, pairs_view, Pair, PairView};
use crate::text::{chars_of, decimal, push_decimal, string_of};
use vstd::prelude::*;
use vstd::string::StringExecFns;

verus! {

/// Why and where a text is no document. The three numbers count from zero,
/// in characters.
#[derive(Clone, Copy, Debug, PartialEq, Eq)]
pub struct SyntaxError {
    pub kind: SyntaxErrorKind,
    /// The number of characters in front of the place.
    pub offset: usize,
    /// The number of line feeds in front of the place.
    pub line: usize,
    /// The number of characters between the start of the line and the place.
    pub column: usize,
}

/// The error that reports `failure` in `text`.
pub open spec fn syntax_error(text: Seq<char>, failure: Failure) -> SyntaxError {
    SyntaxError {
        kind: failure.kind,
        offset: failure.at as usize,
        line: line_of(text, failure.at) as usize,
        column: column_of(text, failure.at) as usize,
    }
}

/// What is wrong with a text, in words.
pub open spec fn kind_text(kind: SyntaxErrorKind) -> Seq<char> {
    match kind {
        SyntaxErrorKind::UnexpectedInput => "unexpected input"@,
        SyntaxErrorKind::MissingEquals => "expected `=` or `{`"@,
        SyntaxErrorKind::UnclosedNode => "block is not closed"@,
    }
}

/// The message of an error: line and column, both counted from one as
/// editors show them, and what is wrong there.
pub open spec fn error_message(error: SyntaxError) -> Seq<char> {
    decimal((error.line + 1) as nat) + seq![':'] + decimal((error.column + 1) as nat) + seq![
        ':',
        ' ',
    ] + kind_text(error.kind)
}

impl SyntaxError {
    /// The error in words, for a reader: `line:column: what is wrong`.
    pub fn to_string(&self) -> (message: String)
        ensures
            message@ == error_message(*self),
    {
        let mut message = String::new();
        push_decimal(&mut message, self.line as u128 + 1);
        message.append(":");
        push_decimal(&mut message, self.column as u128 + 1);
        message.append(": ");
        match self.kind {
            SyntaxErrorKind::UnexpectedInput => message.append("unexpected input"),
            SyntaxErrorKind::MissingEquals => message.append("expected `=` or `{`"),
            SyntaxErrorKind::UnclosedNode => message.append("block is not closed"),
        }
        proof {
            reveal_strlit(":");
            reveal_strlit(": ");
            assert(":"@ =~= seq![':']);
            assert(": "@ =~= seq![':', ' ']);
            assert(message@ =~= error_message(*self));
        }
        message
    }
}

/// The parser of ConfigNode files.
pub struct ConfigNodeParser;

impl CharClass {
    /// Whether `c` belongs to the class.
    pub fn contains(self, c: char) -> (held: bool)
        ensures
            held == self.has(c),
    {
        match self {
            CharClass::Space => c == ' ' || c == '\t' || c == '\n' || c == '\r',
            CharClass::Blank => c == ' ' || c == '\t',
            CharClass::Word => !(c == ' ' || c == '\t' || c == '\n' || c == '\r' || c == '='
                || c == '{' || c == '}'),
            CharClass::Value => !(c == '\n' || c == '\r' || c == '=' || c == '{' || c == '}'),
        }
    }
}

/// Statements with no statement put in front are the statements.
proof fn lemma_prefixed_by_nothing(then: Result<(Seq<StatementView>, int), Failure>)
    ensures
        prefixed(Seq::empty(), then) == then,
{
    match then {
        Ok((rest, end)) => {
            assert(Seq::<StatementView>::empty() + rest =~= rest);
        },
        Err(_) => {},
    }
}

/// The end of the run of characters of `class` that starts at `from`.
fn run(chars: &Vec<char>, from: usize, class: CharClass) -> (end: usize)
    requires
        from <= chars.len(),
    ensures
        end == run_end(chars@, from as int, class),
        from <= end <= chars.len(),
{
    let mut end = from;
    while end < chars.len() && class.contains(chars[end])
        invariant
            from <= end <= chars.len(),
            run_end(chars@, end as int, class) == run_end(chars@, from as int, class),
        decreases chars.len() - end,
    {
        end += 1;
    }
    end
}

/// The end of `chars[from..to]` without the blanks at its end.
fn trim(chars: &Vec<char>, from: usize, to: usize) -> (end: usize)
    requires
        from <= to <= chars.len(),
    ensures
        end == trimmed_end(chars@, from as int, to as int),
        from <= end <= to,
{
    let mut end = to;
    while end > from && (chars[end - 1] == ' ' || chars[end - 1] == '\t')
        invariant
            from <= end <= to <= chars.len(),
            trimmed_end(chars@, from as int, end as int) == trimmed_end(
                chars@,
                from as int,
                to as int,
            ),
        decreases end,
    {
        end -= 1;
    }
    end
}

/// Reads the statement that starts at `start`.
fn statement_at(chars: &Vec<char>, start: usize) -> (result: Result<
    (Pair, usize),
    (SyntaxErrorKind, usize),
>)
    requires
        start <= chars.len(),
    ensures
        match parsed_statement(chars@, start as int) {
            Ok((statement, next)) => {
                &&& result matches Ok((pair, end))
                &&& pair@ == pair_of(statement)
                &&& end == next
                &&& start < end <= chars.len()
            },
            Err(failure) => {
                &&& result matches Err((kind, at))
                &&& kind == failure.kind
                &&& at == failure.at
                &&& at <= chars.len()
            },
        },
    decreases chars.len() - start, 0nat,
{
    let word_end = run(chars, start, CharClass::Word);
    if word_end == start {
        return Err((SyntaxErrorKind::UnexpectedInput, start));
    }
    let mark = run(chars, word_end, CharClass::Space);
    if mark < chars.len() && chars[mark] == '=' {
        let value_start = run(chars, mark + 1, CharClass::Blank);
        let line_end = run(chars, value_start, CharClass::Value);
        let value_end = trim(chars, value_start, line_end);
        let mut inner: Vec<Pair> = Vec::new();
        inner.push(Pair::Identifier(string_of(chars, start, word_end)));
        inner.push(Pair::Value(string_of(chars, value_start, value_end)));
        assert(pairs_view(inner@) =~= seq![
            PairView::Identifier(chars@.subrange(start as int, word_end as int)),
            PairView::Value(chars@.subrange(value_start as int, value_end as int)),
        ]);
        Ok((Pair::Assignment(inner), line_end))
    } else if mark < chars.len() && chars[mark] == '{' {
        let mut head: Vec<Pair> = Vec::new();
        head.push(Pair::Identifier(string_of(chars, start, word_end)));
        assert(pairs_view(head@) =~= seq![
            PairView::Identifier(chars@.subrange(start as int, word_end as int)),
        ]);
        match statements_at(chars, mark + 1, head) {
            Err(error) => Err(error),
            Ok((inner, close)) => {
                if close < chars.len() {
                    Ok((Pair::Node(inner), close + 1))
                } else {
                    Err((SyntaxErrorKind::UnclosedNode, mark))
                }
            },
        }
    } else {
        Err((SyntaxErrorKind::MissingEquals, mark))
    }
}

/// Reads statements from `pos` up to the end of the text or a closing brace,
/// and puts their pairs behind those of `head`.
fn statements_at(chars: &Vec<char>, pos: usize, head: Vec<Pair>) -> (result: Result<
    (Vec<Pair>, usize),
    (SyntaxErrorKind, usize),
>)
    requires
        pos <= chars.len(),
    ensures
        match parsed_statements(chars@, pos as int) {
            Ok((statements, stop)) => {
                &&& result matches Ok((pairs, end))
                &&& pairs_view(pairs@) == pairs_view(head@) + pairs_of(statements)
                &&& end == stop
                &&& pos <= end <= chars.len()
            },
            Err(failure) => {
                &&& result matches Err((kind, at))
                &&& kind == failure.kind
                &&& at == failure.at
                &&& at <= chars.len()
            },
        },
    decreases chars.len() - pos, 1nat,
{
    let ghost head_view = pairs_view(head@);
    let ghost mut done: Seq<StatementView> = Seq::empty();
    let mut pairs = head;
    let mut at: usize = pos;
    proof {
        assert(pairs_view(pairs@) =~= head_view + pairs_of(done));
        lemma_prefixed_by_nothing(parsed_statements(chars@, pos as int));
    }
    loop
        invariant
            pos <= at <= chars.len(),
            head_view == pairs_view(head@),
            pairs_view(pairs@) == head_view + pairs_of(done),
            parsed_statements(chars@, pos as int) == prefixed(
                done,
                parsed_statements(chars@, at as int),
            ),
        decreases chars.len() - at,
    {
        let start = run(chars, at, CharClass::Space);
        if start >= chars.len() || chars[start] == '}' {
            proof {
                assert(done + Seq::<StatementView>::empty() =~= done);
            }
            return Ok((pairs, start));
        }
        match statement_at(chars, start) {
            Err(error) => {
                return Err(error);
            },
            Ok((pair, next)) => {
                let ghost statement = parsed_statement(chars@, start as int)->Ok_0.0;
                let ghost then = parsed_statements(chars@, next as int);
                let ghost before = pairs_view(pairs@);
                pairs.push(pair);
                proof {
                    assert(pairs_view(pairs@) =~= before.push(pair@));
                    assert(pairs_of(done.push(statement)) =~= pairs_of(done).push(
                        pair_of(statement),
                    ));
                    assert(before.push(pair@) =~= head_view + pairs_of(done).push(
                        pair_of(statement),
                    ));
                    match then {
                        Ok((rest, end)) => {
                            assert(done + (seq![statement] + rest) =~= done.push(statement)
                                + rest);
                        },
                        Err(_) => {},
                    }
                    done = done.push(statement);
                }
                at = next;
            },
        }
    }
}

/// How many line feeds stand among the first `offset` of `chars`, and how many
/// characters stand behind the last of them.
fn line_and_column(chars: &Vec<char>, offset: usize) -> (place: (usize, usize))
    requires
        offset <= chars.len(),
    ensures
        place.0 == line_of(chars@, offset as int),
        place.1 == column_of(chars@, offset as int),
{
    let mut line: usize = 0;
    let mut column: usize = 0;
    let mut i: usize = 0;
    while i < offset
        invariant
            i <= offset <= chars.len(),
            line == line_of(chars@, i as int),
            column == column_of(chars@, i as int),
            line <= i,
            column <= i,
        decreases offset - i,
    {
        if chars[i] == '\n' {
            line += 1;
            column = 0;
        } else {
            column += 1;
        }
        i += 1;
    }
    (line, column)
}

/// The error of kind `kind` at `offset`, with its line and column.
fn error_at(chars: &Vec<char>, kind: SyntaxErrorKind, offset: usize) -> (error: SyntaxError)
    requires
        offset <= chars.len(),
    ensures
        error == syntax_error(chars@, Failure { kind, at: offset as int }),
{
    let (line, column) = line_and_column(chars, offset);
    SyntaxError { kind, offset, line, column }
}

impl ConfigNodeParser {
    /// Parses `text` as a document.
    ///
    /// Where `text` is a document, the pairs of its statements come back in
    /// order, with the end of the text behind them. Where it is none, the
    /// first failure comes back.
    pub fn parse(text: &str) -> (result: Result<Vec<Pair>, SyntaxError>)
        ensures
            match parsed_document(text@) {
                Ok(statements) => {
                    &&& result matches Ok(pairs)
                    &&& pairs_view(pairs@) == pairs_of(statements).push(PairView::EndOfInput)
                },
                Err(failure) => result == Err::<Vec<Pair>, SyntaxError>(
                    syntax_error(text@, failure),
                ),
            },
    {
        let chars = chars_of(text);
        match statements_at(&chars, 0, Vec::new()) {
            Err((kind, at)) => Err(error_at(&chars, kind, at)),
            Ok((statements, end)) => {
                if end >= chars.len() {
                    let ghost before = pairs_view(statements@);
                    let mut pairs = statements;
                    pairs.push(Pair::EndOfInput);
                    proof {
                        let parsed = parsed_document(text@)->Ok_0;
                        assert(before =~= pairs_of(parsed));
                        assert(pairs_view(pairs@) =~= before.push(PairView::EndOfInput));
                    }
                    Ok(pairs)
                } else {
                    Err(error_at(&chars, SyntaxErrorKind::UnexpectedInput, end))
                }
            },
        }
    }
}

} // verus!
