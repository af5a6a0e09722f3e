//! Which line ending a text uses, and that writing keeps to one.

use crate::document::StatementView;
use crate::grammar::{are_well_formed, is_line_break, is_well_formed, CharClass};
use crate::render::{indentation, render_statement, render_statements, unix_ending, windows_ending};
use crate::round_trip::is_line_ending;
use vstd::prelude::*;
use vstd::std_specs::iter::IteratorSpec;

verus! {

/// Whether the first line break of `text` is a carriage return.
pub open spec fn has_windows_ending(text: Seq<char>) -> bool {
    exists|i: int|
        0 <= i < text.len() && #[trigger] text[i] == '\r' && forall|j: int|
            0 <= j < i ==> !is_line_break(#[trigger] text[j])
}

/// The line ending in which a file with the contents `text` is written back.
pub open spec fn ending_of(text: Seq<char>) -> Seq<char> {
    if has_windows_ending(text) {
        windows_ending()
    } else {
        unix_ending()
    }
}

/// Whether `text` holds no carriage return.
pub open spec fn is_unix_text(text: Seq<char>) -> bool {
    forall|i: int| 0 <= i < text.len() ==> #[trigger] text[i] != '\r'
}

/// Whether carriage return and line feed stand in `text` only as a pair, the
/// first directly in front of the second.
pub open spec fn is_windows_text(text: Seq<char>) -> bool {
    forall|i: int|
        0 <= i < text.len() ==> {
            &&& #[trigger] text[i] == '\n' ==> i > 0 && text[i - 1] == '\r'
            &&& text[i] == '\r' ==> i + 1 < text.len() && text[i + 1] == '\n'
        }
}

/// Whether every line break in `text` is the line ending `ending`.
pub open spec fn uses_only(text: Seq<char>, ending: Seq<char>) -> bool {
    if ending == windows_ending() {
        is_windows_text(text)
    } else {
        is_unix_text(text)
    }
}

/// Whether the contents of a file use Windows line endings: whether a
/// carriage return comes before any line feed.
pub fn has_windows_line_ending(contents: &str) -> (windows: bool)
    ensures
        windows == has_windows_ending(contents@),
{
    let mut rest = contents.chars();
    let ghost mut seen: Seq<char> = Seq::empty();
    loop
        invariant
            rest.obeys_prophetic_iter_laws(),
            rest.decrease() is Some,
            seen + rest.remaining() == contents@,
            forall|j: int| 0 <= j < seen.len() ==> !is_line_break(#[trigger] contents@[j]),
        decreases rest.decrease()->0,
    {
        let ghost before = rest.remaining();
        match rest.next() {
            Some(c) => {
                proof {
                    assert(contents@[seen.len() as int] == (seen + before)[seen.len() as int]);
                    assert(contents@[seen.len() as int] == c);
                }
                if c == '\r' {
                    return true;
                }
                if c == '\n' {
                    proof {
                        let at = seen.len() as int;
                        assert forall|i: int|
                            0 <= i < contents@.len() && #[trigger] contents@[i] == '\r' implies !(forall|
                            j: int,
                        |
                            0 <= j < i ==> !is_line_break(#[trigger] contents@[j])) by {
                            if i > at {
                                assert(is_line_break(contents@[at]));
                            }
                        }
                    }
                    return false;
                }
                proof {
                    assert(seen.push(c) + rest.remaining() =~= seen + before);
                    seen = seen.push(c);
                }
            },
            None => {
                proof {
                    assert(seen + before =~= seen);
                }
                return false;
            },
        }
    }
}

/// A text without line breaks uses whatever line ending one names.
proof fn lemma_plain_uses_only(piece: Seq<char>, ending: Seq<char>)
    requires
        forall|k: int| 0 <= k < piece.len() ==> !is_line_break(#[trigger] piece[k]),
    ensures
        uses_only(piece, ending),
{
}

/// Two texts with one line ending, one behind the other, are a text with that
/// line ending.
proof fn lemma_uses_only_concat(a: Seq<char>, b: Seq<char>, ending: Seq<char>)
    requires
        uses_only(a, ending),
        uses_only(b, ending),
    ensures
        uses_only(a + b, ending),
{
    let whole = a + b;
    if ending == windows_ending() {
        assert forall|i: int| 0 <= i < whole.len() implies {
            &&& #[trigger] whole[i] == '\n' ==> i > 0 && whole[i - 1] == '\r'
            &&& whole[i] == '\r' ==> i + 1 < whole.len() && whole[i + 1] == '\n'
        } by {
            if i < a.len() {
                assert(whole[i] == a[i]);
                if a[i] == '\r' {
                    assert(whole[i + 1] == a[i + 1]);
                }
                if a[i] == '\n' {
                    assert(whole[i - 1] == a[i - 1]);
                }
            } else {
                let k = i - a.len();
                assert(whole[i] == b[k]);
                if b[k] == '\r' {
                    assert(whole[i + 1] == b[k + 1]);
                }
                if b[k] == '\n' {
                    assert(whole[i - 1] == b[k - 1]);
                }
            }
        }
    } else {
        assert forall|i: int| 0 <= i < whole.len() implies #[trigger] whole[i] != '\r' by {
            if i < a.len() {
                assert(whole[i] == a[i]);
            } else {
                assert(whole[i] == b[i - a.len()]);
            }
        }
    }
}

/// A statement that is written with a line ending uses no other.
proof fn lemma_render_statement_uses_only(statement: StatementView, depth: nat, ending: Seq<char>)
    requires
        is_well_formed(statement),
        is_line_ending(ending),
    ensures
        uses_only(render_statement(statement, depth, ending), ending),
    decreases statement, 0nat,
{
    let tabs = indentation(depth);
    lemma_plain_uses_only(tabs, ending);
    assert(uses_only(ending, ending));
    match statement {
        StatementView::Assignment(identifier, value) => {
            let sep = seq![' ', '=', ' '];
            assert forall|k: int| 0 <= k < identifier.len() implies !is_line_break(
                #[trigger] identifier[k],
            ) by {
                assert(CharClass::Word.has(identifier[k]));
            }
            assert forall|k: int| 0 <= k < value.len() implies !is_line_break(
                #[trigger] value[k],
            ) by {
                assert(CharClass::Value.has(value[k]));
            }
            lemma_plain_uses_only(identifier, ending);
            lemma_plain_uses_only(sep, ending);
            lemma_plain_uses_only(value, ending);
            lemma_uses_only_concat(tabs, identifier, ending);
            lemma_uses_only_concat(tabs + identifier, sep, ending);
            lemma_uses_only_concat(tabs + identifier + sep, value, ending);
            lemma_uses_only_concat(tabs + identifier + sep + value, ending, ending);
        },
        StatementView::Node(kind, children) => {
            let open = seq!['{'];
            let close = seq!['}'];
            let inside = render_statements(children, depth + 1, ending);
            assert forall|k: int| 0 <= k < kind.len() implies !is_line_break(#[trigger] kind[k]) by {
                assert(CharClass::Word.has(kind[k]));
            }
            assert(are_well_formed(children));
            lemma_render_statements_use_only(children, depth + 1, ending);
            lemma_plain_uses_only(kind, ending);
            lemma_plain_uses_only(open, ending);
            lemma_plain_uses_only(close, ending);
            lemma_uses_only_concat(tabs, kind, ending);
            lemma_uses_only_concat(tabs + kind, ending, ending);
            lemma_uses_only_concat(tabs + kind + ending, tabs, ending);
            lemma_uses_only_concat(tabs + kind + ending + tabs, open, ending);
            lemma_uses_only_concat(tabs + kind + ending + tabs + open, ending, ending);
            lemma_uses_only_concat(tabs + kind + ending + tabs + open + ending, inside, ending);
            lemma_uses_only_concat(
                tabs + kind + ending + tabs + open + ending + inside,
                tabs,
                ending,
            );
            lemma_uses_only_concat(
                tabs + kind + ending + tabs + open + ending + inside + tabs,
                close,
                ending,
            );
            lemma_uses_only_concat(
                tabs + kind + ending + tabs + open + ending + inside + tabs + close,
                ending,
                ending,
            );
        },
    }
}

/// Statements that are written with a line ending use no other.
proof fn lemma_render_statements_use_only(
    statements: Seq<StatementView>,
    depth: nat,
    ending: Seq<char>,
)
    requires
        are_well_formed(statements),
        is_line_ending(ending),
    ensures
        uses_only(render_statements(statements, depth, ending), ending),
    decreases statements, 1nat,
{
    if statements.len() == 0 {
        lemma_plain_uses_only(Seq::empty(), ending);
    } else {
        let rest = statements.drop_first();
        assert forall|i: int| 0 <= i < rest.len() implies is_well_formed(#[trigger] rest[i]) by {
            assert(rest[i] == statements[i + 1]);
        }
        lemma_render_statement_uses_only(statements[0], depth, ending);
        lemma_render_statements_use_only(rest, depth, ending);
        lemma_uses_only_concat(
            render_statement(statements[0], depth, ending),
            render_statements(rest, depth, ending),
            ending,
        );
    }
}

/// A well-formed document written with Unix line endings holds no carriage
/// return; written with Windows line endings it holds carriage return and
/// line feed only as pairs.
pub proof fn law_render_uses_one_line_ending(document: Seq<StatementView>)
    requires
        are_well_formed(document),
    ensures
        is_unix_text(render_statements(document, 0, unix_ending())),
        is_windows_text(render_statements(document, 0, windows_ending())),
{
    lemma_render_statements_use_only(document, 0, unix_ending());
    lemma_render_statements_use_only(document, 0, windows_ending());
    assert(unix_ending() != windows_ending()) by {
        assert(unix_ending().len() != windows_ending().len());
    }
}

/// Among the first `n` characters of a Windows text the first line break, if
/// there is one, is a carriage return.
proof fn lemma_first_line_break(text: Seq<char>, n: int)
    requires
        is_windows_text(text),
        0 <= n <= text.len(),
    ensures
        has_windows_ending(text) || forall|j: int|
            0 <= j < n ==> !is_line_break(#[trigger] text[j]),
    decreases n,
{
    if n > 0 {
        lemma_first_line_break(text, n - 1);
        if !has_windows_ending(text) {
            let at = n - 1;
            if text[at] == '\n' {
                assert(is_line_break(text[at - 1]));
            }
            if text[at] == '\r' {
                assert(has_windows_ending(text));
            }
        }
    }
}

/// A text with Windows line endings that has a line break is taken for a
/// Windows text; a text without carriage returns is taken for a Unix text.
pub proof fn law_line_ending_is_detected(text: Seq<char>)
    ensures
        is_windows_text(text) && (exists|i: int|
            0 <= i < text.len() && is_line_break(#[trigger] text[i])) ==> ending_of(text)
            == windows_ending(),
        is_unix_text(text) ==> ending_of(text) == unix_ending(),
{
    if is_windows_text(text) && (exists|i: int|
        0 <= i < text.len() && is_line_break(#[trigger] text[i])) {
        lemma_first_line_break(text, text.len() as int);
    }
}

/// What is written for statements, if there are any, ends with a line break.
proof fn lemma_render_ends_with_line_break(
    statements: Seq<StatementView>,
    depth: nat,
    ending: Seq<char>,
)
    requires
        statements.len() > 0,
        is_line_ending(ending),
    ensures
        render_statements(statements, depth, ending).len() > 0,
        is_line_break(render_statements(statements, depth, ending).last()),
    decreases statements.len(),
{
    let head = render_statement(statements[0], depth, ending);
    let rest = statements.drop_first();
    let tail = render_statements(rest, depth, ending);
    assert(head.len() > 0 && is_line_break(head.last())) by {
        match statements[0] {
            StatementView::Assignment(identifier, value) => {
                let front = indentation(depth) + identifier + seq![' ', '=', ' '] + value;
                assert(head == front + ending);
                assert(head.last() == ending.last());
            },
            StatementView::Node(kind, children) => {
                let front = indentation(depth) + kind + ending + indentation(depth) + seq!['{']
                    + ending + render_statements(children, depth + 1, ending) + indentation(depth)
                    + seq!['}'];
                assert(head == front + ending);
                assert(head.last() == ending.last());
            },
        }
    }
    if rest.len() > 0 {
        lemma_render_ends_with_line_break(rest, depth, ending);
        assert((head + tail).last() == tail.last());
    } else {
        assert(head + tail =~= head);
    }
}

/// A document that holds a statement and is well formed is taken, once
/// written, for a text of the line ending it was written with.
pub proof fn law_written_line_ending_is_detected(document: Seq<StatementView>, ending: Seq<char>)
    requires
        are_well_formed(document),
        is_line_ending(ending),
        document.len() > 0,
    ensures
        ending_of(render_statements(document, 0, ending)) == ending,
{
    let text = render_statements(document, 0, ending);
    law_render_uses_one_line_ending(document);
    law_line_ending_is_detected(text);
    lemma_render_ends_with_line_break(document, 0, ending);
    assert(is_line_break(text[text.len() - 1]));
}

} // verus!
