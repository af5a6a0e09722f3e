//! From the contents of a file to the contents it is to have: read, edit,
//! write with the line ending of what was read.

use crate::action::{edited_statements, Action};
use crate::document::{Document, StatementView};
use crate::grammar::{are_well_formed, is_line_break, parsed_document, Failure};
use crate::line_endings::{
    ending_of, has_windows_line_ending, is_unix_text, is_windows_text,
    law_line_ending_is_detected, law_render_uses_one_line_ending,
    law_written_line_ending_is_detected,
};
use crate::parser::{syntax_error, SyntaxError};
use crate::render::render_statements;
use crate::round_trip::{is_line_ending, law_parse_inverts_render, law_parsed_document_is_well_formed};
use crate::strip::strip_document;
use crate::strip_laws::law_strip_keeps_well_formed;
use crate::text::str_eq;
use crate::tree::parse_string;
use vstd::prelude::*;

verus! {

/// The new contents of a file.
#[derive(Debug, PartialEq, Eq)]
pub struct Rewrite {
    /// The text to write.
    pub text: String,
    /// Whether `text` differs from what the file held.
    pub changed: bool,
}

/// The text that a file with the contents `contents` holds after `action`,
/// where `document` is what the contents were read as.
pub open spec fn rewritten(
    contents: Seq<char>,
    document: Seq<StatementView>,
    action: Action,
) -> Seq<char> {
    render_statements(edited_statements(document, action@), 0, ending_of(contents))
}

/// `document` after `action` was done to it.
pub fn apply_action(document: &Document, action: &Action) -> (edited: Document)
    ensures
        edited@ == edited_statements(document@, action@),
{
    match action {
        Action::Remove(identifier, name) => strip_document(
            document,
            identifier.as_str(),
            name.as_str(),
        ),
        Action::Clean => document.clone(),
    }
}

/// Reads `contents`, does `action` to the document, and writes it with the
/// line ending of `contents`.
///
/// Fails where `contents` is no document, and only there.
pub fn rewrite(contents: &str, action: &Action) -> (result: Result<Rewrite, SyntaxError>)
    ensures
        match parsed_document(contents@) {
            Ok(document) => {
                &&& result matches Ok(rewrite)
                &&& rewrite.text@ == rewritten(contents@, document, *action)
                &&& rewrite.changed == (rewrite.text@ != contents@)
            },
            Err(failure) => result == Err::<Rewrite, SyntaxError>(
                syntax_error(contents@, failure),
            ),
        },
{
    match parse_string(contents) {
        Err(error) => Err(error),
        Ok(document) => {
            let edited = apply_action(&document, action);
            let text = if has_windows_line_ending(contents) {
                edited.to_windows()
            } else {
                edited.to_string()
            };
            let changed = !str_eq(text.as_str(), contents);
            Ok(Rewrite { text, changed })
        },
    }
}

/// What is written back uses the line ending of what was read: where the
/// contents hold no carriage return, neither does the new text; where they
/// hold a line break, and carriage return and line feed only as pairs, so
/// does the new text.
pub proof fn law_rewrite_keeps_line_ending(contents: Seq<char>, action: Action)
    requires
        parsed_document(contents) is Ok,
    ensures
        is_unix_text(contents) ==> is_unix_text(
            rewritten(contents, parsed_document(contents)->Ok_0, action),
        ),
        is_windows_text(contents) && (exists|i: int|
            0 <= i < contents.len() && is_line_break(#[trigger] contents[i])) ==> is_windows_text(
            rewritten(contents, parsed_document(contents)->Ok_0, action),
        ),
{
    let document = parsed_document(contents)->Ok_0;
    law_parsed_document_is_well_formed(contents);
    let edited = edited_statements(document, action@);
    match action {
        Action::Remove(kind, name) => {
            law_strip_keeps_well_formed(document, kind@, name@);
        },
        Action::Clean => {},
    }
    assert(are_well_formed(edited));
    law_render_uses_one_line_ending(edited);
    law_line_ending_is_detected(contents);
}

/// A file in clean form stays as it is when it is cleaned: the text that was
/// written for a well-formed document is read as that document and written
/// back to the letter.
pub proof fn law_clean_text_is_kept(document: Seq<StatementView>, ending: Seq<char>)
    requires
        are_well_formed(document),
        is_line_ending(ending),
    ensures
        ({
            let text = render_statements(document, 0, ending);
            &&& parsed_document(text) == Ok::<Seq<StatementView>, Failure>(document)
            &&& rewritten(text, document, Action::Clean) == text
        }),
{
    law_parse_inverts_render(document, ending);
    if document.len() > 0 {
        law_written_line_ending_is_detected(document, ending);
    } else {
        assert(render_statements(document, 0, ending) =~= render_statements(
            document,
            0,
            ending_of(render_statements(document, 0, ending)),
        ));
    }
}

} // verus!
