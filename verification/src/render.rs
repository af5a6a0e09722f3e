//! Writing a document back to text.
//!
//! Every statement is written on lines of its own, indented by one tab for each
//! block around it, and every line ends with the same line ending.

use crate::builder::{append_str, builder_bytes, into_string, new_builder};
use crate::document::{statements_view, Document, Statement, StatementView};
use string_builder::Builder;
use vstd::prelude::*;
use vstd::string::StringExecFns;
use vstd::utf8::{
    decode_utf8, decode_utf8_encode_utf8, encode_utf8, encode_utf8_decode_utf8,
    encode_utf8_valid_utf8, valid_utf8,
};

verus! {

/// The line ending of Unix text: a line feed.
pub open spec fn unix_ending() -> Seq<char> {
    seq!['\n']
}

/// The line ending of Windows text: a carriage return and a line feed.
pub open spec fn windows_ending() -> Seq<char> {
    seq!['\r', '\n']
}

/// `depth` tab characters.
pub open spec fn indentation(depth: nat) -> Seq<char> {
    Seq::new(depth, |i: int| '\t')
}

/// The text of one statement that stands inside `depth` blocks.
pub open spec fn render_statement(statement: StatementView, depth: nat, ending: Seq<char>) -> Seq<
    char,
>
    decreases statement,
{
    match statement {
        StatementView::Assignment(identifier, value) => indentation(depth) + identifier
            + seq![' ', '=', ' '] + value + ending,
        StatementView::Node(kind, children) => indentation(depth) + kind + ending + indentation(
            depth,
        ) + seq!['{'] + ending + render_statements(children, depth + 1, ending) + indentation(depth)
            + seq!['}'] + ending,
    }
}

/// The texts of `statements`, one behind the other.
pub open spec fn render_statements(
    statements: Seq<StatementView>,
    depth: nat,
    ending: Seq<char>,
) -> Seq<char>
    decreases statements,
{
    if statements.len() == 0 {
        Seq::empty()
    } else {
        render_statement(statements[0], depth, ending) + render_statements(
            statements.drop_first(),
            depth,
            ending,
        )
    }
}

/// Whether the bytes of `builder` encode a text.
pub(crate) open spec fn holds_text(builder: Builder) -> bool {
    valid_utf8(builder_bytes(builder))
}

/// The text that the bytes of `builder` encode.
pub(crate) open spec fn text_of(builder: Builder) -> Seq<char> {
    decode_utf8(builder_bytes(builder))
}

/// The encoding of two texts in a row is the two encodings in a row.
pub(crate) proof fn lemma_encode_concat(a: Seq<char>, b: Seq<char>)
    ensures
        encode_utf8(a + b) == encode_utf8(a) + encode_utf8(b),
    decreases a.len(),
{
    if a.len() == 0 {
        assert(a + b =~= b);
        assert(encode_utf8(a) + encode_utf8(b) =~= encode_utf8(b));
    } else {
        lemma_encode_concat(a.drop_first(), b);
        assert((a + b).drop_first() =~= a.drop_first() + b);
        assert(encode_utf8(a + b) =~= encode_utf8(a) + encode_utf8(b));
    }
}

/// Appends `text` to a builder that holds a text.
fn append(builder: &mut Builder, text: &str)
    requires
        holds_text(*old(builder)),
    ensures
        holds_text(*final(builder)),
        text_of(*final(builder)) == text_of(*old(builder)) + text@,
{
    let ghost before = builder_bytes(*builder);
    append_str(builder, text);
    proof {
        decode_utf8_encode_utf8(before);
        lemma_encode_concat(decode_utf8(before), text@);
        encode_utf8_valid_utf8(decode_utf8(before) + text@);
        encode_utf8_decode_utf8(decode_utf8(before) + text@);
    }
}

/// Writes one assignment on a line of its own.
fn write_assignment(
    builder: &mut Builder,
    identifier: &str,
    value: &str,
    indent: &str,
    ending: &str,
    Ghost(depth): Ghost<nat>,
)
    requires
        holds_text(*old(builder)),
        indent@ == indentation(depth),
    ensures
        holds_text(*final(builder)),
        text_of(*final(builder)) == text_of(*old(builder)) + render_statement(
            StatementView::Assignment(identifier@, value@),
            depth,
            ending@,
        ),
{
    append(builder, indent);
    append(builder, identifier);
    append(builder, " = ");
    append(builder, value);
    append(builder, ending);
    proof {
        reveal_strlit(" = ");
        assert(" = "@ =~= seq![' ', '=', ' ']);
        assert(text_of(*builder) =~= text_of(*old(builder)) + render_statement(
            StatementView::Assignment(identifier@, value@),
            depth,
            ending@,
        ));
    }
}

/// Writes one block: its name, its statements between braces one tab further
/// in, each of the three on lines of its own.
fn write_node(
    builder: &mut Builder,
    kind: &str,
    children: &Vec<Statement>,
    indent: &str,
    ending: &str,
    Ghost(depth): Ghost<nat>,
)
    requires
        holds_text(*old(builder)),
        indent@ == indentation(depth),
    ensures
        holds_text(*final(builder)),
        text_of(*final(builder)) == text_of(*old(builder)) + render_statement(
            StatementView::Node(kind@, statements_view(children@)),
            depth,
            ending@,
        ),
    decreases children, 1nat,
{
    append(builder, indent);
    append(builder, kind);
    append(builder, ending);
    append(builder, indent);
    append(builder, "{");
    append(builder, ending);
    let mut inner = String::from_str(indent);
    inner.append("\t");
    proof {
        reveal_strlit("{");
        reveal_strlit("\t");
        assert("{"@ =~= seq!['{']);
        assert(inner@ =~= indentation(depth + 1));
    }
    let ghost head = text_of(*old(builder)) + indentation(depth) + kind@ + ending@ + indentation(
        depth,
    ) + seq!['{'] + ending@;
    assert(text_of(*builder) =~= head);
    write_statements(builder, children, inner.as_str(), ending, Ghost(depth + 1));
    append(builder, indent);
    append(builder, "}");
    append(builder, ending);
    proof {
        reveal_strlit("}");
        assert("}"@ =~= seq!['}']);
        assert(text_of(*builder) =~= text_of(*old(builder)) + render_statement(
            StatementView::Node(kind@, statements_view(children@)),
            depth,
            ending@,
        ));
    }
}

/// Writes `statements` one behind the other.
fn write_statements(
    builder: &mut Builder,
    statements: &Vec<Statement>,
    indent: &str,
    ending: &str,
    Ghost(depth): Ghost<nat>,
)
    requires
        holds_text(*old(builder)),
        indent@ == indentation(depth),
    ensures
        holds_text(*final(builder)),
        text_of(*final(builder)) == text_of(*old(builder)) + render_statements(
            statements_view(statements@),
            depth,
            ending@,
        ),
    decreases statements, 0nat,
{
    let ghost views = statements_view(statements@);
    let mut i: usize = 0;
    assert(views.skip(0) =~= views);
    while i < statements.len()
        invariant
            i <= statements.len(),
            views == statements_view(statements@),
            indent@ == indentation(depth),
            holds_text(*builder),
            text_of(*builder) + render_statements(views.skip(i as int), depth, ending@)
                == text_of(*old(builder)) + render_statements(views, depth, ending@),
        decreases statements.len() - i,
    {
        let ghost before = text_of(*builder);
        write_statement(builder, &statements[i], indent, ending, Ghost(depth));
        proof {
            let rest = views.skip(i as int);
            assert(rest.drop_first() =~= views.skip(i + 1));
            assert(rest[0] == statements@[i as int]@);
            assert(text_of(*builder) + render_statements(views.skip(i + 1), depth, ending@)
                =~= before + render_statements(rest, depth, ending@));
        }
        i += 1;
    }
    assert(text_of(*builder) + render_statements(views.skip(i as int), depth, ending@)
        =~= text_of(*builder));
}

/// Writes one statement.
fn write_statement(
    builder: &mut Builder,
    statement: &Statement,
    indent: &str,
    ending: &str,
    Ghost(depth): Ghost<nat>,
)
    requires
        holds_text(*old(builder)),
        indent@ == indentation(depth),
    ensures
        holds_text(*final(builder)),
        text_of(*final(builder)) == text_of(*old(builder)) + render_statement(
            statement@,
            depth,
            ending@,
        ),
    decreases statement, 0nat,
{
    match statement {
        Statement::Assignment(identifier, value) => write_assignment(
            builder,
            identifier.as_str(),
            value.as_str(),
            indent,
            ending,
            Ghost(depth),
        ),
        Statement::Node(kind, children) => write_node(
            builder,
            kind.as_str(),
            children,
            indent,
            ending,
            Ghost(depth),
        ),
    }
}

/// The text of `statements` at the top level of a file, each line ended by
/// `ending`.
fn render(statements: &Vec<Statement>, ending: &str) -> (text: String)
    ensures
        text@ == render_statements(statements_view(statements@), 0, ending@),
{
    let mut builder = new_builder();
    proof {
        assert(encode_utf8(Seq::<char>::empty()) =~= Seq::<u8>::empty());
        encode_utf8_valid_utf8(Seq::<char>::empty());
        encode_utf8_decode_utf8(Seq::<char>::empty());
    }
    let ghost start = text_of(builder);
    assert(start =~= Seq::<char>::empty());
    assert(indentation(0) =~= ""@) by {
        reveal_strlit("");
    }
    write_statements(&mut builder, statements, "", ending, Ghost(0));
    assert(text_of(builder) =~= render_statements(statements_view(statements@), 0, ending@));
    match into_string(builder) {
        Ok(text) => text,
        Err(_) => vstd::pervasive::unreached(),
    }
}

impl Document {
    /// The document as text with Unix line endings.
    pub fn to_string(&self) -> (text: String)
        ensures
            text@ == render_statements(self@, 0, unix_ending()),
    {
        proof {
            reveal_strlit("\n");
            assert("\n"@ =~= unix_ending());
        }
        render(&self.statements, "\n")
    }

    /// The document as text with Windows line endings.
    pub fn to_windows(&self) -> (text: String)
        ensures
            text@ == render_statements(self@, 0, windows_ending()),
    {
        proof {
            reveal_strlit("\r\n");
            assert("\r\n"@ =~= windows_ending());
        }
        render(&self.statements, "\r\n")
    }
}

impl Statement {
    /// The statement as text with Unix line endings, as it stands at the top
    /// level of a file.
    pub fn to_string(&self) -> (text: String)
        ensures
            text@ == render_statement(self@, 0, unix_ending()),
    {
        let mut builder = new_builder();
        proof {
            assert(encode_utf8(Seq::<char>::empty()) =~= Seq::<u8>::empty());
            encode_utf8_valid_utf8(Seq::<char>::empty());
            encode_utf8_decode_utf8(Seq::<char>::empty());
            reveal_strlit("\n");
            reveal_strlit("");
            assert("\n"@ =~= unix_ending());
            assert(indentation(0) =~= ""@);
        }
        assert(text_of(builder) =~= Seq::<char>::empty());
        write_statement(&mut builder, self, "", "\n", Ghost(0));
        assert(text_of(builder) =~= render_statement(self@, 0, unix_ending()));
        match into_string(builder) {
            Ok(text) => text,
            Err(_) => vstd::pervasive::unreached(),
        }
    }
}

} // verus!
