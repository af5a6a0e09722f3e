//! Cutting named blocks out of a document.
//!
//! A block is named by the first of its own assignments that carries the key
//! of its kind: `part` in a `PART`, `name` in a `RESOURCE` or a `MODULE`. The
//! name of a `PART` is the value without its instancing suffix: the last
//! underscore of the value and what follows it, where that is one digit or
//! more and nothing else. An underscore at the very end is no suffix. Blocks
//! of other kinds have no name.
//!
//! The name that is asked for is compared as it is given: no suffix is cut
//! off it. So `engine` removes the part `engine_2`, and `engine_2` removes
//! neither that part nor `engine`.

use crate::document::{statements_view, Document, Statement, StatementView};
use crate::text::{chars_of, str_eq, string_of};
use vstd::prelude::*;

verus! {

/// Whether `c` is one of the digits `0` to `9`.
pub open spec fn is_ascii_digit(c: char) -> bool {
    '0' <= c <= '9'
}

/// Whether an instancing suffix starts at index `i` of `s`: an underscore
/// with at least one digit, and nothing but digits, behind it.
pub open spec fn is_numerical_suffix_at(s: Seq<char>, i: int) -> bool {
    &&& 0 <= i
    &&& i + 1 < s.len()
    &&& s[i] == '_'
    &&& forall|j: int| i < j < s.len() ==> is_ascii_digit(#[trigger] s[j])
}

/// `s` without its instancing suffix, or `s` itself where it has none.
pub open spec fn without_numerical_suffix(s: Seq<char>) -> Seq<char> {
    if exists|i: int| is_numerical_suffix_at(s, i) {
        s.subrange(0, choose|i: int| is_numerical_suffix_at(s, i))
    } else {
        s
    }
}

/// A string has at most one instancing suffix.
pub proof fn lemma_numerical_suffix_unique(s: Seq<char>, i: int, j: int)
    requires
        is_numerical_suffix_at(s, i),
        is_numerical_suffix_at(s, j),
    ensures
        i == j,
{
    if i < j {
        assert(is_ascii_digit(s[j]));
    } else if j < i {
        assert(is_ascii_digit(s[i]));
    }
}

/// Where an instancing suffix starts at `i`, what is left is what stands in
/// front of `i`.
pub proof fn lemma_suffix_is_cut_at(s: Seq<char>, i: int)
    requires
        is_numerical_suffix_at(s, i),
    ensures
        without_numerical_suffix(s) == s.subrange(0, i),
{
    lemma_numerical_suffix_unique(s, i, choose|k: int| is_numerical_suffix_at(s, k));
}

/// The name that `statement` gives to a block of kind `kind` that holds it,
/// if it gives one.
pub open spec fn named_by(kind: Seq<char>, statement: StatementView) -> Option<Seq<char>> {
    match statement {
        StatementView::Assignment(identifier, value) => {
            if kind == "PART"@ && identifier == "part"@ {
                Some(without_numerical_suffix(value))
            } else if kind == "RESOURCE"@ && identifier == "name"@ {
                Some(value)
            } else if kind == "MODULE"@ && identifier == "name"@ {
                Some(value)
            } else {
                None
            }
        },
        StatementView::Node(_, _) => None,
    }
}

/// The name of a block of kind `kind` with the statements `children`: what the
/// first of them that gives a name gives.
pub open spec fn node_name(kind: Seq<char>, children: Seq<StatementView>) -> Option<Seq<char>>
    decreases children.len(),
{
    if children.len() == 0 {
        None
    } else if named_by(kind, children[0]) is Some {
        named_by(kind, children[0])
    } else {
        node_name(kind, children.drop_first())
    }
}

/// Whether `statement` is a block of kind `kind` named `name`.
pub open spec fn is_match(statement: StatementView, kind: Seq<char>, name: Seq<char>) -> bool {
    statement matches StatementView::Node(k, children) && k == kind && node_name(k, children)
        == Some(name)
}

/// A statement that is kept, with the matching blocks inside it cut out.
pub open spec fn stripped_statement(
    statement: StatementView,
    kind: Seq<char>,
    name: Seq<char>,
) -> StatementView
    decreases statement,
{
    match statement {
        StatementView::Assignment(_, _) => statement,
        StatementView::Node(k, children) => StatementView::Node(
            k,
            stripped_statements(children, kind, name),
        ),
    }
}

/// `statements` without the blocks of kind `kind` named `name`, at any depth.
pub open spec fn stripped_statements(
    statements: Seq<StatementView>,
    kind: Seq<char>,
    name: Seq<char>,
) -> Seq<StatementView>
    decreases statements,
{
    if statements.len() == 0 {
        Seq::empty()
    } else if is_match(statements[0], kind, name) {
        stripped_statements(statements.drop_first(), kind, name)
    } else {
        seq![stripped_statement(statements[0], kind, name)] + stripped_statements(
            statements.drop_first(),
            kind,
            name,
        )
    }
}

/// `s` without a trailing underscore and digits, so that the instanced copies
/// of a part all go by one name. Where no digit follows the last underscore,
/// `s` comes back as it is.
pub fn strip_numerical_suffix(s: &str) -> (stripped: String)
    ensures
        stripped@ == without_numerical_suffix(s@),
{
    let chars = chars_of(s);
    let mut i: usize = chars.len();
    while i > 0
        invariant
            i <= chars.len(),
            chars@ == s@,
            forall|j: int| i <= j < chars.len() ==> is_ascii_digit(#[trigger] chars@[j]),
        decreases i,
    {
        let c = chars[i - 1];
        if c == '_' && i < chars.len() {
            proof {
                let at = (i - 1) as int;
                assert(is_numerical_suffix_at(s@, at));
                lemma_suffix_is_cut_at(s@, at);
            }
            return string_of(&chars, 0, i - 1);
        }
        if !('0' <= c && c <= '9') {
            proof {
                let at = (i - 1) as int;
                assert forall|k: int| !is_numerical_suffix_at(s@, k) by {
                    if is_numerical_suffix_at(s@, k) {
                        if k < at {
                            assert(is_ascii_digit(s@[at]));
                        } else if k > at {
                            assert(is_ascii_digit(s@[k]));
                        }
                    }
                }
                assert(s@.subrange(0, s@.len() as int) =~= s@);
            }
            return string_of(&chars, 0, chars.len());
        }
        i -= 1;
    }
    proof {
        assert forall|k: int| !is_numerical_suffix_at(s@, k) by {
            if is_numerical_suffix_at(s@, k) {
                assert(is_ascii_digit(s@[k]));
            }
        }
        assert(s@.subrange(0, s@.len() as int) =~= s@);
    }
    string_of(&chars, 0, chars.len())
}

/// The name of a block of kind `node_id` that holds `statements`, if it has
/// one.
pub fn get_name_from_statements(node_id: &str, statements: &Vec<Statement>) -> (name: Option<
    String,
>)
    ensures
        name is Some <==> node_name(node_id@, statements_view(statements@)) is Some,
        name matches Some(n) ==> node_name(node_id@, statements_view(statements@)) == Some(n@),
{
    let ghost views = statements_view(statements@);
    let mut i: usize = 0;
    assert(views.skip(0) =~= views);
    while i < statements.len()
        invariant
            i <= statements.len(),
            views == statements_view(statements@),
            node_name(node_id@, views.skip(i as int)) == node_name(node_id@, views),
        decreases statements.len() - i,
    {
        proof {
            let rest = views.skip(i as int);
            assert(rest.drop_first() =~= views.skip(i + 1));
            assert(rest[0] == statements@[i as int]@);
        }
        if let Statement::Assignment(identifier, value) = &statements[i] {
            if str_eq(node_id, "PART") && str_eq(identifier.as_str(), "part") {
                return Some(strip_numerical_suffix(value.as_str()));
            }
            if str_eq(node_id, "RESOURCE") && str_eq(identifier.as_str(), "name") {
                return Some(value.clone());
            }
            if str_eq(node_id, "MODULE") && str_eq(identifier.as_str(), "name") {
                return Some(value.clone());
            }
        }
        i += 1;
    }
    None
}

/// `original_statements` without the blocks of kind `identifier` named `name`,
/// at any depth. What is kept stands in the order it had.
pub fn strip_statements(
    original_statements: &Vec<Statement>,
    identifier: &str,
    name: &str,
) -> (edited_statements: Vec<Statement>)
    ensures
        statements_view(edited_statements@) == stripped_statements(
            statements_view(original_statements@),
            identifier@,
            name@,
        ),
    decreases original_statements,
{
    let ghost views = statements_view(original_statements@);
    let mut edited_statements: Vec<Statement> = Vec::new();
    let mut i: usize = 0;
    assert(views.skip(0) =~= views);
    assert(statements_view(edited_statements@) =~= Seq::empty());
    while i < original_statements.len()
        invariant
            i <= original_statements.len(),
            views == statements_view(original_statements@),
            statements_view(edited_statements@) + stripped_statements(
                views.skip(i as int),
                identifier@,
                name@,
            ) == stripped_statements(views, identifier@, name@),
        decreases original_statements.len() - i,
    {
        let ghost kept = statements_view(edited_statements@);
        proof {
            let rest = views.skip(i as int);
            assert(rest.drop_first() =~= views.skip(i + 1));
            assert(rest[0] == original_statements@[i as int]@);
        }
        match &original_statements[i] {
            Statement::Assignment(key, value) => {
                edited_statements.push(Statement::Assignment(key.clone(), value.clone()));
                proof {
                    assert(statements_view(edited_statements@) =~= kept + seq![
                        original_statements@[i as int]@,
                    ]);
                }
            },
            Statement::Node(node_id, node_statements) => {
                let mut matches = false;
                if str_eq(node_id.as_str(), identifier) {
                    if let Some(node_name) = get_name_from_statements(
                        node_id.as_str(),
                        node_statements,
                    ) {
                        if str_eq(node_name.as_str(), name) {
                            matches = true;
                        }
                    }
                }
                if !matches {
                    let children = strip_statements(node_statements, identifier, name);
                    edited_statements.push(Statement::Node(node_id.clone(), children));
                    proof {
                        assert(statements_view(edited_statements@) =~= kept + seq![
                            stripped_statement(original_statements@[i as int]@, identifier@, name@),
                        ]);
                    }
                }
            },
        }
        i += 1;
    }
    edited_statements
}

/// `original` without the blocks of kind `identifier` named `name`, at any
/// depth.
pub fn strip_document(original: &Document, identifier: &str, name: &str) -> (edited: Document)
    ensures
        edited@ == stripped_statements(original@, identifier@, name@),
{
    let edited = strip_statements(&original.statements, identifier, name);
    Document { statements: edited }
}

} // verus!
