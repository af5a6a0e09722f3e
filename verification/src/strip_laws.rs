//! What holds of cutting blocks out of a document.

use crate::document::StatementView;
use crate::grammar::{are_well_formed, is_well_formed};
use crate::strip::{
    is_match, is_numerical_suffix_at, lemma_suffix_is_cut_at, named_by, node_name,
    stripped_statement, stripped_statements, without_numerical_suffix,
};
use vstd::prelude::*;

verus! {

/// Whether `statement` is, or holds at any depth, a block of kind `kind` named
/// `name`.
pub open spec fn has_match(statement: StatementView, kind: Seq<char>, name: Seq<char>) -> bool
    decreases statement,
{
    is_match(statement, kind, name) || (statement matches StatementView::Node(_, children)
        && any_match(children, kind, name))
}

/// Whether one of `statements` is, or holds at any depth, a block of kind
/// `kind` named `name`.
pub open spec fn any_match(statements: Seq<StatementView>, kind: Seq<char>, name: Seq<char>) -> bool
    decreases statements,
{
    statements.len() > 0 && (has_match(statements[0], kind, name) || any_match(
        statements.drop_first(),
        kind,
        name,
    ))
}

/// Whether `children[i]` is the first of `children` that gives a name to a
/// block of kind `kind`.
pub open spec fn names_first_at(kind: Seq<char>, children: Seq<StatementView>, i: int) -> bool {
    &&& 0 <= i < children.len()
    &&& named_by(kind, children[i]) is Some
    &&& forall|j: int| 0 <= j < i ==> named_by(kind, #[trigger] children[j]) is None
}

/// The name of a block is what the first of its own statements that gives a
/// name gives; a block has no name where none of them gives one.
pub proof fn law_node_name_is_first_given(kind: Seq<char>, children: Seq<StatementView>)
    ensures
        forall|i: int|
            names_first_at(kind, children, i) ==> node_name(kind, children) == named_by(
                kind,
                children[i],
            ),
        (forall|i: int| !names_first_at(kind, children, i)) ==> node_name(kind, children) is None,
        node_name(kind, children) is Some ==> exists|i: int| names_first_at(kind, children, i),
    decreases children.len(),
{
    if children.len() > 0 {
        let rest = children.drop_first();
        law_node_name_is_first_given(kind, rest);
        if named_by(kind, children[0]) is Some {
            assert(names_first_at(kind, children, 0));
            assert forall|i: int| names_first_at(kind, children, i) implies i == 0 by {
                if i > 0 {
                    assert(named_by(kind, children[0]) is None);
                }
            }
        } else {
            assert forall|i: int| names_first_at(kind, children, i) implies names_first_at(
                kind,
                rest,
                i - 1,
            ) && rest[i - 1] == children[i] by {
                assert(i > 0);
                assert forall|j: int| 0 <= j < i - 1 implies named_by(
                    kind,
                    #[trigger] rest[j],
                ) is None by {
                    assert(rest[j] == children[j + 1]);
                }
            }
            assert forall|i: int| names_first_at(kind, rest, i) implies names_first_at(
                kind,
                children,
                i + 1,
            ) by {
                assert(rest[i] == children[i + 1]);
                assert forall|j: int| 0 <= j < i + 1 implies named_by(
                    kind,
                    #[trigger] children[j],
                ) is None by {
                    if j > 0 {
                        assert(children[j] == rest[j - 1]);
                    }
                }
            }
        }
    }
}

/// Cutting blocks out of the statements of a block changes no name that the
/// block may go by, whatever its kind: names come from assignments, and
/// these stay, in their order.
pub proof fn lemma_strip_keeps_name(
    of_kind: Seq<char>,
    children: Seq<StatementView>,
    kind: Seq<char>,
    name: Seq<char>,
)
    ensures
        node_name(of_kind, stripped_statements(children, kind, name)) == node_name(
            of_kind,
            children,
        ),
    decreases children.len(),
{
    if children.len() > 0 {
        let rest = children.drop_first();
        lemma_strip_keeps_name(of_kind, rest, kind, name);
        if !is_match(children[0], kind, name) {
            let kept = seq![stripped_statement(children[0], kind, name)] + stripped_statements(
                rest,
                kind,
                name,
            );
            assert(kept.drop_first() =~= stripped_statements(rest, kind, name));
            assert(named_by(of_kind, kept[0]) == named_by(of_kind, children[0]));
        }
    }
}

/// Statements are handled one by one: what is cut out of two rows of
/// statements is what is cut out of each.
pub proof fn law_strip_concat(
    a: Seq<StatementView>,
    b: Seq<StatementView>,
    kind: Seq<char>,
    name: Seq<char>,
)
    ensures
        stripped_statements(a + b, kind, name) == stripped_statements(a, kind, name)
            + stripped_statements(b, kind, name),
    decreases a.len(),
{
    if a.len() == 0 {
        assert(a + b =~= b);
        assert(stripped_statements(a, kind, name) + stripped_statements(b, kind, name)
            =~= stripped_statements(b, kind, name));
    } else {
        law_strip_concat(a.drop_first(), b, kind, name);
        assert((a + b).drop_first() =~= a.drop_first() + b);
        assert(stripped_statements(a + b, kind, name) =~= stripped_statements(a, kind, name)
            + stripped_statements(b, kind, name));
    }
}

/// After the cut no block of kind `kind` named `name` is left, at any depth.
pub proof fn law_strip_removes_every_match(
    statements: Seq<StatementView>,
    kind: Seq<char>,
    name: Seq<char>,
)
    ensures
        !any_match(stripped_statements(statements, kind, name), kind, name),
    decreases statements,
{
    if statements.len() > 0 {
        let first = statements[0];
        let rest = statements.drop_first();
        law_strip_removes_every_match(rest, kind, name);
        if !is_match(first, kind, name) {
            let kept = seq![stripped_statement(first, kind, name)] + stripped_statements(
                rest,
                kind,
                name,
            );
            assert(kept.drop_first() =~= stripped_statements(rest, kind, name));
            match first {
                StatementView::Assignment(_, _) => {},
                StatementView::Node(k, children) => {
                    law_strip_removes_every_match(children, kind, name);
                    lemma_strip_keeps_name(k, children, kind, name);
                },
            }
            assert(!has_match(kept[0], kind, name));
        }
    }
}

/// Where no block of kind `kind` named `name` stands at any depth, the cut
/// changes nothing.
pub proof fn law_strip_without_match_changes_nothing(
    statements: Seq<StatementView>,
    kind: Seq<char>,
    name: Seq<char>,
)
    requires
        !any_match(statements, kind, name),
    ensures
        stripped_statements(statements, kind, name) == statements,
    decreases statements,
{
    if statements.len() > 0 {
        let first = statements[0];
        let rest = statements.drop_first();
        assert(!has_match(first, kind, name));
        assert(!is_match(first, kind, name));
        law_strip_without_match_changes_nothing(rest, kind, name);
        match first {
            StatementView::Assignment(_, _) => {},
            StatementView::Node(k, children) => {
                assert(!any_match(children, kind, name));
                law_strip_without_match_changes_nothing(children, kind, name);
            },
        }
        assert(stripped_statement(first, kind, name) == first);
        assert(seq![first] + rest =~= statements);
    }
}

/// A block that is kept is handled like a document of its own: what is cut
/// out of it does not depend on how deep it stands.
pub proof fn law_strip_goes_into_kept_blocks(
    block_kind: Seq<char>,
    children: Seq<StatementView>,
    kind: Seq<char>,
    name: Seq<char>,
)
    requires
        !is_match(StatementView::Node(block_kind, children), kind, name),
    ensures
        stripped_statements(seq![StatementView::Node(block_kind, children)], kind, name) == seq![
            StatementView::Node(block_kind, stripped_statements(children, kind, name)),
        ],
{
    let row = seq![StatementView::Node(block_kind, children)];
    assert(row.drop_first() =~= Seq::<StatementView>::empty());
    assert(stripped_statements(row.drop_first(), kind, name) =~= Seq::<StatementView>::empty());
    assert(seq![stripped_statement(row[0], kind, name)] + Seq::<StatementView>::empty() =~= seq![
        StatementView::Node(block_kind, stripped_statements(children, kind, name)),
    ]);
}

/// A matching block goes with all it holds, and the statements beside it in
/// which nothing matches stay as they are, in their order.
pub proof fn law_strip_leaves_siblings(
    before: Seq<StatementView>,
    target: StatementView,
    after: Seq<StatementView>,
    kind: Seq<char>,
    name: Seq<char>,
)
    requires
        is_match(target, kind, name),
        !any_match(before, kind, name),
        !any_match(after, kind, name),
    ensures
        stripped_statements(before + seq![target] + after, kind, name) == before + after,
{
    law_strip_concat(before + seq![target], after, kind, name);
    law_strip_concat(before, seq![target], kind, name);
    law_strip_without_match_changes_nothing(before, kind, name);
    law_strip_without_match_changes_nothing(after, kind, name);
    let row = seq![target];
    assert(row[0] == target);
    assert(row.drop_first() =~= Seq::<StatementView>::empty());
    assert(stripped_statements(row.drop_first(), kind, name) =~= Seq::<StatementView>::empty());
    assert(stripped_statements(row, kind, name) =~= Seq::<StatementView>::empty());
    assert(before + Seq::<StatementView>::empty() =~= before);
}

/// A part whose value carries an instancing suffix goes when the value
/// without the suffix is asked for, and stays when the value itself is asked
/// for: the suffix is cut off the value in the document, never off the name
/// that is asked for.
pub proof fn law_part_goes_by_its_bare_name(
    children: Seq<StatementView>,
    at: int,
    value: Seq<char>,
)
    requires
        names_first_at("PART"@, children, at),
        children[at] == StatementView::Assignment("part"@, value),
        exists|i: int| is_numerical_suffix_at(value, i),
    ensures
        stripped_statements(
            seq![StatementView::Node("PART"@, children)],
            "PART"@,
            without_numerical_suffix(value),
        ) == Seq::<StatementView>::empty(),
        stripped_statements(seq![StatementView::Node("PART"@, children)], "PART"@, value) == seq![
            StatementView::Node("PART"@, stripped_statements(children, "PART"@, value)),
        ],
{
    let part = StatementView::Node("PART"@, children);
    let bare = without_numerical_suffix(value);
    law_node_name_is_first_given("PART"@, children);
    assert(node_name("PART"@, children) == Some(bare));
    let i = choose|i: int| is_numerical_suffix_at(value, i);
    lemma_suffix_is_cut_at(value, i);
    assert(bare.len() != value.len());
    assert(is_match(part, "PART"@, bare));
    assert(!is_match(part, "PART"@, value));
    law_strip_goes_into_kept_blocks("PART"@, children, "PART"@, value);
    let row = seq![part];
    assert(row[0] == part);
    assert(row.drop_first() =~= Seq::<StatementView>::empty());
    assert(stripped_statements(row.drop_first(), "PART"@, bare) =~= Seq::<StatementView>::empty());
}

/// Cutting twice is cutting once.
pub proof fn law_strip_idempotent(statements: Seq<StatementView>, kind: Seq<char>, name: Seq<char>)
    ensures
        stripped_statements(stripped_statements(statements, kind, name), kind, name)
            == stripped_statements(statements, kind, name),
{
    law_strip_removes_every_match(statements, kind, name);
    law_strip_without_match_changes_nothing(
        stripped_statements(statements, kind, name),
        kind,
        name,
    );
}

/// What is left of well-formed statements is well formed.
pub proof fn law_strip_keeps_well_formed(
    statements: Seq<StatementView>,
    kind: Seq<char>,
    name: Seq<char>,
)
    requires
        are_well_formed(statements),
    ensures
        are_well_formed(stripped_statements(statements, kind, name)),
    decreases statements,
{
    if statements.len() > 0 {
        let first = statements[0];
        let rest = statements.drop_first();
        assert forall|i: int| 0 <= i < rest.len() implies is_well_formed(#[trigger] rest[i]) by {
            assert(rest[i] == statements[i + 1]);
        }
        law_strip_keeps_well_formed(rest, kind, name);
        if !is_match(first, kind, name) {
            match first {
                StatementView::Assignment(_, _) => {},
                StatementView::Node(k, children) => {
                    assert(are_well_formed(children));
                    law_strip_keeps_well_formed(children, kind, name);
                },
            }
            let head = stripped_statement(first, kind, name);
            let tail = stripped_statements(rest, kind, name);
            assert(is_well_formed(head));
            assert forall|i: int| 0 <= i < (seq![head] + tail).len() implies is_well_formed(
                #[trigger] (seq![head] + tail)[i],
            ) by {
                if i > 0 {
                    assert((seq![head] + tail)[i] == tail[i - 1]);
                }
            }
        }
    }
}

} // verus!
