//! What is asked to be done to a file.

use crate::document::StatementView;
use crate::strip::stripped_statements;
use vstd::prelude::*;

verus! {

/// One request.
#[derive(Debug, PartialEq, Eq)]
pub enum Action {
    /// Cut out the blocks of a kind (first) that go by a name (second).
    Remove(String, String),
    /// Change nothing: the file is read and written back in clean form.
    Clean,
}

/// The mathematical value of an [`Action`].
pub enum ActionView {
    Remove(Seq<char>, Seq<char>),
    Clean,
}

impl View for Action {
    type V = ActionView;

    open spec fn view(&self) -> ActionView {
        match self {
            Action::Remove(kind, name) => ActionView::Remove(kind@, name@),
            Action::Clean => ActionView::Clean,
        }
    }
}

impl Clone for Action {
    fn clone(&self) -> (copy: Self)
        ensures
            copy@ == self@,
    {
        match self {
            Action::Remove(kind, name) => Action::Remove(kind.clone(), name.clone()),
            Action::Clean => Action::Clean,
        }
    }
}

/// The statements of a document after `action` was done to it.
pub open spec fn edited_statements(
    statements: Seq<StatementView>,
    action: ActionView,
) -> Seq<StatementView> {
    match action {
        ActionView::Remove(kind, name) => stripped_statements(statements, kind, name),
        ActionView::Clean => statements,
    }
}

} // verus!
