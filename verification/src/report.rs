//! The report of what an edit changed, line by line.

use vstd::prelude::*;
use vstd::string::StringExecFns;

verus! {

/// One step of the comparison of two texts line by line.
#[derive(Debug, PartialEq, Eq)]
pub enum LineChange {
    /// A line that only the first text holds.
    Left(String),
    /// A line that both texts hold.
    Both(String, String),
    /// A line that only the second text holds.
    Right(String),
}

/// The mathematical value of a [`LineChange`].
pub enum LineChangeView {
    Left(Seq<char>),
    Both(Seq<char>, Seq<char>),
    Right(Seq<char>),
}

impl View for LineChange {
    type V = LineChangeView;

    open spec fn view(&self) -> LineChangeView {
        match self {
            LineChange::Left(line) => LineChangeView::Left(line@),
            LineChange::Both(left, right) => LineChangeView::Both(left@, right@),
            LineChange::Right(line) => LineChangeView::Right(line@),
        }
    }
}

/// The values of a sequence of steps, one for one.
pub open spec fn line_changes_view(changes: Seq<LineChange>) -> Seq<LineChangeView> {
    Seq::new(changes.len(), |i: int| changes[i]@)
}

/// The views of a sequence of strings, one for one.
pub open spec fn lines_view(lines: Seq<String>) -> Seq<Seq<char>> {
    Seq::new(lines.len(), |i: int| lines[i]@)
}

/// The comparison of `left` and `right` line by line, as `diff::lines`
/// computes it.
pub uninterp spec fn line_diff(left: Seq<char>, right: Seq<char>) -> Seq<LineChangeView>;

/// Compares two texts line by line.
///
/// Trusted: wraps `diff::lines`, a function of its two arguments alone, and
/// copies each step of its result into a [`LineChange`] of the same variant.
#[verifier::external_body]
pub(crate) fn diff_lines(left: &str, right: &str) -> (changes: Vec<LineChange>)
    ensures
        line_changes_view(changes@) == line_diff(left@, right@),
{
    let mut changes = Vec::new();
    for step in diff::lines(left, right) {
        changes.push(
            match step {
                diff::Result::Left(l) => LineChange::Left(l.to_string()),
                diff::Result::Both(l, r) => LineChange::Both(l.to_string(), r.to_string()),
                diff::Result::Right(r) => LineChange::Right(r.to_string()),
            },
        );
    }
    changes
}

/// The lines of the report on `changes`: a line that was taken away behind
/// `  - `, a line that was added behind `  + `, nothing for a line that
/// stayed; in the order of the steps.
pub open spec fn reported_lines(changes: Seq<LineChangeView>) -> Seq<Seq<char>>
    decreases changes.len(),
{
    if changes.len() == 0 {
        Seq::empty()
    } else {
        let rest = reported_lines(changes.drop_first());
        match changes[0] {
            LineChangeView::Left(line) => seq![seq![' ', ' ', '-', ' '] + line] + rest,
            LineChangeView::Both(_, _) => rest,
            LineChangeView::Right(line) => seq![seq![' ', ' ', '+', ' '] + line] + rest,
        }
    }
}

/// The lines of the report on `changes`.
pub fn report_lines(changes: &Vec<LineChange>) -> (lines: Vec<String>)
    ensures
        lines_view(lines@) == reported_lines(line_changes_view(changes@)),
{
    let ghost views = line_changes_view(changes@);
    let mut lines: Vec<String> = Vec::new();
    let mut i: usize = 0;
    assert(views.skip(0) =~= views);
    assert(lines_view(lines@) + reported_lines(views) =~= reported_lines(views));
    while i < changes.len()
        invariant
            i <= changes.len(),
            views == line_changes_view(changes@),
            lines_view(lines@) + reported_lines(views.skip(i as int)) == reported_lines(views),
        decreases changes.len() - i,
    {
        let ghost done = lines_view(lines@);
        proof {
            let rest = views.skip(i as int);
            assert(rest.drop_first() =~= views.skip(i + 1));
            assert(rest[0] == changes@[i as int]@);
            reveal_strlit("  - ");
            reveal_strlit("  + ");
            assert("  - "@ =~= seq![' ', ' ', '-', ' ']);
            assert("  + "@ =~= seq![' ', ' ', '+', ' ']);
        }
        match &changes[i] {
            LineChange::Left(line) => {
                let mut text = String::from_str("  - ");
                text.append(line.as_str());
                lines.push(text);
                proof {
                    assert(lines_view(lines@) =~= done + seq![seq![' ', ' ', '-', ' '] + line@]);
                    assert((done + seq![seq![' ', ' ', '-', ' '] + line@]) + reported_lines(
                        views.skip(i + 1),
                    ) =~= done + (seq![seq![' ', ' ', '-', ' '] + line@] + reported_lines(
                        views.skip(i + 1),
                    )));
                }
            },
            LineChange::Both(_, _) => {},
            LineChange::Right(line) => {
                let mut text = String::from_str("  + ");
                text.append(line.as_str());
                lines.push(text);
                proof {
                    assert(lines_view(lines@) =~= done + seq![seq![' ', ' ', '+', ' '] + line@]);
                    assert((done + seq![seq![' ', ' ', '+', ' '] + line@]) + reported_lines(
                        views.skip(i + 1),
                    ) =~= done + (seq![seq![' ', ' ', '+', ' '] + line@] + reported_lines(
                        views.skip(i + 1),
                    )));
                }
            },
        }
        i += 1;
    }
    assert(lines_view(lines@) + reported_lines(views.skip(i as int)) =~= lines_view(lines@));
    lines
}

/// The report of what changed from `before` to `after`: the lines of
/// [`reported_lines`] for the comparison of the two texts.
pub fn change_report(before: &str, after: &str) -> (lines: Vec<String>)
    ensures
        lines_view(lines@) == reported_lines(line_diff(before@, after@)),
{
    let changes = diff_lines(before, after);
    report_lines(&changes)
}

} // verus!
