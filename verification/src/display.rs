//! What a review shows: the rows of the list of blocks, and the two sides of
//! the word diff of one block.

use similar::{ChangeTag, TextDiff};
use vstd::prelude::*;

use crate::review::{Review, ReviewView};
use crate::session::{Session, SessionView};
use crate::state::option_view;
use crate::text;
use crate::text::decimal_string;

verus! {

/// How a word takes part in a change.
#[derive(Debug, Clone, Copy, PartialEq, Eq, Structural)]
pub enum ChangeKind {
    /// The word is there before and after.
    Kept,
    /// The word is there only before.
    Removed,
    /// The word is there only after.
    Added,
}

/// A word, or the space between two words, and how it takes part in a change.
#[derive(Debug)]
pub struct Change {
    pub kind: ChangeKind,
    pub text: String,
}

/// A change as plain values.
pub struct ChangeView {
    pub kind: ChangeKind,
    pub text: Seq<char>,
}

impl View for Change {
    type V = ChangeView;

    open spec fn view(&self) -> ChangeView {
        ChangeView { kind: self.kind, text: self.text@ }
    }
}

/// The changes of a sequence as plain values.
pub open spec fn change_views(changes: Seq<Change>) -> Seq<ChangeView> {
    changes.map_values(|c: Change| c@)
}

/// The texts of all changes but those of one kind, one after the other.
pub open spec fn text_without(changes: Seq<ChangeView>, kind: ChangeKind) -> Seq<char>
    decreases changes.len(),
{
    if changes.len() == 0 {
        Seq::empty()
    } else {
        let init = text_without(changes.drop_last(), kind);
        if changes.last().kind == kind {
            init
        } else {
            init + changes.last().text
        }
    }
}

/// Whether every word is there before and after.
pub open spec fn all_kept(changes: Seq<ChangeView>) -> bool {
    forall|i: int| 0 <= i < changes.len() ==> (#[trigger] changes[i]).kind == ChangeKind::Kept
}

/// The changes that `TextDiff::from_words` of `similar` finds between two
/// texts.
pub uninterp spec fn word_diff(before: Seq<char>, after: Seq<char>) -> Seq<ChangeView>;

/// `TextDiff::from_words` and `TextDiff::iter_all_changes` of the `similar`
/// crate: the changes in order, each with its tag and its value. Which of the
/// possible diffs comes out depends on the two texts alone. What is not
/// inserted makes up the text before, and what is not deleted the text after.
/// Between a text and itself nothing is inserted or deleted.
#[verifier::external_body]
pub(crate) fn word_changes(before: &str, after: &str) -> (changes: Vec<Change>)
    ensures
        change_views(changes@) == word_diff(before@, after@),
        text_without(change_views(changes@), ChangeKind::Added) == before@,
        text_without(change_views(changes@), ChangeKind::Removed) == after@,
        before@ == after@ ==> all_kept(change_views(changes@)),
{
    TextDiff::from_words(before, after)
        .iter_all_changes()
        .map(|change| match change.tag() {
            ChangeTag::Equal => Change { kind: ChangeKind::Kept, text: change.value().to_owned() },
            ChangeTag::Delete => Change { kind: ChangeKind::Removed, text: change.value().to_owned() },
            ChangeTag::Insert => Change { kind: ChangeKind::Added, text: change.value().to_owned() },
        })
        .collect()
}

/// The text of a change as `similar` displays it: with a newline at its end,
/// unless a newline or a carriage return is there. The terminal shows no
/// newline inside a line.
pub open spec fn shown_text(value: Seq<char>) -> Seq<char> {
    if value.len() > 0 && (value.last() == '\n' || value.last() == '\r') {
        value
    } else {
        value.push('\n')
    }
}

/// The side of a diff that shows no change of one kind.
pub open spec fn side(changes: Seq<ChangeView>, hidden: ChangeKind) -> Seq<ChangeView>
    decreases changes.len(),
{
    if changes.len() == 0 {
        Seq::empty()
    } else {
        let init = side(changes.drop_last(), hidden);
        let last = changes.last();
        if last.kind == hidden {
            init
        } else {
            init.push(ChangeView { kind: last.kind, text: shown_text(last.text) })
        }
    }
}

/// Where every word is kept, both sides show the same, and nothing is marked.
proof fn lemma_sides_of_kept(changes: Seq<ChangeView>)
    requires
        all_kept(changes),
    ensures
        side(changes, ChangeKind::Added) == side(changes, ChangeKind::Removed),
        all_kept(side(changes, ChangeKind::Added)),
    decreases changes.len(),
{
    if changes.len() > 0 {
        let init = changes.drop_last();
        assert forall|i: int| 0 <= i < init.len() implies (#[trigger] init[i]).kind == ChangeKind::Kept by {
            assert(init[i] == changes[i]);
        }
        lemma_sides_of_kept(init);
        assert(changes.last() == changes[changes.len() - 1]);
    }
}

fn shown(value: &str) -> (text: String)
    ensures
        text@ == shown_text(value@),
{
    let mut text = String::new();
    let mut ended = false;
    for c in it: value.chars()
        invariant
            it.seq() == value@,
            text@ == value@.take(it.index()),
            ended == (it.index() > 0 && (value@[it.index() - 1] == '\n' || value@[it.index() - 1] == '\r')),
    {
        text.push(c);
        ended = c == '\n' || c == '\r';
    }
    assert(value@.take(value@.len() as int) =~= value@);
    if !ended {
        text.push('\n');
    }
    text
}

/// The two sides of a diff: the first shows what is removed, the second what
/// is added, and both what is kept.
pub fn split_changes(changes: &[Change]) -> (sides: (Vec<Change>, Vec<Change>))
    ensures
        change_views(sides.0@) == side(change_views(changes@), ChangeKind::Added),
        change_views(sides.1@) == side(change_views(changes@), ChangeKind::Removed),
{
    let mut before: Vec<Change> = Vec::new();
    let mut after: Vec<Change> = Vec::new();
    let ghost views = change_views(changes@);
    for i in 0..changes.len()
        invariant
            views == change_views(changes@),
            change_views(before@) == side(views.take(i as int), ChangeKind::Added),
            change_views(after@) == side(views.take(i as int), ChangeKind::Removed),
    {
        let change = &changes[i];
        let ghost old_before = before@;
        let ghost old_after = after@;
        proof {
            assert(views.take(i + 1).drop_last() =~= views.take(i as int));
            assert(views.take(i + 1).last() == change@);
        }
        if change.kind != ChangeKind::Added {
            let span = Change { kind: change.kind, text: shown(change.text.as_str()) };
            before.push(span);
            assert(change_views(before@) =~= change_views(old_before).push(span@));
        }
        if change.kind != ChangeKind::Removed {
            let span = Change { kind: change.kind, text: shown(change.text.as_str()) };
            after.push(span);
            assert(change_views(after@) =~= change_views(old_after).push(span@));
        }
    }
    assert(views.take(views.len() as int) =~= views);
    (before, after)
}

/// The word diff of a block.
#[derive(Debug)]
pub struct DiffPanes {
    pub before: Vec<Change>,
    pub after: Vec<Change>,
    pub after_title: &'static str,
}

/// The title over the text after the script.
pub open spec fn after_title(printed: bool) -> Seq<char> {
    if printed {
        "pattern space: after (printed)"@
    } else {
        "pattern space: after (deleted — no output for this line)"@
    }
}

/// The word diff between two texts. What is not added makes up the text
/// before, and what is not removed the text after. Of a text and itself both
/// sides show the same words, all of them kept.
pub fn diff_panes(before: &str, after: &str, printed: bool) -> (panes: DiffPanes)
    ensures
        change_views(panes.before@) == side(word_diff(before@, after@), ChangeKind::Added),
        change_views(panes.after@) == side(word_diff(before@, after@), ChangeKind::Removed),
        panes.after_title@ == after_title(printed),
        text_without(word_diff(before@, after@), ChangeKind::Added) == before@,
        text_without(word_diff(before@, after@), ChangeKind::Removed) == after@,
        before@ == after@ ==> {
            &&& all_kept(word_diff(before@, after@))
            &&& all_kept(change_views(panes.before@))
            &&& change_views(panes.before@) == change_views(panes.after@)
        },
{
    let changes = word_changes(before, after);
    proof {
        if before@ == after@ {
            lemma_sides_of_kept(word_diff(before@, after@));
        }
    }
    let (before_side, after_side) = split_changes(changes.as_slice());
    let title = if printed {
        "pattern space: after (printed)"
    } else {
        "pattern space: after (deleted — no output for this line)"
    };
    DiffPanes { before: before_side, after: after_side, after_title: title }
}

/// The word diff of a block of a session.
pub fn block_panes(session: &Session, idx: usize) -> (panes: DiffPanes)
    requires
        session.wf(),
        idx < session@.blocks.len(),
    ensures
        ({
            let record = session@.record(idx as int);
            let diff = word_diff(record.input, record.pattern_after);
            &&& change_views(panes.before@) == side(diff, ChangeKind::Added)
            &&& change_views(panes.after@) == side(diff, ChangeKind::Removed)
            &&& panes.after_title@ == after_title(record.printed)
            &&& text_without(diff, ChangeKind::Added) == record.input
            &&& text_without(diff, ChangeKind::Removed) == record.pattern_after
            &&& record.input == record.pattern_after ==> all_kept(diff) && all_kept(change_views(panes.before@))
                && change_views(panes.before@) == change_views(panes.after@)
        }),
{
    let record = session.record(idx);
    diff_panes(record.input.as_str(), record.pattern_after.as_str(), record.printed)
}

/// The hold space to show with a block, for a script that uses it.
pub fn hold_pane(session: &Session, idx: usize) -> (hold: Option<String>)
    requires
        session.wf(),
        idx < session@.blocks.len(),
    ensures
        option_view(hold) == session@.blocks[idx as int].hold_after,
        hold is Some <==> session@.hold_active,
{
    session.record(idx).hold_after
}

/// The rows that fit in a list of a height that counts its two borders: at
/// least one.
pub fn visible_rows(height: u16) -> (rows: usize)
    ensures
        rows == if height > 3 { height - 2 } else { 1 },
{
    if height > 3 {
        height as usize - 2
    } else {
        1
    }
}

/// The first of `total` rows to show, where `visible` fit: the one that puts
/// the cursor in the middle, as far as there are rows enough before and
/// behind it.
pub open spec fn window_top(total: int, visible: int, cursor: int) -> int {
    let centered = if cursor > visible / 2 { cursor - visible / 2 } else { 0 };
    if total <= visible {
        0
    } else if centered <= total - visible {
        centered
    } else {
        total - visible
    }
}

/// The end of the rows to show.
pub open spec fn window_end(total: int, visible: int, cursor: int) -> int {
    if total <= visible {
        total
    } else {
        window_top(total, visible, cursor) + visible
    }
}

/// The rows to show: the first one, and the one behind the last.
pub fn list_window(total: usize, visible: usize, cursor: usize) -> (window: (usize, usize))
    ensures
        window.0 == window_top(total as int, visible as int, cursor as int),
        window.1 == window_end(total as int, visible as int, cursor as int),
{
    if total <= visible {
        return (0, total);
    }
    let half: usize = visible / 2;
    let centered: usize = if cursor > half { cursor - half } else { 0 };
    let top: usize = if centered <= total - visible { centered } else { total - visible };
    (top, top + visible)
}

/// A cursor on one of the rows is always among those shown, and as many rows
/// are shown as there are and fit.
pub proof fn law_cursor_in_window(total: int, visible: int, cursor: int)
    requires
        0 <= cursor < total,
        visible >= 1,
    ensures
        0 <= window_top(total, visible, cursor) <= cursor < window_end(total, visible, cursor) <= total,
        window_end(total, visible, cursor) - window_top(total, visible, cursor) == if total <= visible {
            total
        } else {
            visible
        },
{
}

/// How a row of the list is shown.
#[derive(Debug, Clone, Copy, PartialEq, Eq, Structural)]
pub enum RowStyle {
    Current,
    Accepted,
    Rejected,
    Undecided,
}

/// A row of the list.
#[derive(Debug)]
pub struct Row {
    pub text: String,
    pub style: RowStyle,
}

/// The mark of a decision.
pub open spec fn marker(decision: Option<bool>) -> char {
    match decision {
        Some(true) => 'y',
        Some(false) => 'n',
        None => ' ',
    }
}

/// The lines of a block, counted from 1: one number, or the first and the
/// last one.
pub open spec fn line_numbers(first: int, last: int) -> Seq<char> {
    if first == last {
        text::decimal(first as nat)
    } else {
        text::decimal(first as nat) + seq!['-'] + text::decimal(last as nat)
    }
}

/// A text with spaces before it that bring it to four characters.
pub open spec fn padded(s: Seq<char>) -> Seq<char> {
    if s.len() < 4 {
        Seq::new((4 - s.len()) as nat, |i: int| ' ') + s
    } else {
        s
    }
}

/// The text of a row: the mark, the line numbers, and the input of the block.
pub open spec fn row_text(v: SessionView, decision: Option<bool>, i: int) -> Seq<char> {
    seq![marker(decision), ' '] + padded(line_numbers(v.blocks[i].start + 1, v.blocks[i].end + 1)) + "  "@
        + v.input(i)
}

pub open spec fn row_style(decision: Option<bool>, current: bool) -> RowStyle {
    if current {
        RowStyle::Current
    } else {
        match decision {
            Some(true) => RowStyle::Accepted,
            Some(false) => RowStyle::Rejected,
            None => RowStyle::Undecided,
        }
    }
}

/// Whether a row shows a block.
pub open spec fn shows(row: Row, v: SessionView, review: ReviewView, i: int) -> bool {
    &&& row.text@ == row_text(v, review.decisions[i], i)
    &&& row.style == row_style(review.decisions[i], i == review.cursor)
}

fn number_label(first: usize, last: usize) -> (label: String)
    ensures
        label@ == padded(line_numbers(first as int, last as int)),
{
    let mut numbers = decimal_string(first);
    if first != last {
        numbers.push('-');
        numbers.append(decimal_string(last).as_str());
    }
    assert(numbers@ =~= line_numbers(first as int, last as int));
    let width: usize = numbers.as_str().unicode_len();
    let mut label = String::new();
    let mut spaces: usize = 0;
    while width + spaces < 4
        invariant
            spaces == 0 || width + spaces <= 4,
            label@ =~= Seq::new(spaces as nat, |i: int| ' '),
        decreases 4 - width - spaces,
    {
        label.push(' ');
        spaces = spaces + 1;
    }
    label.append(numbers.as_str());
    assert(label@ =~= padded(numbers@));
    label
}

/// The row of a block.
pub fn block_row(session: &Session, review: &Review, idx: usize) -> (row: Row)
    requires
        session.wf(),
        review@.fits(session@),
        idx < session@.blocks.len(),
    ensures
        shows(row, session@, review@, idx as int),
{
    let decision = review.decisions()[idx];
    let (first, last) = session.line_range(idx);
    let mut text = String::new();
    text.push(match decision {
        Some(true) => 'y',
        Some(false) => 'n',
        None => ' ',
    });
    text.push(' ');
    assert(text@ =~= seq![marker(decision), ' ']);
    text.append(number_label(first, last).as_str());
    text.append("  ");
    text.append(session.raw_input(idx).as_str());
    let style = if idx == review.cursor() {
        RowStyle::Current
    } else {
        match decision {
            Some(true) => RowStyle::Accepted,
            Some(false) => RowStyle::Rejected,
            None => RowStyle::Undecided,
        }
    };
    Row { text, style }
}

/// The rows of the list of blocks, in a list of a height that counts its two
/// borders.
pub fn list_rows(session: &Session, review: &Review, height: u16) -> (rows: Vec<Row>)
    requires
        session.wf(),
        review@.fits(session@),
    ensures
        ({
            let total = session@.blocks.len() as int;
            let visible = if height > 3 { height - 2 } else { 1 };
            let top = window_top(total, visible, review@.cursor);
            &&& rows@.len() == window_end(total, visible, review@.cursor) - top
            &&& forall|i: int|
                0 <= i < rows@.len() ==> shows(#[trigger] rows@[i], session@, review@, top + i)
        }),
{
    let visible: usize = visible_rows(height);
    let (top, end) = list_window(session.known_blocks(), visible, review.cursor());
    proof {
        law_cursor_in_window(session@.blocks.len() as int, visible as int, review@.cursor);
    }
    let mut rows: Vec<Row> = Vec::new();
    for i in top..end
        invariant
            session.wf(),
            review@.fits(session@),
            0 <= top <= end <= session@.blocks.len(),
            rows@.len() == i - top,
            forall|k: int| 0 <= k < rows@.len() ==> shows(#[trigger] rows@[k], session@, review@, top + k),
    {
        rows.push(block_row(session, review, i));
    }
    rows
}

} // verus!
