//! What is shown of a review.

use vstd::prelude::*;

use crate::display::{
    after_title, all_kept, change_views, shown_text, shows, side, text_without, window_end, window_top, Change,
    ChangeKind, ChangeView, Row, RowStyle,
};
use crate::review::ReviewView;
use crate::session::SessionView;
use crate::text::decimal;

verus! {

/// Changes are seen one by one, in order, with all they hold.
pub proof fn law_views_of_changes(changes: Seq<Change>)
    ensures
        change_views(changes).len() == changes.len(),
        forall|i: int|
            #![trigger change_views(changes)[i]]
            0 <= i < changes.len() ==> change_views(changes)[i].kind == changes[i].kind
                && change_views(changes)[i].text == changes[i].text@,
        all_kept(change_views(changes)) <==> forall|i: int|
            0 <= i < changes.len() ==> (#[trigger] changes[i]).kind == ChangeKind::Kept,
{
    let views = change_views(changes);
    if all_kept(views) {
        assert forall|i: int| 0 <= i < changes.len() implies (#[trigger] changes[i]).kind == ChangeKind::Kept by {
            assert(views[i].kind == changes[i].kind);
        }
    }
    if forall|i: int| 0 <= i < changes.len() ==> (#[trigger] changes[i]).kind == ChangeKind::Kept {
        assert forall|i: int| 0 <= i < views.len() implies (#[trigger] views[i]).kind == ChangeKind::Kept by {
            assert(changes[i].kind == ChangeKind::Kept);
        }
    }
}

/// The changes that a side shows: all but those of one kind.
pub open spec fn not_of(changes: Seq<ChangeView>, hidden: ChangeKind) -> Seq<ChangeView> {
    changes.filter(|c: ChangeView| c.kind != hidden)
}

/// A side of a diff shows every change but those of the hidden kind, in order:
/// each with its own kind, so that what is removed is marked as removed, what
/// is added as added, and what is kept as kept; and each with its own text,
/// ended by one newline more where neither a newline nor a carriage return
/// ends it.
pub proof fn law_what_a_side_shows(changes: Seq<ChangeView>, hidden: ChangeKind)
    ensures
        side(changes, hidden).len() == not_of(changes, hidden).len(),
        forall|i: int|
            #![trigger side(changes, hidden)[i]]
            0 <= i < side(changes, hidden).len() ==> {
                let text = not_of(changes, hidden)[i].text;
                let ended = text.len() > 0 && (text[text.len() - 1] == '\n' || text[text.len() - 1] == '\r');
                &&& side(changes, hidden)[i].kind == not_of(changes, hidden)[i].kind
                &&& side(changes, hidden)[i].kind != hidden
                &&& side(changes, hidden)[i].text == if ended { text } else { text + seq!['\n'] }
            },
    decreases changes.len(),
{
    reveal(Seq::filter);
    let keep = |c: ChangeView| c.kind != hidden;
    if changes.len() > 0 {
        let init = changes.drop_last();
        let last = changes.last();
        law_what_a_side_shows(init, hidden);
        assert(not_of(changes, hidden) == if keep(last) {
            not_of(init, hidden).push(last)
        } else {
            not_of(init, hidden)
        });
        assert(last.text.push('\n') =~= last.text + seq!['\n']);
        assert forall|i: int|
            #![trigger side(changes, hidden)[i]]
            0 <= i < side(changes, hidden).len() implies {
            let text = not_of(changes, hidden)[i].text;
            let ended = text.len() > 0 && (text[text.len() - 1] == '\n' || text[text.len() - 1] == '\r');
            &&& side(changes, hidden)[i].kind == not_of(changes, hidden)[i].kind
            &&& side(changes, hidden)[i].kind != hidden
            &&& side(changes, hidden)[i].text == if ended { text } else { text + seq!['\n'] }
        } by {
            if i < side(init, hidden).len() {
                assert(side(changes, hidden)[i] == side(init, hidden)[i]);
                assert(not_of(changes, hidden)[i] == not_of(init, hidden)[i]);
            } else {
                assert(side(changes, hidden)[i].text == shown_text(last.text));
            }
        }
    }
}

/// Both sides of a diff show the kept changes, the side before shows the
/// removed ones, and the side after the added ones: a change of the diff is on
/// a side under its own kind, or hidden there.
pub proof fn law_every_change_is_shown(changes: Seq<ChangeView>, change: ChangeView)
    ensures
        side(changes.push(change), ChangeKind::Added).len() == side(changes, ChangeKind::Added).len()
            + if change.kind == ChangeKind::Added { 0int } else { 1 },
        side(changes.push(change), ChangeKind::Removed).len() == side(changes, ChangeKind::Removed).len()
            + if change.kind == ChangeKind::Removed { 0int } else { 1 },
        change.kind != ChangeKind::Added ==> side(changes.push(change), ChangeKind::Added).last().kind
            == change.kind,
        change.kind != ChangeKind::Removed ==> side(changes.push(change), ChangeKind::Removed).last().kind
            == change.kind,
{
    assert(changes.push(change).drop_last() =~= changes);
}

/// The text of all changes but those of one kind is put together change by
/// change.
pub proof fn law_text_change_by_change(changes: Seq<ChangeView>, change: ChangeView, kind: ChangeKind)
    ensures
        text_without(Seq::empty(), kind) == Seq::<char>::empty(),
        text_without(changes.push(change), kind) == text_without(changes, kind) + if change.kind == kind {
            Seq::empty()
        } else {
            change.text
        },
{
    assert(changes.push(change).drop_last() =~= changes);
    assert(text_without(changes, kind) + Seq::empty() =~= text_without(changes, kind));
}

/// The title over the text after the script says whether it is printed.
pub proof fn law_titles()
    ensures
        after_title(true) == "pattern space: after (printed)"@,
        after_title(false) == "pattern space: after (deleted — no output for this line)"@,
{
}

/// The cursor is in the middle of the rows shown, with half of them before it,
/// wherever there are rows enough; near the start the first row is shown, and
/// near the end the last one.
pub proof fn law_cursor_in_the_middle(total: int, visible: int, cursor: int)
    requires
        0 <= cursor < total,
        1 <= visible < total,
    ensures
        ({
            let top = window_top(total, visible, cursor);
            let end = window_end(total, visible, cursor);
            &&& end == top + visible
            &&& cursor < visible / 2 ==> top == 0
            &&& cursor - visible / 2 > total - visible ==> end == total
            &&& 0 <= cursor - visible / 2 <= total - visible ==> cursor - top == visible / 2
        }),
{
}

/// Where all rows fit, all are shown.
pub proof fn law_all_rows_shown_where_they_fit(total: int, visible: int, cursor: int)
    requires
        0 <= total <= visible,
    ensures
        window_top(total, visible, cursor) == 0,
        window_end(total, visible, cursor) == total,
{
}

/// The line numbers of a block: one for a block of one line, else the first
/// and the last one.
pub open spec fn numbers_of(v: SessionView, i: int) -> Seq<char> {
    if v.blocks[i].start == v.blocks[i].end {
        decimal((v.blocks[i].start + 1) as nat)
    } else {
        decimal((v.blocks[i].start + 1) as nat) + seq!['-'] + decimal((v.blocks[i].end + 1) as nat)
    }
}

/// A row shows, from left to right, how its block is decided, the numbers of
/// its lines, to the right of a column of four, and its input; and its style
/// says whether it is the current one, and else how it is decided.
pub proof fn law_what_a_row_shows(row: Row, v: SessionView, review: ReviewView, i: int)
    requires
        shows(row, v, review, i),
    ensures
        ({
            let numbers = numbers_of(v, i);
            let gap = if numbers.len() < 4 { 4 - numbers.len() } else { 0 };
            let text = row.text@;
            &&& text.len() == 2 + gap + numbers.len() + 2 + v.input(i).len()
            &&& text[0] == match review.decisions[i] {
                Some(accept) => if accept { 'y' } else { 'n' },
                None => ' ',
            }
            &&& text[1] == ' '
            &&& forall|k: int| 2 <= k < 2 + gap ==> #[trigger] text[k] == ' '
            &&& text.subrange(2 + gap, 2 + gap + numbers.len()) == numbers
            &&& text[2 + gap + numbers.len()] == ' ' && text[3 + gap + numbers.len()] == ' '
            &&& text.skip(4 + gap + numbers.len()) == v.input(i)
            &&& row.style == if i == review.cursor {
                RowStyle::Current
            } else if review.decisions[i] is None {
                RowStyle::Undecided
            } else if review.decisions[i]->0 {
                RowStyle::Accepted
            } else {
                RowStyle::Rejected
            }
        }),
{
    reveal_strlit("  ");
    let numbers = numbers_of(v, i);
    let gap = if numbers.len() < 4 { 4 - numbers.len() } else { 0 };
    let text = row.text@;
    assert(text.subrange(2 + gap, 2 + gap + numbers.len()) =~= numbers);
    assert(text.skip(4 + gap + numbers.len()) =~= v.input(i));
}

} // verus!
