//! What holds of the run of a script, of a review and of what comes out of
//! it.

use vstd::prelude::*;

use crate::error::SessionError;
use crate::instrument::{cycles_in, CycleView};
use crate::review::{
    accepted, block_output, changed, first_change, no_change, output, Key, ReviewView, Step,
};
use crate::runner::{full_run, input_text};
use crate::script::{runnable, sed_accepts, sed_gives, self_contained};
use crate::session::{
    advances, asked, block_start, grouped_as, grouping, lemma_block_inside, partition, prev_end, ran, SessionView,
};
use crate::state::BlockView;
use crate::text::{join_lines, lemma_join_concat};

verus! {

/// Cycles are grouped in one way only.
pub proof fn law_grouping_determined(
    cycles: Seq<CycleView>,
    total: usize,
    hold_active: bool,
    first: Result<Seq<BlockView>, SessionError>,
    second: Result<Seq<BlockView>, SessionError>,
)
    requires
        grouping(cycles, total, hold_active, first),
        grouping(cycles, total, hold_active, second),
    ensures
        first == second,
{
    if let Err(SessionError::LineNotAdvanced { prev_end: p, end_line: e }) = first {
        let i = choose|i: int|
            {
                &&& 0 <= i < cycles.len()
                &&& advances(cycles, i)
                &&& p == prev_end(cycles, i)
                &&& e == (#[trigger] cycles[i]).end_line
                &&& e <= p
            };
        assert(!(prev_end(cycles, i) < cycles[i].end_line));
        if let Err(SessionError::LineNotAdvanced { prev_end: q, end_line: f }) = second {
            let j = choose|j: int|
                {
                    &&& 0 <= j < cycles.len()
                    &&& advances(cycles, j)
                    &&& q == prev_end(cycles, j)
                    &&& f == (#[trigger] cycles[j]).end_line
                    &&& f <= q
                };
            assert(!(prev_end(cycles, j) < cycles[j].end_line));
            assert(i == j);
        }
    } else if let Err(SessionError::LineNotAdvanced { prev_end: q, end_line: f }) = second {
        let j = choose|j: int|
            {
                &&& 0 <= j < cycles.len()
                &&& advances(cycles, j)
                &&& q == prev_end(cycles, j)
                &&& f == (#[trigger] cycles[j]).end_line
                &&& f <= q
            };
        assert(!(prev_end(cycles, j) < cycles[j].end_line));
    }
}

/// A script that needs nothing but its input does the same in every run: it
/// gives the same blocks, or fails each time.
pub proof fn law_run_determined(
    before: SessionView,
    after: SessionView,
    failure: Option<SessionError>,
    again: SessionView,
    failure_again: Option<SessionError>,
)
    requires
        self_contained(before.wrapped_script),
        ran(before, after, failure),
        ran(before, again, failure_again),
    ensures
        after == again,
        failure is None <==> failure_again is None,
{
    let script = before.wrapped_script;
    let input = input_text(before.lines);
    let total = before.lines.len() as usize;
    let first = grouped_as(after, failure);
    let second = grouped_as(again, failure_again);
    if !(failure matches Some(e) && full_run(script, input, Err(e))) {
        let cycles = choose|cycles: Seq<CycleView>| #[trigger]
            full_run(script, input, Ok(cycles)) && grouping(cycles, total, before.hold_active, first);
        let others = choose|cycles: Seq<CycleView>| #[trigger]
            full_run(script, input, Ok(cycles)) && grouping(cycles, total, before.hold_active, second);
        let stdout = choose|stdout: Seq<char>| #[trigger]
            sed_gives(runnable(script), input, Some(stdout)) && cycles == cycles_in(stdout);
        assert(others == cycles);
        law_grouping_determined(cycles, total, before.hold_active, first, second);
    }
}

/// Why a first call for blocks fails before there are cycles: because sed does
/// not take the script, exactly then; or because the script can fail on the
/// input, which one that needs nothing but its input cannot.
pub proof fn law_failures_of_a_run(before: SessionView, after: SessionView, failure: Option<SessionError>)
    requires
        ran(before, after, failure),
    ensures
        failure matches Some(SessionError::ParseScript(_)) <==> !sed_accepts(before.wrapped_script),
        failure matches Some(SessionError::RunScript(_)) ==> sed_gives(
            runnable(before.wrapped_script),
            input_text(before.lines),
            None,
        ) && !self_contained(before.wrapped_script),
{
}

/// The script runs once: after the first call for blocks that succeeds, every
/// call succeeds and changes nothing.
pub proof fn law_runs_once(
    before: SessionView,
    after: SessionView,
    later: SessionView,
    failure: Option<SessionError>,
)
    requires
        asked(before, after, None),
        asked(after, later, failure),
    ensures
        later == after,
        failure is None,
{
}

/// Two sets of decisions give the same text where they accept the same
/// changes, leaving aside blocks that were deleted and blocks whose text is
/// the same before and after.
pub proof fn law_same_accepted_same_output(v: SessionView, one: Seq<Option<bool>>, other: Seq<Option<bool>>)
    requires
        one.len() == other.len(),
        forall|i: int|
            0 <= i < one.len() ==> {
                ||| !v.blocks[i].printed
                ||| v.input(i) == v.blocks[i].pattern_after
                ||| (#[trigger] one[i] == Some(true) <==> #[trigger] other[i] == Some(true))
            },
    ensures
        output(v, one) == output(v, other),
    decreases one.len(),
{
    if one.len() > 0 {
        let n = one.len() - 1;
        assert forall|i: int| 0 <= i < n implies {
            ||| !v.blocks[i].printed
            ||| v.input(i) == v.blocks[i].pattern_after
            ||| (#[trigger] one.drop_last()[i] == Some(true) <==> #[trigger] other.drop_last()[i] == Some(true))
        } by {
            assert(one.drop_last()[i] == one[i]);
            assert(other.drop_last()[i] == other[i]);
        }
        law_same_accepted_same_output(v, one.drop_last(), other.drop_last());
        assert(one[n] == one.last());
        assert(other[n] == other.last());
    }
}

/// A deleted block gives no output, whatever is decided of it.
pub proof fn law_deleted_gives_nothing(v: SessionView, decisions: Seq<Option<bool>>, i: int, decision: Option<bool>)
    requires
        0 <= i < decisions.len(),
        !v.blocks[i].printed,
    ensures
        block_output(v, i, decision) == Seq::<char>::empty(),
        output(v, decisions.update(i, decision)) == output(v, decisions),
{
    law_same_accepted_same_output(v, decisions.update(i, decision), decisions);
}

/// What is decided of a block that the script leaves alone makes no
/// difference.
pub proof fn law_unchanged_needs_no_decision(
    v: SessionView,
    decisions: Seq<Option<bool>>,
    i: int,
    decision: Option<bool>,
)
    requires
        0 <= i < decisions.len(),
        !changed(v, i),
    ensures
        output(v, decisions.update(i, decision)) == output(v, decisions),
{
    law_same_accepted_same_output(v, decisions.update(i, decision), decisions);
}

/// A block not decided of comes out like a rejected one.
pub proof fn law_undecided_is_rejected(v: SessionView, decisions: Seq<Option<bool>>, i: int)
    requires
        0 <= i < decisions.len(),
    ensures
        output(v, decisions.update(i, None)) == output(v, decisions.update(i, Some(false))),
{
    law_same_accepted_same_output(v, decisions.update(i, None), decisions.update(i, Some(false)));
}

/// What the first blocks give where each gives its input: the lines that they
/// cover, each with a newline.
proof fn lemma_inputs(v: SessionView, decisions: Seq<Option<bool>>)
    requires
        partition(v.blocks, v.lines.len() as int),
        decisions.len() <= v.blocks.len(),
        forall|i: int|
            0 <= i < decisions.len() ==> block_output(v, i, #[trigger] decisions[i]) == v.input(i).push('\n'),
    ensures
        0 <= block_start(v.blocks, decisions.len() as int) <= v.lines.len(),
        decisions.len() > 0 ==> block_start(v.blocks, decisions.len() as int) > 0,
        output(v, decisions) == if decisions.len() == 0 {
            Seq::empty()
        } else {
            input_text(v.lines.take(block_start(v.blocks, decisions.len() as int)))
        },
    decreases decisions.len(),
{
    if decisions.len() > 0 {
        let n = decisions.len() - 1;
        let block = v.blocks[n];
        let start = block_start(v.blocks, n);
        let end = block_start(v.blocks, n + 1);
        lemma_block_inside(v.blocks, v.lines.len() as int, n);
        assert forall|i: int| 0 <= i < n implies block_output(v, i, #[trigger] decisions.drop_last()[i]) == v.input(
            i,
        ).push('\n') by {
            assert(decisions.drop_last()[i] == decisions[i]);
        }
        lemma_inputs(v, decisions.drop_last());
        assert(decisions[n] == decisions.last());
        assert(block.start == start);
        let earlier = v.lines.take(start);
        let own = v.lines.subrange(start, end);
        assert(v.lines.take(end) =~= earlier + own);
        assert(v.input(n) == join_lines(own));
        if n == 0 {
            assert(earlier + own =~= own);
            assert(output(v, decisions.drop_last()) =~= Seq::empty());
            assert(output(v, decisions) =~= input_text(v.lines.take(end)));
        } else {
            lemma_join_concat(earlier, own);
            assert(output(v, decisions) =~= input_text(v.lines.take(end)));
        }
    }
}

/// Where no block was deleted and no change is accepted, the lines of the
/// input come out as they went in, each with a newline.
pub proof fn law_nothing_accepted_keeps_input(v: SessionView, decisions: Seq<Option<bool>>)
    requires
        v.well_formed(),
        v.computed,
        v.lines.len() > 0,
        decisions.len() == v.blocks.len(),
        forall|i: int| 0 <= i < v.blocks.len() ==> (#[trigger] v.blocks[i]).printed,
        forall|i: int| 0 <= i < decisions.len() ==> #[trigger] decisions[i] != Some(true),
    ensures
        output(v, decisions) == input_text(v.lines),
{
    assert forall|i: int| 0 <= i < decisions.len() implies block_output(v, i, #[trigger] decisions[i]) == v.input(
        i,
    ).push('\n') by {
        assert(v.blocks[i].printed);
    }
    lemma_inputs(v, decisions);
    assert(v.lines.take(v.lines.len() as int) =~= v.lines);
}

/// Where the script changes nothing, the lines of the input come out as they
/// went in, whatever is decided.
pub proof fn law_unchanged_input_kept(v: SessionView, decisions: Seq<Option<bool>>)
    requires
        v.well_formed(),
        v.computed,
        v.lines.len() > 0,
        decisions.len() == v.blocks.len(),
        no_change(v, 0),
    ensures
        output(v, decisions) == input_text(v.lines),
{
    assert forall|i: int| 0 <= i < decisions.len() implies block_output(v, i, #[trigger] decisions[i]) == v.input(
        i,
    ).push('\n') by {
        assert(!changed(v, i));
    }
    lemma_inputs(v, decisions);
    assert(v.lines.take(v.lines.len() as int) =~= v.lines);
}

/// The pattern spaces that blocks print, each with a newline.
pub open spec fn printed_patterns(blocks: Seq<BlockView>) -> Seq<char>
    decreases blocks.len(),
{
    if blocks.len() == 0 {
        Seq::empty()
    } else if blocks.last().printed {
        printed_patterns(blocks.drop_last()) + blocks.last().pattern_after.push('\n')
    } else {
        printed_patterns(blocks.drop_last())
    }
}

/// Where every change is accepted, the pattern spaces come out that the
/// script prints at the end of its cycles.
pub proof fn law_all_accepted_prints_patterns(v: SessionView, decisions: Seq<Option<bool>>)
    requires
        decisions.len() <= v.blocks.len(),
        forall|i: int| 0 <= i < decisions.len() ==> #[trigger] decisions[i] == Some(true),
    ensures
        output(v, decisions) == printed_patterns(v.blocks.take(decisions.len() as int)),
    decreases decisions.len(),
{
    if decisions.len() > 0 {
        let n = decisions.len() as int;
        assert forall|i: int| 0 <= i < n - 1 implies #[trigger] decisions.drop_last()[i] == Some(true) by {
            assert(decisions.drop_last()[i] == decisions[i]);
        }
        law_all_accepted_prints_patterns(v, decisions.drop_last());
        assert(v.blocks.take(n).drop_last() =~= v.blocks.take(n - 1));
        assert(v.blocks.take(n).last() == v.blocks[n - 1]);
        assert(decisions.last() == decisions[n - 1]);
        assert(output(v, decisions) =~= printed_patterns(v.blocks.take(n)));
    }
}

/// How far a review has come: the blocks before `front` are decided, those
/// from there on are not, and the one there is changed. The cursor is not
/// beyond it.
pub open spec fn come_to(review: ReviewView, v: SessionView, front: int) -> bool {
    &&& review.fits(v)
    &&& review.cursor <= front < v.blocks.len()
    &&& changed(v, front)
    &&& forall|i: int| 0 <= i < review.decisions.len() ==> (#[trigger] review.decisions[i] is Some <==> i < front)
}

/// Whether every block is decided.
pub open spec fn all_decided(decisions: Seq<Option<bool>>) -> bool {
    forall|i: int| 0 <= i < decisions.len() ==> #[trigger] decisions[i] is Some
}

/// A review that begins at the first changed block has come to it.
pub proof fn law_start_of_review(review: ReviewView, v: SessionView)
    requires
        review.fits(v),
        first_change(v, 0, review.cursor),
        review.decisions == accepted(Seq::new(v.blocks.len(), |j: int| None::<bool>), 0, review.cursor),
    ensures
        come_to(review, v, review.cursor),
{
}

/// A review leaves no changed block out: whatever the keys, the decided blocks
/// are all those before some changed block, until a decision ends the review,
/// and then every block is decided.
pub proof fn law_review_leaves_no_gap(
    review: ReviewView,
    v: SessionView,
    front: int,
    key: Key,
    after: ReviewView,
    step: Step,
)
    requires
        come_to(review, v, front),
        after.fits(v),
        review.stepped(v, key, after, step),
    ensures
        step == Step::GoOn ==> come_to(after, v, if after.cursor > front { after.cursor } else { front }),
        step == Step::Done ==> after == review || all_decided(after.decisions),
{
    match key {
        Key::Char('y') | Key::Char('n') => {
            if step == Step::Done {
                if review.cursor < front {
                    assert(!changed(v, front));
                }
                assert forall|i: int| 0 <= i < after.decisions.len() implies #[trigger] after.decisions[i] is Some by {
                    if i < front {
                        assert(review.decisions[i] is Some);
                    }
                }
            } else {
                if review.cursor < front && after.cursor > front {
                    assert(!changed(v, front));
                }
                let next = if after.cursor > front { after.cursor } else { front };
                assert forall|i: int| 0 <= i < after.decisions.len() implies (#[trigger] after.decisions[i] is Some
                    <==> i < next) by {
                    assert(review.decisions[i] is Some <==> i < front);
                }
            }
        },
        _ => {},
    }
}

/// Going back, going to the first block and keys without a meaning change no
/// decision, and a decision changes none before the cursor.
pub proof fn law_decisions_stand(review: ReviewView, v: SessionView, key: Key, after: ReviewView, step: Step, i: int)
    requires
        review.fits(v),
        review.stepped(v, key, after, step),
        0 <= i < review.decisions.len(),
        !(key matches Key::Char('y')) && !(key matches Key::Char('n')) || i < review.cursor,
    ensures
        after.decisions[i] == review.decisions[i],
{
}

/// Whether a script does anything to a block: the text is another one, or it
/// is deleted, or the hold space, where it is in use, is another one than
/// after the block before, or than an empty one for the first block.
pub open spec fn touched(v: SessionView, i: int) -> bool {
    ||| v.blocks[i].pattern_after != v.input(i)
    ||| !v.blocks[i].printed
    ||| v.hold_active && v.blocks[i].hold_after != if i == 0 {
        Some(Seq::<char>::empty())
    } else {
        v.blocks[i - 1].hold_after
    }
}

/// The blocks that count as changed are those to which the script does
/// anything.
pub proof fn law_what_counts_as_changed(v: SessionView, i: int)
    requires
        v.well_formed(),
        0 <= i < v.blocks.len(),
    ensures
        changed(v, i) == touched(v, i),
{
    if !v.hold_active {
        assert(v.blocks[i].hold_after is None);
        if i > 0 {
            assert(v.blocks[i - 1].hold_after is None);
        }
    }
}

/// The first change from a block on is a block to which the script does
/// something, with none before it; there is no change where there is no such
/// block.
pub proof fn law_where_the_changes_are(v: SessionView, from: int, i: int)
    requires
        v.well_formed(),
        0 <= from,
    ensures
        first_change(v, from, i) <==> {
            &&& from <= i < v.blocks.len()
            &&& touched(v, i)
            &&& forall|j: int| #![trigger v.blocks[j]] from <= j < i ==> !touched(v, j)
        },
        no_change(v, from) <==> forall|j: int| #![trigger v.blocks[j]] from <= j < v.blocks.len() ==> !touched(v, j),
{
    assert forall|j: int| 0 <= j < v.blocks.len() implies #[trigger] changed(v, j) == touched(v, j) by {
        law_what_counts_as_changed(v, j);
    }
    if first_change(v, from, i) {
        assert forall|j: int| #![trigger v.blocks[j]] from <= j < i implies !touched(v, j) by {
            assert(!changed(v, j));
        }
    }
    if from <= i < v.blocks.len() && touched(v, i) && forall|j: int|
        #![trigger v.blocks[j]]
        from <= j < i ==> !touched(v, j) {
        assert(changed(v, i));
        assert forall|j: int| from <= j < i implies !#[trigger] changed(v, j) by {
            let block = v.blocks[j];
            assert(!touched(v, j));
        }
    }
    if no_change(v, from) {
        assert forall|j: int| #![trigger v.blocks[j]] from <= j < v.blocks.len() implies !touched(v, j) by {
            assert(!changed(v, j));
        }
    }
    if forall|j: int| #![trigger v.blocks[j]] from <= j < v.blocks.len() ==> !touched(v, j) {
        assert forall|j: int| from <= j < v.blocks.len() implies !#[trigger] changed(v, j) by {
            let block = v.blocks[j];
            assert(!touched(v, j));
        }
    }
}

/// Accepting some blocks decides those and no others.
pub proof fn law_what_accepting_does(decisions: Seq<Option<bool>>, from: int, to: int, i: int)
    requires
        0 <= i < decisions.len(),
    ensures
        accepted(decisions, from, to).len() == decisions.len(),
        from <= i < to ==> accepted(decisions, from, to)[i] == Some(true),
        i < from || to <= i ==> accepted(decisions, from, to)[i] == decisions[i],
{
}

/// After `y` the block that was at the cursor is accepted, and after `n` it is
/// rejected, whatever was decided of it before.
pub proof fn law_decision_is_recorded(review: ReviewView, v: SessionView, key: Key, after: ReviewView, step: Step)
    requires
        review.fits(v),
        review.stepped(v, key, after, step),
    ensures
        key matches Key::Char('y') ==> after.decisions[review.cursor] == Some(true),
        key matches Key::Char('n') ==> after.decisions[review.cursor] == Some(false),
{
}

/// What `y` and `n` do. The block at the cursor is accepted or rejected,
/// whatever was decided of it before. The blocks behind it that the script
/// leaves alone are accepted, up to the next one that it does not, and the
/// cursor goes there; where there is none, all the rest is accepted, the
/// cursor goes to the last block, and the review is done. No other decision
/// changes.
pub proof fn law_what_a_decision_does(
    review: ReviewView,
    v: SessionView,
    accept: bool,
    after: ReviewView,
    step: Step,
)
    requires
        v.well_formed(),
        review.fits(v),
        review.stepped(v, if accept { Key::Char('y') } else { Key::Char('n') }, after, step),
    ensures
        after.decisions.len() == review.decisions.len(),
        after.decisions[review.cursor] == Some(accept),
        forall|i: int| 0 <= i < review.cursor ==> #[trigger] after.decisions[i] == review.decisions[i],
        step == Step::GoOn ==> {
            &&& review.cursor < after.cursor < v.blocks.len()
            &&& touched(v, after.cursor)
            &&& forall|i: int|
                review.cursor < i < after.cursor ==> !touched(v, i) && #[trigger] after.decisions[i] == Some(true)
            &&& forall|i: int|
                after.cursor <= i < v.blocks.len() ==> #[trigger] after.decisions[i] == review.decisions[i]
        },
        step == Step::Done ==> {
            &&& after.cursor == v.blocks.len() - 1
            &&& forall|i: int|
                review.cursor < i < v.blocks.len() ==> !touched(v, i) && #[trigger] after.decisions[i] == Some(true)
        },
{
    law_where_the_changes_are(v, review.cursor + 1, after.cursor);
    law_decision_is_recorded(review, v, if accept { Key::Char('y') } else { Key::Char('n') }, after, step);
    if step == Step::GoOn {
        assert forall|i: int| review.cursor < i < after.cursor implies !touched(v, i) && #[trigger] after.decisions[i]
            == Some(true) by {
            let block = v.blocks[i];
        }
    } else {
        assert forall|i: int| review.cursor < i < v.blocks.len() implies !touched(v, i)
            && #[trigger] after.decisions[i] == Some(true) by {
            let block = v.blocks[i];
        }
    }
}

/// What the other keys do: `p` and up go back one block and stay on the first
/// one, `g` goes to the first one, `q` and Esc end the review, and any other
/// key does nothing. None of them changes a decision.
pub proof fn law_what_other_keys_do(review: ReviewView, v: SessionView, key: Key, after: ReviewView, step: Step)
    requires
        review.fits(v),
        review.stepped(v, key, after, step),
        !(key matches Key::Char('y')),
        !(key matches Key::Char('n')),
    ensures
        after.decisions == review.decisions,
        step == Step::Done <==> (key matches Key::Char('q') || key is Esc),
        key matches Key::Char('p') || key is Up ==> after.cursor == if review.cursor == 0 {
            0
        } else {
            review.cursor - 1
        },
        key matches Key::Char('g') ==> after.cursor == 0,
        !(key matches Key::Char('p')) && !(key is Up) && !(key matches Key::Char('g')) ==> after.cursor
            == review.cursor,
{
}

/// Going back after a decision and deciding again leaves no trace of the first
/// decision on that block.
pub proof fn law_second_decision_counts(
    review: ReviewView,
    v: SessionView,
    first: bool,
    second: bool,
    between: ReviewView,
    after: ReviewView,
    step: Step,
    last_step: Step,
)
    requires
        v.well_formed(),
        review.fits(v),
        between.fits(v),
        review.stepped(v, if first { Key::Char('y') } else { Key::Char('n') }, between, step),
        ({
            let back = ReviewView { cursor: review.cursor, ..between };
            back.stepped(v, if second { Key::Char('y') } else { Key::Char('n') }, after, last_step)
        }),
    ensures
        after.decisions[review.cursor] == Some(second),
        forall|i: int| 0 <= i < review.cursor ==> #[trigger] after.decisions[i] == review.decisions[i],
{
    let back = ReviewView { cursor: review.cursor, ..between };
    law_what_a_decision_does(review, v, first, between, step);
    law_what_a_decision_does(back, v, second, after, last_step);
    assert forall|i: int| 0 <= i < review.cursor implies #[trigger] after.decisions[i] == review.decisions[i] by {
        assert(after.decisions[i] == back.decisions[i]);
        assert(between.decisions[i] == review.decisions[i]);
    }
}

/// A review has a decision for each block and a cursor on one of them.
pub proof fn law_what_fits(review: ReviewView, v: SessionView)
    ensures
        review.fits(v) <==> review.decisions.len() == v.blocks.len() && 0 <= review.cursor && review.cursor
            < v.blocks.len(),
{
}

/// What a block gives depends on that block and the decision on it alone: its
/// pattern space where it is accepted, its input where it is not, each with a
/// newline; and nothing where it was deleted.
pub proof fn law_what_a_block_gives(v: SessionView, i: int, decision: Option<bool>)
    ensures
        v.blocks[i].printed && decision != Some(true) ==> block_output(v, i, decision) == v.input(i) + seq!['\n'],
        v.blocks[i].printed && decision == Some(true) ==> block_output(v, i, decision) == v.blocks[i].pattern_after
            + seq!['\n'],
        !v.blocks[i].printed ==> block_output(v, i, decision).len() == 0,
{
    assert(v.input(i).push('\n') =~= v.input(i) + seq!['\n']);
    assert(v.blocks[i].pattern_after.push('\n') =~= v.blocks[i].pattern_after + seq!['\n']);
}

/// The output grows block by block: one more decision adds what its block
/// gives, and changes nothing before it.
pub proof fn law_output_block_by_block(v: SessionView, decisions: Seq<Option<bool>>, decision: Option<bool>)
    ensures
        output(v, Seq::empty()) == Seq::<char>::empty(),
        ({
            let i = decisions.len() as int;
            output(v, decisions.push(decision)) == output(v, decisions) + if !v.blocks[i].printed {
                Seq::empty()
            } else if decision == Some(true) {
                v.blocks[i].pattern_after + seq!['\n']
            } else {
                v.input(i) + seq!['\n']
            }
        }),
{
    law_what_a_block_gives(v, decisions.len() as int, decision);
    assert(decisions.push(decision).drop_last() =~= decisions);
    if !v.blocks[decisions.len() as int].printed {
        assert(block_output(v, decisions.len() as int, decision) =~= Seq::empty());
    }
}

} // verus!
