//! The review of a session: which blocks are looked at, what is decided of
//! each, and the text that comes out.

use vstd::prelude::*;

use crate::error::SessionError;
use crate::session;
use crate::session::{Session, SessionView};
use crate::state::option_view;

verus! {

/// The hold space before the cycle of a block: empty before the first one.
/// There is none for a script that does not use it.
pub open spec fn hold_before(v: SessionView, i: int) -> Option<Seq<char>> {
    if i > 0 {
        v.blocks[i - 1].hold_after
    } else if v.hold_active {
        Some(Seq::empty())
    } else {
        None
    }
}

/// Whether the script does anything to a block: it changes the pattern space
/// or the hold space, or deletes the block.
pub open spec fn changed(v: SessionView, i: int) -> bool {
    ||| v.input(i) != v.blocks[i].pattern_after
    ||| v.blocks[i].hold_after != hold_before(v, i)
    ||| !v.blocks[i].printed
}

/// Decisions with the blocks `from..to` accepted.
pub open spec fn accepted(decisions: Seq<Option<bool>>, from: int, to: int) -> Seq<Option<bool>> {
    Seq::new(decisions.len(), |j: int| if from <= j < to { Some(true) } else { decisions[j] })
}

/// Whether `i` is the first changed block from `from` on.
pub open spec fn first_change(v: SessionView, from: int, i: int) -> bool {
    &&& from <= i < v.blocks.len()
    &&& changed(v, i)
    &&& forall|j: int| from <= j < i ==> !#[trigger] changed(v, j)
}

/// Whether no block from `from` on is changed.
pub open spec fn no_change(v: SessionView, from: int) -> bool {
    forall|j: int| from <= j < v.blocks.len() ==> !#[trigger] changed(v, j)
}

fn same_option(a: &Option<String>, b: &Option<String>) -> (same: bool)
    ensures
        same == (option_view(*a) == option_view(*b)),
{
    match (a, b) {
        (Some(a), Some(b)) => *a == *b,
        (None, None) => true,
        _ => false,
    }
}

/// Whether the script does anything to a block.
pub fn is_changed(session: &Session, idx: usize) -> (yes: bool)
    requires
        session.wf(),
        idx < session@.blocks.len(),
    ensures
        yes == changed(session@, idx as int),
{
    let record = session.record(idx);
    let hold_before = if idx > 0 {
        session.record(idx - 1).hold_after
    } else if session.hold_active() {
        Some(String::new())
    } else {
        None
    };
    let pattern_changed = record.input != record.pattern_after;
    let hold_changed = !same_option(&record.hold_after, &hold_before);
    pattern_changed || hold_changed || !record.printed
}

/// Looks for the first changed block, and accepts the blocks before it, which
/// the script leaves alone. There is none where the script does nothing to
/// the whole input.
pub fn find_first_diff(session: &Session, decisions: &mut [Option<bool>]) -> (first: Option<usize>)
    requires
        session.wf(),
        old(decisions)@.len() == session@.blocks.len(),
    ensures
        match first {
            Some(i) => {
                &&& first_change(session@, 0, i as int)
                &&& final(decisions)@ == accepted(old(decisions)@, 0, i as int)
            },
            None => {
                &&& no_change(session@, 0)
                &&& final(decisions)@ == accepted(old(decisions)@, 0, session@.blocks.len() as int)
            },
        },
{
    let total: usize = session.known_blocks();
    for i in 0..total
        invariant
            session.wf(),
            total == session@.blocks.len(),
            decisions@.len() == total,
            decisions@ == accepted(old(decisions)@, 0, i as int),
            forall|j: int| 0 <= j < i ==> !#[trigger] changed(session@, j),
    {
        if is_changed(session, i) {
            return Some(i);
        }
        decisions[i] = Some(true);
        assert(decisions@ =~= accepted(old(decisions)@, 0, i + 1));
    }
    None
}

/// Moves on from a block to the next changed one, and accepts the blocks
/// between. Where there is none, it accepts the rest, ends on the last block
/// and says so.
pub fn advance_past_noops(session: &Session, cursor: &mut usize, decisions: &mut [Option<bool>]) -> (more: bool)
    requires
        session.wf(),
        old(decisions)@.len() == session@.blocks.len(),
        *old(cursor) < session@.blocks.len(),
    ensures
        if more {
            &&& first_change(session@, *old(cursor) + 1, *final(cursor) as int)
            &&& final(decisions)@ == accepted(old(decisions)@, *old(cursor) + 1, *final(cursor) as int)
        } else {
            &&& no_change(session@, *old(cursor) + 1)
            &&& *final(cursor) == session@.blocks.len() - 1
            &&& final(decisions)@ == accepted(old(decisions)@, *old(cursor) + 1, session@.blocks.len() as int)
        },
{
    let total: usize = session.known_blocks();
    let ghost from = *cursor;
    while *cursor + 1 < total
        invariant
            session.wf(),
            total == session@.blocks.len(),
            decisions@.len() == total,
            from == *old(cursor),
            from <= *cursor < total,
            decisions@ == accepted(old(decisions)@, from + 1, *cursor + 1),
            forall|j: int| from < j <= *cursor ==> !#[trigger] changed(session@, j),
        decreases total - *cursor,
    {
        *cursor = *cursor + 1;
        if is_changed(session, *cursor) {
            return true;
        }
        decisions[*cursor] = Some(true);
        assert(decisions@ =~= accepted(old(decisions)@, from + 1, *cursor + 1));
    }
    false
}

/// A key of the review. Keys without a meaning are `Other`.
pub enum Key {
    Char(char),
    Up,
    Esc,
    Other,
}

/// Whether a review goes on after a key.
#[derive(Debug, PartialEq, Eq, Structural)]
pub enum Step {
    GoOn,
    Done,
}

/// A review under way: the block looked at, and one decision per block.
/// `Some(true)` accepts a change, `Some(false)` rejects it, and a block not
/// decided of is left as it is in the input.
pub struct Review {
    cursor: usize,
    decisions: Vec<Option<bool>>,
}

/// A review as plain values.
pub struct ReviewView {
    pub cursor: int,
    pub decisions: Seq<Option<bool>>,
}

impl View for Review {
    type V = ReviewView;

    closed spec fn view(&self) -> ReviewView {
        ReviewView { cursor: self.cursor as int, decisions: self.decisions@ }
    }
}

impl ReviewView {
    /// Whether a review fits a session: a decision for each block, and a
    /// cursor on one of them.
    pub open spec fn fits(self, v: SessionView) -> bool {
        &&& self.decisions.len() == v.blocks.len()
        &&& 0 <= self.cursor < v.blocks.len()
    }

    /// What is left of a review after a decision on the block at the cursor,
    /// and whether it goes on: at the next changed block, with the blocks
    /// between accepted, or not at all, with the rest accepted.
    pub open spec fn decided(self, v: SessionView, accept: bool, after: ReviewView, step: Step) -> bool {
        let decisions = self.decisions.update(self.cursor, Some(accept));
        match step {
            Step::GoOn => {
                &&& first_change(v, self.cursor + 1, after.cursor)
                &&& after.decisions == accepted(decisions, self.cursor + 1, after.cursor)
            },
            Step::Done => {
                &&& no_change(v, self.cursor + 1)
                &&& after.cursor == v.blocks.len() - 1
                &&& after.decisions == accepted(decisions, self.cursor + 1, v.blocks.len() as int)
            },
        }
    }

    /// What a key does to a review.
    pub open spec fn stepped(self, v: SessionView, key: Key, after: ReviewView, step: Step) -> bool {
        match key {
            Key::Char('y') => self.decided(v, true, after, step),
            Key::Char('n') => self.decided(v, false, after, step),
            Key::Char('q') | Key::Esc => after == self && step == Step::Done,
            Key::Char('p') | Key::Up => {
                &&& after.cursor == if self.cursor > 0 { self.cursor - 1 } else { 0 }
                &&& after.decisions == self.decisions
                &&& step == Step::GoOn
            },
            Key::Char('g') => after.cursor == 0 && after.decisions == self.decisions && step == Step::GoOn,
            _ => after == self && step == Step::GoOn,
        }
    }
}

impl Review {
    /// Begins the review of a session at the first changed block. There is
    /// nothing to review where the script changes no block.
    pub fn start(session: &mut Session) -> (result: Result<Option<Review>, SessionError>)
        requires
            old(session).wf(),
        ensures
            final(session).wf(),
            session::asked(old(session)@, final(session)@, session::failure_of(result)),
            result matches Ok(None) ==> no_change(final(session)@, 0),
            result matches Ok(Some(review)) ==> {
                let v = final(session)@;
                let undecided = Seq::new(v.blocks.len(), |j: int| None::<bool>);
                &&& review@.fits(v)
                &&& first_change(v, 0, review@.cursor)
                &&& review@.decisions == accepted(undecided, 0, review@.cursor)
            },
    {
        let count: usize = session.block_count()?;
        let mut decisions: Vec<Option<bool>> = Vec::new();
        for i in 0..count
            invariant
                decisions@ =~= Seq::new(i as nat, |j: int| None::<bool>),
        {
            decisions.push(None);
        }
        match find_first_diff(session, decisions.as_mut_slice()) {
            Some(cursor) => Ok(Some(Review { cursor, decisions })),
            None => Ok(None),
        }
    }

    /// The block looked at.
    pub fn cursor(&self) -> (cursor: usize)
        ensures
            cursor == self@.cursor,
    {
        self.cursor
    }

    /// The decisions so far, one per block.
    pub fn decisions(&self) -> (decisions: &[Option<bool>])
        ensures
            decisions@ == self@.decisions,
    {
        self.decisions.as_slice()
    }

    fn decide(&mut self, session: &Session, accept: bool) -> (step: Step)
        requires
            session.wf(),
            old(self)@.fits(session@),
        ensures
            final(self)@.fits(session@),
            old(self)@.decided(session@, accept, final(self)@, step),
    {
        let at: usize = self.cursor;
        self.decisions.set(at, Some(accept));
        let mut cursor: usize = at;
        let more = advance_past_noops(session, &mut cursor, self.decisions.as_mut_slice());
        self.cursor = cursor;
        if more {
            Step::GoOn
        } else {
            Step::Done
        }
    }

    /// Takes a key: `y` accepts and `n` rejects the block at the cursor and
    /// moves on to the next changed one, `p` or up goes back one block, `g`
    /// to the first one, and `q` or Esc ends the review.
    pub fn handle_key(&mut self, session: &Session, key: Key) -> (step: Step)
        requires
            session.wf(),
            old(self)@.fits(session@),
        ensures
            final(self)@.fits(session@),
            old(self)@.stepped(session@, key, final(self)@, step),
    {
        match key {
            Key::Char('y') => self.decide(session, true),
            Key::Char('n') => self.decide(session, false),
            Key::Char('q') | Key::Esc => Step::Done,
            Key::Char('p') | Key::Up => {
                if self.cursor > 0 {
                    self.cursor = self.cursor - 1;
                }
                Step::GoOn
            },
            Key::Char('g') => {
                self.cursor = 0;
                Step::GoOn
            },
            _ => Step::GoOn,
        }
    }
}

/// What a block gives to the output: nothing where it was deleted, else one
/// text with a newline, its pattern space where the change is accepted and
/// its input where not.
pub open spec fn block_output(v: SessionView, i: int, decision: Option<bool>) -> Seq<char> {
    if !v.blocks[i].printed {
        Seq::empty()
    } else if decision == Some(true) {
        v.blocks[i].pattern_after.push('\n')
    } else {
        v.input(i).push('\n')
    }
}

/// What the first blocks give to the output, one for each decision.
pub open spec fn output(v: SessionView, decisions: Seq<Option<bool>>) -> Seq<char>
    decreases decisions.len(),
{
    if decisions.len() == 0 {
        Seq::empty()
    } else {
        output(v, decisions.drop_last()) + block_output(v, decisions.len() - 1, decisions.last())
    }
}

/// The text that comes of a session and the decisions on its blocks.
pub fn reconstruct_output(session: &Session, decisions: &[Option<bool>]) -> (text: String)
    requires
        session.wf(),
        decisions@.len() <= session@.blocks.len(),
    ensures
        text@ == output(session@, decisions@),
{
    let mut text = String::new();
    for i in 0..decisions.len()
        invariant
            session.wf(),
            decisions@.len() <= session@.blocks.len(),
            text@ == output(session@, decisions@.take(i as int)),
    {
        let ghost before = text@;
        proof {
            assert(decisions@.take(i + 1).drop_last() =~= decisions@.take(i as int));
            assert(decisions@.take(i + 1).last() == decisions@[i as int]);
        }
        if session.printed(i) {
            let raw = session.raw_input(i);
            match (decisions[i], session.cached_pattern(i)) {
                (Some(true), Some(pattern)) => {
                    text.append(pattern);
                },
                _ => {
                    text.append(raw.as_str());
                },
            }
            text.push('\n');
        }
        assert(text@ =~= before + block_output(session@, i as int, decisions@[i as int]));
    }
    assert(decisions@.take(decisions@.len() as int) =~= decisions@);
    text
}

/// The text to write: what the decisions make of the blocks, or the input as
/// it is where there was nothing to review.
pub fn result_text(input: &str, session: &Session, review: &Option<Review>) -> (text: String)
    requires
        session.wf(),
        review matches Some(review) ==> review@.fits(session@),
    ensures
        text@ == match *review {
            Some(review) => output(session@, review@.decisions),
            None => input@,
        },
{
    match review {
        Some(review) => reconstruct_output(session, review.decisions()),
        None => input.to_owned(),
    }
}

} // verus!
