//! A script and an input, and the blocks that the one makes of the other.

use vstd::prelude::*;

use crate::command;
use crate::error::SessionError;
use crate::instrument;
use crate::instrument::{uses_hold_space, Cycle, CycleView};
use crate::runner;
use crate::state;
use crate::state::{Block, BlockView, LineRecord, RecordView};
use crate::text;
use crate::text::input_lines;

verus! {

/// Runs a script once over a whole input, on the first call that asks for its
/// blocks, and keeps the blocks.
pub struct Session {
    lines: Vec<String>,
    wrapped_script: String,
    hold_active: bool,
    blocks: Vec<Block>,
    computed: bool,
}

/// A session as plain values.
pub struct SessionView {
    pub lines: Seq<Seq<char>>,
    pub wrapped_script: Seq<char>,
    pub hold_active: bool,
    pub blocks: Seq<BlockView>,
    /// Whether the script has run.
    pub computed: bool,
}

impl View for Session {
    type V = SessionView;

    closed spec fn view(&self) -> SessionView {
        SessionView {
            lines: text::string_views(self.lines@),
            wrapped_script: self.wrapped_script@,
            hold_active: self.hold_active,
            blocks: state::block_views(self.blocks@),
            computed: self.computed,
        }
    }
}

/// Where the block at `i` begins: behind the last line of the one before it.
pub open spec fn block_start(blocks: Seq<BlockView>, i: int) -> int {
    if i <= 0 {
        0
    } else {
        blocks[i - 1].end + 1
    }
}

/// Whether blocks are one or more lines each and cover the first `total`
/// lines of an input, each line once and in order.
pub open spec fn partition(blocks: Seq<BlockView>, total: int) -> bool {
    &&& forall|i: int|
        0 <= i < blocks.len() ==> (#[trigger] blocks[i]).start == block_start(blocks, i) && blocks[i].start
            <= blocks[i].end
    &&& block_start(blocks, blocks.len() as int) == total
}

impl SessionView {
    /// What holds of every session: before the run it has no blocks, and
    /// after the run its blocks cover the input and show the hold space
    /// exactly where it is in use.
    pub open spec fn well_formed(self) -> bool {
        &&& !self.computed ==> self.blocks.len() == 0
        &&& self.computed ==> partition(self.blocks, self.lines.len() as int)
        &&& forall|i: int|
            0 <= i < self.blocks.len() ==> ((#[trigger] self.blocks[i]).hold_after is Some <==> self.hold_active)
    }

    /// The input lines of a block, joined by newlines.
    pub open spec fn input(self, i: int) -> Seq<char> {
        self.blocks[i].input(self.lines)
    }

    /// What is shown of a block.
    pub open spec fn record(self, i: int) -> RecordView {
        RecordView {
            input: self.input(i),
            pattern_after: self.blocks[i].pattern_after,
            printed: self.blocks[i].printed,
            hold_after: self.blocks[i].hold_after,
        }
    }

    /// The same session after a run that gave the blocks.
    pub open spec fn with_blocks(self, blocks: Seq<BlockView>) -> SessionView {
        SessionView { blocks, computed: true, ..self }
    }
}

/// The line number that the cycle before the one at `i` ends on: 0 before
/// the first cycle.
pub open spec fn prev_end(cycles: Seq<CycleView>, i: int) -> usize {
    if i <= 0 {
        0
    } else {
        cycles[i - 1].end_line
    }
}

/// Whether each of the first `n` cycles ends on a later line than the one
/// before it.
pub open spec fn advances(cycles: Seq<CycleView>, n: int) -> bool {
    forall|i: int| 0 <= i < n ==> prev_end(cycles, i) < (#[trigger] cycles[i]).end_line
}

/// The block of the cycle at `i`: the lines behind those of the cycle before
/// it, up to its own last one.
pub open spec fn block_of(cycles: Seq<CycleView>, i: int, hold_active: bool) -> BlockView {
    BlockView {
        start: prev_end(cycles, i) as int,
        end: cycles[i].end_line - 1,
        pattern_after: cycles[i].pattern_space,
        printed: cycles[i].printed,
        hold_after: if hold_active {
            Some(cycles[i].hold_space)
        } else {
            None
        },
    }
}

/// The blocks of all cycles.
pub open spec fn blocks_of(cycles: Seq<CycleView>, hold_active: bool) -> Seq<BlockView> {
    Seq::new(cycles.len(), |i: int| block_of(cycles, i, hold_active))
}

/// What grouping cycles gives for an input of `total` lines: an error at the
/// first cycle that does not advance; else an error where the last cycle does
/// not end on the last line; else a block for each cycle.
pub open spec fn grouping(
    cycles: Seq<CycleView>,
    total: usize,
    hold_active: bool,
    result: Result<Seq<BlockView>, SessionError>,
) -> bool {
    let n = cycles.len() as int;
    match result {
        Ok(blocks) => {
            &&& advances(cycles, n)
            &&& prev_end(cycles, n) == total
            &&& blocks == blocks_of(cycles, hold_active)
        },
        Err(SessionError::LineNotAdvanced { prev_end: prev, end_line }) => {
            exists|i: int|
                {
                    &&& 0 <= i < n
                    &&& advances(cycles, i)
                    &&& prev == prev_end(cycles, i)
                    &&& end_line == (#[trigger] cycles[i]).end_line
                    &&& end_line <= prev
                }
        },
        Err(SessionError::EarlyExit { consumed, total: of }) => {
            &&& advances(cycles, n)
            &&& consumed == prev_end(cycles, n)
            &&& of == total
            &&& consumed != total
        },
        _ => false,
    }
}

/// The blocks in a result as plain values.
pub open spec fn grouped_view(result: Result<Vec<Block>, SessionError>) -> Result<Seq<BlockView>, SessionError> {
    match result {
        Ok(blocks) => Ok(state::block_views(blocks@)),
        Err(e) => Err(e),
    }
}

/// Groups the cycles of a run over `total` input lines into blocks.
pub fn group_cycles(cycles: Vec<Cycle>, total: usize, hold_active: bool) -> (result: Result<Vec<Block>, SessionError>)
    ensures
        grouping(instrument::cycle_views(cycles@), total, hold_active, grouped_view(result)),
{
    let ghost views = instrument::cycle_views(cycles@);
    let mut blocks: Vec<Block> = Vec::new();
    let mut last_end: usize = 0;
    for i in 0..cycles.len()
        invariant
            views == instrument::cycle_views(cycles@),
            advances(views, i as int),
            last_end == prev_end(views, i as int),
            state::block_views(blocks@) == blocks_of(views, hold_active).take(i as int),
    {
        let cycle = &cycles[i];
        assert(views[i as int] == cycle@);
        if cycle.end_line <= last_end {
            return Err(SessionError::LineNotAdvanced { prev_end: last_end, end_line: cycle.end_line });
        }
        let block = Block {
            start: last_end,
            end: cycle.end_line - 1,
            pattern_after: cycle.pattern_space.clone(),
            printed: cycle.printed,
            hold_after: if hold_active {
                Some(cycle.hold_space.clone())
            } else {
                None
            },
        };
        let ghost before = blocks@;
        blocks.push(block);
        assert(block@ == block_of(views, i as int, hold_active));
        assert(state::block_views(blocks@) =~= state::block_views(before).push(block@));
        assert(blocks_of(views, hold_active).take(i + 1) =~= blocks_of(views, hold_active).take(i as int).push(
            block@,
        ));
        last_end = cycle.end_line;
    }
    assert(blocks_of(views, hold_active).take(views.len() as int) =~= blocks_of(views, hold_active));
    if last_end != total {
        return Err(SessionError::EarlyExit { consumed: last_end, total });
    }
    Ok(blocks)
}

/// What the first call for blocks does to a session: either the run comes to
/// nothing, or the cycles that it gives are grouped into blocks, which the
/// session keeps. After a failure the session is as before.
pub open spec fn ran(before: SessionView, after: SessionView, failure: Option<SessionError>) -> bool {
    let script = before.wrapped_script;
    let input = runner::input_text(before.lines);
    &&& failure is Some ==> after == before
    &&& failure is None ==> after == before.with_blocks(after.blocks)
    &&& {
        ||| failure matches Some(e) && runner::full_run(script, input, Err(e))
        ||| exists|cycles: Seq<CycleView>| #[trigger]
            runner::full_run(script, input, Ok(cycles)) && grouping(
                cycles,
                before.lines.len() as usize,
                before.hold_active,
                grouped_as(after, failure),
            )
    }
}

/// What grouping came to: the blocks of a session, or a failure.
pub open spec fn grouped_as(after: SessionView, failure: Option<SessionError>) -> Result<Seq<BlockView>, SessionError> {
    match failure {
        None => Ok(after.blocks),
        Some(e) => Err(e),
    }
}

/// What any call for blocks does to a session: the script runs on the first
/// one that succeeds, and never again.
pub open spec fn asked(before: SessionView, after: SessionView, failure: Option<SessionError>) -> bool {
    if before.computed {
        after == before && failure is None
    } else {
        ran(before, after, failure)
    }
}

/// The failure in a result.
pub open spec fn failure_of<T>(result: Result<T, SessionError>) -> Option<SessionError> {
    match result {
        Ok(_) => None,
        Err(e) => Some(e),
    }
}

/// Blocks made of cycles that grouping accepts are one or more lines each and
/// cover every input line once, in order.
pub proof fn law_grouping_partitions(cycles: Seq<CycleView>, total: usize, hold_active: bool, blocks: Seq<BlockView>)
    requires
        grouping(cycles, total, hold_active, Ok(blocks)),
    ensures
        partition(blocks, total as int),
        forall|i: int| 0 <= i < blocks.len() ==> ((#[trigger] blocks[i]).hold_after is Some <==> hold_active),
{
    assert forall|i: int| 0 <= i < blocks.len() implies (#[trigger] blocks[i]).start == block_start(blocks, i)
        && blocks[i].start <= blocks[i].end by {
        assert(blocks[i] == block_of(cycles, i, hold_active));
        assert(prev_end(cycles, i) < cycles[i].end_line);
        if i > 0 {
            assert(blocks[i - 1] == block_of(cycles, i - 1, hold_active));
        }
    }
    if blocks.len() > 0 {
        assert(blocks[blocks.len() - 1] == block_of(cycles, blocks.len() - 1, hold_active));
    }
}

impl Session {
    /// What holds of every session.
    pub open spec fn wf(&self) -> bool {
        self@.well_formed()
    }

    pub fn new(lines: Vec<String>, user_script: &str, hold_active: bool) -> (session: Session)
        ensures
            session.wf(),
            session@ == (SessionView {
                lines: text::string_views(lines@),
                wrapped_script: instrument::wrapped(user_script@),
                hold_active,
                blocks: Seq::empty(),
                computed: false,
            }),
    {
        let wrapped_script = runner::build_wrapped_script(user_script);
        let session = Session { lines, wrapped_script, hold_active, blocks: Vec::new(), computed: false };
        assert(session@.blocks =~= Seq::empty());
        session
    }

    /// Runs the script, unless it has run.
    pub fn ensure_computed(&mut self) -> (result: Result<(), SessionError>)
        requires
            old(self).wf(),
        ensures
            final(self).wf(),
            asked(old(self)@, final(self)@, failure_of(result)),
    {
        if self.computed {
            return Ok(());
        }
        let ghost before = self@;
        let cycles = runner::run_full(self.wrapped_script.as_str(), self.lines.as_slice())?;
        let ghost views = instrument::cycle_views(cycles@);
        assert(runner::full_run(before.wrapped_script, runner::input_text(before.lines), Ok(views)));
        let total: usize = self.lines.len();
        assert(total == before.lines.len());
        let blocks = group_cycles(cycles, total, self.hold_active)?;
        proof {
            law_grouping_partitions(views, total, self.hold_active, state::block_views(blocks@));
        }
        self.blocks = blocks;
        self.computed = true;
        assert(self@ == before.with_blocks(self@.blocks));
        Ok(())
    }

    /// The block of an index from 0.
    pub fn get(&mut self, idx: usize) -> (result: Result<&Block, SessionError>)
        requires
            old(self).wf(),
        ensures
            final(self).wf(),
            match result {
                Ok(block) => {
                    &&& asked(old(self)@, final(self)@, None)
                    &&& idx < final(self)@.blocks.len()
                    &&& block@ == final(self)@.blocks[idx as int]
                },
                Err(SessionError::NoSuchBlock { index, count }) => {
                    &&& asked(old(self)@, final(self)@, None)
                    &&& index == idx
                    &&& count == final(self)@.blocks.len()
                    &&& idx >= count
                },
                Err(e) => asked(old(self)@, final(self)@, Some(e)),
            },
    {
        self.ensure_computed()?;
        if idx >= self.blocks.len() {
            return Err(SessionError::NoSuchBlock { index: idx, count: self.blocks.len() });
        }
        Ok(&self.blocks[idx])
    }

    pub fn block_count(&mut self) -> (result: Result<usize, SessionError>)
        requires
            old(self).wf(),
        ensures
            final(self).wf(),
            asked(old(self)@, final(self)@, failure_of(result)),
            result matches Ok(count) ==> count == final(self)@.blocks.len(),
    {
        self.ensure_computed()?;
        Ok(self.blocks.len())
    }

    /// The number of blocks: none before the script has run.
    pub fn known_blocks(&self) -> (count: usize)
        ensures
            count == self@.blocks.len(),
    {
        self.blocks.len()
    }

    pub fn hold_active(&self) -> (active: bool)
        ensures
            active == self@.hold_active,
    {
        self.hold_active
    }

    /// Whether a block prints its pattern space. Of a block that is not there
    /// it says yes, so that nothing would be dropped.
    pub fn printed(&self, idx: usize) -> (printed: bool)
        ensures
            printed == (idx < self@.blocks.len() ==> self@.blocks[idx as int].printed),
    {
        if idx < self.blocks.len() {
            self.blocks[idx].printed
        } else {
            true
        }
    }

    /// The pattern space at the end of a block's cycle.
    pub fn cached_pattern(&self, idx: usize) -> (pattern: Option<&str>)
        ensures
            match pattern {
                Some(space) => idx < self@.blocks.len() && space@ == self@.blocks[idx as int].pattern_after,
                None => idx >= self@.blocks.len(),
            },
    {
        if idx < self.blocks.len() {
            Some(self.blocks[idx].pattern_after.as_str())
        } else {
            None
        }
    }

    /// The input lines of a block, joined by newlines.
    pub fn raw_input(&self, idx: usize) -> (input: String)
        requires
            self.wf(),
            idx < self@.blocks.len(),
        ensures
            input@ == self@.input(idx as int),
    {
        proof {
            lemma_block_inside(self@.blocks, self@.lines.len() as int, idx as int);
            assert(self.blocks@[idx as int]@ == self@.blocks[idx as int]);
        }
        self.blocks[idx].raw_input(self.lines.as_slice())
    }

    /// The first and the last line of a block, counted from 1.
    pub fn line_range(&self, idx: usize) -> (range: (usize, usize))
        requires
            self.wf(),
            idx < self@.blocks.len(),
        ensures
            range.0 == self@.blocks[idx as int].start + 1,
            range.1 == self@.blocks[idx as int].end + 1,
    {
        let total: usize = self.lines.len();
        proof {
            lemma_block_inside(self@.blocks, self@.lines.len() as int, idx as int);
            assert(self.blocks@[idx as int]@ == self@.blocks[idx as int]);
        }
        (self.blocks[idx].start + 1, self.blocks[idx].end + 1)
    }

    /// What is shown of a block.
    pub fn record(&self, idx: usize) -> (record: LineRecord)
        requires
            self.wf(),
            idx < self@.blocks.len(),
        ensures
            record@ == self@.record(idx as int),
    {
        assert(self.blocks@[idx as int]@ == self@.blocks[idx as int]);
        LineRecord {
            input: self.raw_input(idx),
            pattern_after: self.blocks[idx].pattern_after.clone(),
            printed: self.blocks[idx].printed,
            hold_after: copy_option(&self.blocks[idx].hold_after),
        }
    }
}

fn copy_option(s: &Option<String>) -> (copy: Option<String>)
    ensures
        state::option_view(copy) == state::option_view(*s),
{
    match s {
        Some(s) => Some(s.clone()),
        None => None,
    }
}

/// Blocks that cover an input lie inside it.
pub proof fn lemma_block_inside(blocks: Seq<BlockView>, total: int, i: int)
    requires
        partition(blocks, total),
        0 <= i < blocks.len(),
    ensures
        0 <= blocks[i].start <= blocks[i].end < total,
{
    lemma_starts_ascend(blocks, total, i + 1, blocks.len() as int);
    lemma_starts_ascend(blocks, total, 0, i);
    assert(blocks[i].start == block_start(blocks, i));
}

/// Of two blocks the later one starts no earlier.
proof fn lemma_starts_ascend(blocks: Seq<BlockView>, total: int, i: int, j: int)
    requires
        partition(blocks, total),
        0 <= i <= j <= blocks.len(),
    ensures
        block_start(blocks, i) <= block_start(blocks, j),
    decreases j - i,
{
    if i < j {
        lemma_starts_ascend(blocks, total, i, j - 1);
        assert(blocks[j - 1].start == block_start(blocks, j - 1));
    }
}

/// The session for an input text and a script; none for an input without
/// lines. The hold space is shown where the script uses it.
pub fn open_session(input: &str, user_script: &str) -> (session: Option<Session>)
    ensures
        session is None <==> text::lines_of(input@).len() == 0,
        session matches Some(session) ==> session.wf() && session@ == (SessionView {
            lines: text::lines_of(input@),
            wrapped_script: instrument::wrapped(user_script@),
            hold_active: command::has_bare(user_script@, seq!['h', 'H', 'g', 'G', 'x']),
            blocks: Seq::empty(),
            computed: false,
        }),
{
    let lines = input_lines(input);
    assert(text::string_views(lines@).len() == lines@.len());
    if lines.is_empty() {
        return None;
    }
    let hold_active = uses_hold_space(user_script);
    Some(Session::new(lines, user_script, hold_active))
}

} // verus!
