//! What a run leaves in a session, and what is said where it fails.

use vstd::prelude::*;

use crate::error::SessionError;
use crate::instrument::{cycle_views, cycles_in, Cycle, CycleView};
use crate::runner::{full_run, input_text, run_view};
use crate::script::{
    action_view, all_without_codes, any_reaches_out, lemma_all_without_codes, parsed_views, runnable, sed_accepts,
    sed_gives, sed_parse, Action, ActionView, Parsed, ParsedView,
};
use crate::session::{
    advances, asked, blocks_of, failure_of, grouped_as, grouped_view, grouping, lemma_block_inside, prev_end, ran, SessionView,
};
use crate::state::{block_views, option_view, Block, BlockView, LineRecord};
use crate::text::{decimal, has_newline, join_lines, law_split_undoes_join, split_newlines};

verus! {

/// Blocks and records are seen with all they hold.
pub proof fn law_views_of_blocks(blocks: Seq<Block>, record: LineRecord, s: String)
    ensures
        block_views(blocks).len() == blocks.len(),
        forall|i: int|
            #![trigger block_views(blocks)[i]]
            0 <= i < blocks.len() ==> {
                &&& block_views(blocks)[i].start == blocks[i].start
                &&& block_views(blocks)[i].end == blocks[i].end
                &&& block_views(blocks)[i].pattern_after == blocks[i].pattern_after@
                &&& block_views(blocks)[i].printed == blocks[i].printed
                &&& block_views(blocks)[i].hold_after == option_view(blocks[i].hold_after)
            },
        record@.input == record.input@,
        record@.pattern_after == record.pattern_after@,
        record@.printed == record.printed,
        record@.hold_after == option_view(record.hold_after),
        option_view(None) is None,
        option_view(Some(s)) == Some(s@),
{
}

/// Where grouping succeeds, there is one block for each cycle, in order. It
/// carries what its cycle reports, unaltered: the pattern space, whether it is
/// printed, and the hold space where that is in use. It ends on the line that
/// its cycle ends on, and begins behind the line that the cycle before ends
/// on.
pub proof fn law_block_carries_its_cycle(
    cycles: Seq<CycleView>,
    total: usize,
    hold_active: bool,
    blocks: Seq<BlockView>,
    i: int,
)
    requires
        grouping(cycles, total, hold_active, Ok(blocks)),
    ensures
        blocks.len() == cycles.len(),
        0 <= i < cycles.len() ==> blocks[i].pattern_after == cycles[i].pattern_space,
        0 <= i < cycles.len() ==> blocks[i].printed == cycles[i].printed,
        0 <= i < cycles.len() && hold_active ==> blocks[i].hold_after == Some(cycles[i].hold_space),
        0 <= i < cycles.len() && !hold_active ==> blocks[i].hold_after is None,
        0 <= i < cycles.len() ==> blocks[i].end + 1 == cycles[i].end_line,
        0 < i < cycles.len() ==> blocks[i].start == cycles[i - 1].end_line,
        cycles.len() > 0 ==> blocks[0].start == 0,
{
    lemma_block_fields(cycles, hold_active, i);
    lemma_block_fields(cycles, hold_active, 0);
}

proof fn lemma_block_fields(cycles: Seq<CycleView>, hold_active: bool, i: int)
    ensures
        blocks_of(cycles, hold_active).len() == cycles.len(),
        0 <= i < cycles.len() ==> {
            let block = blocks_of(cycles, hold_active)[i];
            &&& block.pattern_after == cycles[i].pattern_space
            &&& block.printed == cycles[i].printed
            &&& hold_active ==> block.hold_after == Some(cycles[i].hold_space)
            &&& !hold_active ==> block.hold_after is None
            &&& block.end + 1 == cycles[i].end_line
            &&& i > 0 ==> block.start == cycles[i - 1].end_line
            &&& i == 0 ==> block.start == 0
        },
{
}

/// Grouping succeeds exactly where the cycles end on later and later lines,
/// the first one on a line, and the last one on the last line of the input.
pub proof fn law_when_cycles_are_grouped(
    cycles: Seq<CycleView>,
    total: usize,
    hold_active: bool,
    result: Result<Seq<BlockView>, SessionError>,
)
    requires
        grouping(cycles, total, hold_active, result),
    ensures
        result is Ok <==> {
            &&& forall|i: int|
                0 <= i < cycles.len() ==> (#[trigger] cycles[i]).end_line > if i == 0 {
                    0
                } else {
                    cycles[i - 1].end_line as int
                }
            &&& total == if cycles.len() == 0 { 0 } else { cycles[cycles.len() - 1].end_line as int }
        },
{
    let n = cycles.len() as int;
    if let Err(SessionError::LineNotAdvanced { prev_end: p, end_line: e }) = result {
        let i = choose|i: int|
            {
                &&& 0 <= i < n
                &&& p == prev_end(cycles, i)
                &&& e == (#[trigger] cycles[i]).end_line
                &&& e <= p
            };
        assert(!(cycles[i].end_line > if i == 0 { 0 } else { cycles[i - 1].end_line as int }));
    }
    if result is Ok || result matches Err(SessionError::EarlyExit { .. }) {
        assert forall|i: int| 0 <= i < n implies (#[trigger] cycles[i]).end_line > if i == 0 {
            0
        } else {
            cycles[i - 1].end_line as int
        } by {
            assert(prev_end(cycles, i) < cycles[i].end_line);
        }
    }
}

/// Where grouping fails, it names the first cycle that does not end on a later
/// line than the one before, by both lines; or, where all do, how many of the
/// input lines they cover.
pub proof fn law_why_cycles_are_not_grouped(
    cycles: Seq<CycleView>,
    total: usize,
    hold_active: bool,
    error: SessionError,
)
    requires
        grouping(cycles, total, hold_active, Err(error)),
    ensures
        match error {
            SessionError::LineNotAdvanced { prev_end, end_line } => exists|i: int|
                {
                    &&& 0 <= i < cycles.len()
                    &&& (#[trigger] cycles[i]).end_line == end_line
                    &&& prev_end == if i == 0 { 0 } else { cycles[i - 1].end_line as int }
                    &&& end_line <= prev_end
                    &&& forall|j: int|
                        0 <= j < i ==> (#[trigger] cycles[j]).end_line > if j == 0 {
                            0
                        } else {
                            cycles[j - 1].end_line as int
                        }
                },
            SessionError::EarlyExit { consumed, total: of } => {
                &&& consumed == if cycles.len() == 0 { 0 } else { cycles[cycles.len() - 1].end_line as int }
                &&& of == total
                &&& consumed != total
            },
            _ => false,
        },
{
    let n = cycles.len() as int;
    if let SessionError::LineNotAdvanced { prev_end: p, end_line: e } = error {
        let i = choose|i: int|
            {
                &&& 0 <= i < n
                &&& advances(cycles, i)
                &&& p == prev_end(cycles, i)
                &&& e == (#[trigger] cycles[i]).end_line
                &&& e <= p
            };
        assert(cycles[i].end_line == e);
        assert forall|j: int| 0 <= j < i implies (#[trigger] cycles[j]).end_line > if j == 0 {
            0
        } else {
            cycles[j - 1].end_line as int
        } by {
            assert(prev_end(cycles, j) < cycles[j].end_line);
        }
    }
}

/// Results are seen with the blocks, the cycles or the error that they hold.
pub proof fn law_views_of_results(
    blocks: Vec<Block>,
    cycles: Vec<Cycle>,
    error: SessionError,
    after: SessionView,
)
    ensures
        grouped_view(Ok(blocks)) == Ok::<Seq<BlockView>, SessionError>(block_views(blocks@)),
        grouped_view(Err(error)) == Err::<Seq<BlockView>, SessionError>(error),
        run_view(Ok(cycles)) == Ok::<Seq<CycleView>, SessionError>(cycle_views(cycles@)),
        run_view(Err(error)) == Err::<Seq<CycleView>, SessionError>(error),
        failure_of::<usize>(Err(error)) == Some(error),
        failure_of::<usize>(Ok(0)) is None,
        failure_of::<()>(Err(error)) == Some(error),
        failure_of::<()>(Ok(())) is None,
        grouped_as(after, None) == Ok::<Seq<BlockView>, SessionError>(after.blocks),
        grouped_as(after, Some(error)) == Err::<Seq<BlockView>, SessionError>(error),
{
}

/// An input is handed over line by line, each line with a newline behind it.
pub proof fn law_input_line_by_line(lines: Seq<Seq<char>>, line: Seq<char>)
    ensures
        input_text(Seq::empty()) == seq!['\n'],
        input_text(seq![line]) == line + seq!['\n'],
        lines.len() > 0 ==> input_text(lines.push(line)) == input_text(lines) + line + seq!['\n'],
{
    assert(lines.push(line).drop_last() =~= lines);
    assert(input_text(Seq::empty()) =~= seq!['\n']);
    if lines.len() > 0 {
        assert(input_text(lines.push(line)) =~= input_text(lines) + line + seq!['\n']);
    }
}

/// A run comes to cycles only where sed takes the script, and then they are
/// those that an output reports which the commands of the script, without
/// exit codes, can give for the input. It comes to an error of sed only where
/// sed does not take the script, or where the commands can fail; and to no
/// other error. Commands that need nothing but the input do not fail, and
/// whatever they can give reports the same cycles.
pub proof fn law_what_a_run_comes_to(
    script: Seq<char>,
    input: Seq<char>,
    result: Result<Seq<CycleView>, SessionError>,
)
    requires
        full_run(script, input, result),
    ensures
        ({
            let commands = all_without_codes(sed_parse(script));
            match result {
                Ok(cycles) => {
                    &&& sed_accepts(script)
                    &&& exists|stdout: Seq<char>| #[trigger]
                        sed_gives(commands, input, Some(stdout)) && cycles == cycles_in(stdout)
                    &&& !any_reaches_out(sed_parse(script)) ==> forall|stdout: Seq<char>| #[trigger]
                        sed_gives(commands, input, Some(stdout)) ==> cycles == cycles_in(stdout)
                },
                Err(SessionError::ParseScript(_)) => !sed_accepts(script),
                Err(SessionError::RunScript(_)) => {
                    &&& sed_accepts(script)
                    &&& sed_gives(commands, input, None)
                    &&& any_reaches_out(sed_parse(script))
                },
                Err(_) => false,
            }
        }),
{
}

/// A run that succeeds leaves everything of a session but its blocks, which
/// carry what the cycles in an output of the script report, one for one, and
/// end with the last line. One that fails leaves everything.
pub proof fn law_what_a_run_leaves(before: SessionView, after: SessionView, failure: Option<SessionError>)
    requires
        ran(before, after, failure),
        before.lines.len() <= usize::MAX,
    ensures
        after.lines == before.lines,
        after.wrapped_script == before.wrapped_script,
        after.hold_active == before.hold_active,
        failure is Some ==> after.blocks == before.blocks && after.computed == before.computed,
        failure is None ==> after.computed && exists|stdout: Seq<char>|
            {
                let cycles = cycles_in(stdout);
                &&& #[trigger] sed_gives(
                    all_without_codes(sed_parse(before.wrapped_script)),
                    input_text(before.lines),
                    Some(stdout),
                )
                &&& after.blocks.len() == cycles.len()
                &&& forall|i: int|
                    #![trigger after.blocks[i]]
                    0 <= i < cycles.len() ==> {
                        &&& after.blocks[i].pattern_after == cycles[i].pattern_space
                        &&& after.blocks[i].printed == cycles[i].printed
                        &&& after.blocks[i].end + 1 == cycles[i].end_line
                        &&& before.hold_active ==> after.blocks[i].hold_after == Some(cycles[i].hold_space)
                    }
                &&& before.lines.len() == if cycles.len() == 0 { 0 } else { cycles[cycles.len() - 1].end_line as int }
            },
{
    if failure is None {
        let script = before.wrapped_script;
        let input = input_text(before.lines);
        let total = before.lines.len() as usize;
        let cycles = choose|cycles: Seq<CycleView>| #[trigger]
            full_run(script, input, Ok(cycles)) && grouping(
                cycles,
                total,
                before.hold_active,
                grouped_as(after, failure),
            );
        law_what_a_run_comes_to(script, input, Ok(cycles));
        assert forall|i: int|
            #![trigger after.blocks[i]]
            0 <= i < cycles.len() implies {
            &&& after.blocks[i].pattern_after == cycles[i].pattern_space
            &&& after.blocks[i].printed == cycles[i].printed
            &&& after.blocks[i].end + 1 == cycles[i].end_line
            &&& before.hold_active ==> after.blocks[i].hold_after == Some(cycles[i].hold_space)
        } by {
            law_block_carries_its_cycle(cycles, total, before.hold_active, after.blocks, i);
        }
        law_block_carries_its_cycle(cycles, total, before.hold_active, after.blocks, 0);
        law_when_cycles_are_grouped(cycles, total, before.hold_active, Ok(after.blocks));
        let stdout = choose|stdout: Seq<char>| #[trigger]
            sed_gives(runnable(script), input, Some(stdout)) && cycles == cycles_in(stdout);
        assert(sed_gives(all_without_codes(sed_parse(script)), input, Some(stdout)));
    }
}

/// A call for blocks is a run the first time, and nothing after a run that
/// succeeded.
pub proof fn law_what_a_call_does(before: SessionView, after: SessionView, failure: Option<SessionError>)
    requires
        asked(before, after, failure),
    ensures
        before.computed ==> failure is None && after == before,
        !before.computed ==> ran(before, after, failure),
{
}

/// Every line of the input is in one block, and in one only.
pub proof fn law_every_line_in_one_block(v: SessionView, line: int)
    requires
        v.well_formed(),
        v.computed,
        0 <= line < v.lines.len(),
    ensures
        exists|i: int|
            {
                &&& 0 <= i < v.blocks.len()
                &&& (#[trigger] v.blocks[i]).start <= line <= v.blocks[i].end
                &&& forall|j: int|
                    0 <= j < v.blocks.len() && (#[trigger] v.blocks[j]).start <= line <= v.blocks[j].end ==> j == i
            },
{
    let n = v.blocks.len() as int;
    let i = lemma_find_block(v, line, n);
    assert(v.blocks[i].start <= line <= v.blocks[i].end);
    assert forall|j: int| 0 <= j < n && (#[trigger] v.blocks[j]).start <= line <= v.blocks[j].end implies j == i by {
        if j < i {
            lemma_blocks_apart(v, j, i);
        } else if i < j {
            lemma_blocks_apart(v, i, j);
        }
    }
}

proof fn lemma_find_block(v: SessionView, line: int, n: int) -> (i: int)
    requires
        v.well_formed(),
        v.computed,
        0 < n <= v.blocks.len() || n == v.blocks.len() == 0,
        n == 0 ==> v.lines.len() > 0,
        0 <= line < if n == 0 { v.lines.len() as int } else { v.blocks[n - 1].end + 1 },
    ensures
        0 <= i < n,
        v.blocks[i].start <= line <= v.blocks[i].end,
    decreases n,
{
    if n == 0 {
        assert(v.blocks.len() == 0);
        0
    } else {
        assert(v.blocks[n - 1].start == if n == 1 { 0 } else { v.blocks[n - 2].end + 1 });
        if line < v.blocks[n - 1].start {
            lemma_find_block(v, line, n - 1)
        } else {
            n - 1
        }
    }
}

proof fn lemma_blocks_apart(v: SessionView, i: int, j: int)
    requires
        v.well_formed(),
        v.computed,
        0 <= i < j < v.blocks.len(),
    ensures
        v.blocks[i].end < v.blocks[j].start,
    decreases j - i,
{
    assert(v.blocks[j].start == v.blocks[j - 1].end + 1);
    if i < j - 1 {
        lemma_blocks_apart(v, i, j - 1);
        assert(v.blocks[j - 1].start <= v.blocks[j - 1].end);
    }
}

/// What is shown of a block is its own: its lines, joined by newlines, and what
/// its cycle left.
pub proof fn law_what_is_shown_of_a_block(v: SessionView, i: int)
    ensures
        v.input(i) == join_lines(v.lines.subrange(v.blocks[i].start, v.blocks[i].end + 1)),
        v.record(i).input == v.input(i),
        v.record(i).pattern_after == v.blocks[i].pattern_after,
        v.record(i).printed == v.blocks[i].printed,
        v.record(i).hold_after == v.blocks[i].hold_after,
{
}

/// The input of a block is the text of its lines: split at its newlines, it is
/// those lines again.
pub proof fn law_input_of_a_block(v: SessionView, i: int)
    requires
        v.well_formed(),
        0 <= i < v.blocks.len(),
        forall|l: int| 0 <= l < v.lines.len() ==> !(#[trigger] v.lines[l]).contains('\n'),
    ensures
        split_newlines(v.input(i)).len() == v.blocks[i].end - v.blocks[i].start + 1,
        forall|l: int|
            v.blocks[i].start <= l <= v.blocks[i].end ==> split_newlines(v.input(i))[l - v.blocks[i].start]
                == #[trigger] v.lines[l],
{
    lemma_block_inside(v.blocks, v.lines.len() as int, i);
    let own = v.lines.subrange(v.blocks[i].start, v.blocks[i].end + 1);
    assert forall|k: int| 0 <= k < own.len() implies !has_newline(#[trigger] own[k]) by {
        assert(own[k] == v.lines[v.blocks[i].start + k]);
    }
    law_split_undoes_join(own);
    assert(v.input(i) == join_lines(own));
    assert forall|l: int| v.blocks[i].start <= l <= v.blocks[i].end implies split_newlines(v.input(i))[l
        - v.blocks[i].start] == #[trigger] v.lines[l] by {
        assert(own[l - v.blocks[i].start] == v.lines[l]);
    }
}

/// The commands of a script are seen one by one, in order, with all they hold.
pub proof fn law_views_of_commands(commands: Seq<Parsed>, i: int)
    requires
        0 <= i < commands.len(),
    ensures
        parsed_views(commands).len() == commands.len(),
        parsed_views(commands)[i].address == commands[i].address,
        match (commands[i].action, parsed_views(commands)[i].action) {
            (Action::Quit(code), ActionView::Quit(seen)) => seen == code,
            (Action::QuitSilently(code), ActionView::QuitSilently(seen)) => seen == code,
            (Action::Group(inner), ActionView::Group(seen)) => seen == parsed_views(inner@),
            (Action::Substitute(file, rest), ActionView::Substitute(seen, other)) => seen == option_view(file)
                && other == rest,
            (Action::ReadFile(file), ActionView::ReadFile(seen)) => seen == file@,
            (Action::ReadLine(file), ActionView::ReadLine(seen)) => seen == file@,
            (Action::WriteFile(file), ActionView::WriteFile(seen)) => seen == file@,
            (Action::WriteFirstLine(file), ActionView::WriteFirstLine(seen)) => seen == file@,
            (Action::Execute(line), ActionView::Execute(seen)) => seen == option_view(line),
            (Action::Other(command), ActionView::Other(seen)) => seen == command,
            _ => false,
        },
    decreases commands.len(),
{
    let init = commands.drop_last();
    let last = commands.last();
    let seen = ParsedView { address: last.address, action: action_view(last.action) };
    assert(parsed_views(commands) == parsed_views(init).push(seen));
    lemma_parsed_views_len(init);
    if i < init.len() {
        law_views_of_commands(init, i);
        assert(init[i] == commands[i]);
        assert(parsed_views(commands)[i] == parsed_views(init)[i]);
    }
}

proof fn lemma_parsed_views_len(commands: Seq<Parsed>)
    ensures
        parsed_views(commands).len() == commands.len(),
    decreases commands.len(),
{
    if commands.len() > 0 {
        let last = commands.last();
        let seen = ParsedView { address: last.address, action: action_view(last.action) };
        lemma_parsed_views_len(commands.drop_last());
        assert(parsed_views(commands) == parsed_views(commands.drop_last()).push(seen));
    }
}

/// Commands on files and programs, and they alone, reach out of the input; a
/// group does where a command in it does.
pub proof fn law_what_reaches_out(commands: Seq<ParsedView>)
    ensures
        any_reaches_out(commands) <==> exists|i: int|
            0 <= i < commands.len() && match (#[trigger] commands[i]).action {
                ActionView::Substitute(file, _) => file is Some,
                ActionView::ReadFile(_) => true,
                ActionView::ReadLine(_) => true,
                ActionView::WriteFile(_) => true,
                ActionView::WriteFirstLine(_) => true,
                ActionView::Execute(_) => true,
                ActionView::Group(inner) => any_reaches_out(inner),
                ActionView::Quit(_) => false,
                ActionView::QuitSilently(_) => false,
                ActionView::Other(_) => false,
            },
{
    if any_reaches_out(commands) {
        let i = choose|i: int| 0 <= i < commands.len() && (#[trigger] commands[i]).action.reaches_out();
        assert(0 <= i < commands.len());
    }
}

/// What is run for a script are its own commands: as many, behind the same
/// addresses, each doing the same, but for exit codes other than 0, which are
/// left out, in groups too.
pub proof fn law_only_exit_codes_left_out(script: Seq<char>, commands: Seq<ParsedView>, i: int)
    requires
        0 <= i < commands.len(),
    ensures
        runnable(script) == all_without_codes(sed_parse(script)),
        all_without_codes(commands).len() == commands.len(),
        all_without_codes(commands)[i].address == commands[i].address,
        match commands[i].action {
            ActionView::Quit(code) => all_without_codes(commands)[i].action == ActionView::Quit(
                if code == Some(0i32) {
                    code
                } else {
                    None
                },
            ),
            ActionView::QuitSilently(code) => all_without_codes(commands)[i].action == ActionView::QuitSilently(
                if code == Some(0i32) {
                    code
                } else {
                    None
                },
            ),
            ActionView::Group(inner) => all_without_codes(commands)[i].action == ActionView::Group(
                all_without_codes(inner),
            ),
            action => all_without_codes(commands)[i].action == action,
        },
{
    lemma_all_without_codes(commands);
}

/// Every message says what went wrong, with the numbers that belong to it.
pub proof fn law_messages(error: SessionError)
    ensures
        match error {
            SessionError::ParseScript(_) => error.text() == "failed to parse sed script"@,
            SessionError::RunScript(_) => error.text() == "sed script failed"@,
            SessionError::LineNotAdvanced { prev_end, end_line } => error.text()
                == "sed's reported line number didn't advance ("@ + decimal(prev_end as nat) + " -> "@ + decimal(
                end_line as nat,
            ) + ") — malformed instrumentation"@,
            SessionError::EarlyExit { consumed, total } => error.text() == "script only consumed "@ + decimal(
                consumed as nat,
            ) + " of "@ + decimal(total as nat) + " input lines — early exit (q/Q) isn't supported yet"@,
            SessionError::NoSuchBlock { index, count } => error.text() == "no block "@ + decimal(index as nat)
                + " among "@ + decimal(count as nat),
        },
{
}

} // verus!
