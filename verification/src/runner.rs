//! Runs an instrumented script through `sed_rs`.
//!
//! The script runs once, over the whole input: on a part of the input every
//! address with `$` would take the end of the part for the last line.

use vstd::prelude::*;

use crate::error::SessionError;
use crate::instrument;
use crate::instrument::{parse_cycles, wrap_script, Cycle, CycleView};
use crate::script;
use crate::script::{drop_exit_codes, law_no_exit_left, law_reach_kept, read_script, run_quiet};
use crate::text;
use crate::text::join_range;

verus! {

/// The text that the lines of an input make up, each ended by a newline.
pub open spec fn input_text(lines: Seq<Seq<char>>) -> Seq<char> {
    text::join_lines(lines) + seq!['\n']
}

pub fn build_wrapped_script(user_script: &str) -> (script: String)
    ensures
        script@ == instrument::wrapped(user_script@),
{
    wrap_script(user_script)
}

/// What is made of sed's reply: the cycles that its output reports; or its
/// error, where it takes no script (the outer one) or where the script fails
/// (the inner one).
pub fn cycles_of(reply: Result<Result<String, sed_rs::Error>, sed_rs::Error>) -> (cycles: Result<
    Vec<Cycle>,
    SessionError,
>)
    ensures
        match reply {
            Err(refusal) => cycles == Err::<Vec<Cycle>, SessionError>(SessionError::ParseScript(refusal)),
            Ok(Err(failure)) => cycles == Err::<Vec<Cycle>, SessionError>(SessionError::RunScript(failure)),
            Ok(Ok(stdout)) => cycles is Ok && instrument::cycle_views(cycles->Ok_0@) == instrument::cycles_in(
                stdout@,
            ),
        },
{
    match reply {
        Err(refusal) => Err(SessionError::ParseScript(refusal)),
        Ok(Err(failure)) => Err(SessionError::RunScript(failure)),
        Ok(Ok(stdout)) => Ok(parse_cycles(stdout.as_str())),
    }
}

/// What a run of an instrumented script over an input can come to: an error
/// where sed does not take the script; else the cycles in an output that its
/// commands can give for the input, or an error where they can fail. A script
/// that needs nothing but its input does not fail and has one output.
pub open spec fn full_run(
    script: Seq<char>,
    input: Seq<char>,
    result: Result<Seq<CycleView>, SessionError>,
) -> bool {
    let commands = script::runnable(script);
    match result {
        Err(SessionError::ParseScript(_)) => !script::sed_accepts(script),
        Err(SessionError::RunScript(_)) => {
            &&& script::sed_accepts(script) && !script::self_contained(script)
            &&& script::sed_gives(commands, input, None)
        },
        Ok(cycles) => {
            &&& script::sed_accepts(script)
            &&& exists|stdout: Seq<char>| #[trigger]
                script::sed_gives(commands, input, Some(stdout)) && cycles == instrument::cycles_in(stdout)
            &&& script::self_contained(script) ==> forall|outcome: Option<Seq<char>>| #[trigger]
                script::sed_gives(commands, input, outcome) ==> outcome is Some && cycles == instrument::cycles_in(
                    outcome->0,
                )
        },
        _ => false,
    }
}

/// The cycles in a result as plain values.
pub open spec fn run_view(result: Result<Vec<Cycle>, SessionError>) -> Result<Seq<CycleView>, SessionError> {
    match result {
        Ok(cycles) => Ok(instrument::cycle_views(cycles@)),
        Err(e) => Err(e),
    }
}

/// Runs an instrumented script once over all lines of the input, and reads
/// the cycles from what it prints. A `q` or `Q` ends the run where it is
/// reached; its exit code, which would end the process, is left out.
pub fn run_full(wrapped_script: &str, all_lines: &[String]) -> (cycles: Result<Vec<Cycle>, SessionError>)
    ensures
        full_run(wrapped_script@, input_text(text::string_views(all_lines@)), run_view(cycles)),
{
    let mut input = join_range(all_lines, 0, all_lines.len());
    assert(text::string_views(all_lines@).subrange(0, all_lines@.len() as int) =~= text::string_views(all_lines@));
    input.append("\n");
    proof {
        reveal_strlit("\n");
        assert("\n"@ =~= seq!['\n']);
        assert(input@ == input_text(text::string_views(all_lines@)));
    }
    let reply = match read_script(wrapped_script) {
        Err(refusal) => Err(refusal),
        Ok(commands) => {
            let commands = drop_exit_codes(commands);
            proof {
                let read = script::sed_parse(wrapped_script@);
                law_no_exit_left(read);
                law_reach_kept(read);
                assert(script::parsed_views(commands@) == script::runnable(wrapped_script@));
            }
            Ok(run_quiet(commands, input.as_str()))
        },
    };
    cycles_of(reply)
}

} // verus!
