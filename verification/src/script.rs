//! A sed script as `sed_rs` reads it, and the run of its commands.

use sed_rs::command::{parse, AddressRange, Command, SedCommand, SubstituteCmd};
use sed_rs::engine::Engine;
use sed_rs::{Options, Sed};
use vstd::prelude::*;

use crate::state::option_view;

verus! {

/// The addresses before a command, of the `sed_rs` crate. Its values are only
/// carried.
#[verifier::external_type_specification]
#[verifier::external_body]
pub struct ExAddressRange(AddressRange);

/// A command of the `sed_rs` crate. Its values are only carried.
#[verifier::external_type_specification]
#[verifier::external_body]
pub struct ExCommand(Command);

/// What an `s` of the `sed_rs` crate does. Its values are only carried.
#[verifier::external_type_specification]
#[verifier::external_body]
pub struct ExSubstituteCmd(SubstituteCmd);

/// A command in a script, behind its addresses.
#[derive(Debug)]
pub struct Parsed {
    pub address: AddressRange,
    pub action: Action,
}

/// What a command does, as far as it matters here.
#[derive(Debug)]
pub enum Action {
    /// `q`, with its exit code if it gives one.
    Quit(Option<i32>),
    /// `Q`, with its exit code if it gives one.
    QuitSilently(Option<i32>),
    /// The commands between `{` and `}`.
    Group(Vec<Parsed>),
    /// `s`, with the file that its flag `w` names, and the rest of it.
    Substitute(Option<String>, SubstituteCmd),
    /// `r` and its file.
    ReadFile(String),
    /// `R` and its file.
    ReadLine(String),
    /// `w` and its file.
    WriteFile(String),
    /// `W` and its file.
    WriteFirstLine(String),
    /// `e`, with the command that it runs if it gives one.
    Execute(Option<String>),
    /// Any other command.
    Other(Command),
}

/// A command in a script, with plain values where they matter.
pub struct ParsedView {
    pub address: AddressRange,
    pub action: ActionView,
}

/// What a command does, with plain values where they matter.
pub enum ActionView {
    Quit(Option<i32>),
    QuitSilently(Option<i32>),
    Group(Seq<ParsedView>),
    Substitute(Option<Seq<char>>, SubstituteCmd),
    ReadFile(Seq<char>),
    ReadLine(Seq<char>),
    WriteFile(Seq<char>),
    WriteFirstLine(Seq<char>),
    Execute(Option<Seq<char>>),
    Other(Command),
}

pub open spec fn action_view(action: Action) -> ActionView
    decreases action,
{
    match action {
        Action::Quit(code) => ActionView::Quit(code),
        Action::QuitSilently(code) => ActionView::QuitSilently(code),
        Action::Group(commands) => ActionView::Group(parsed_views(commands@)),
        Action::Substitute(file, substitute) => ActionView::Substitute(option_view(file), substitute),
        Action::ReadFile(file) => ActionView::ReadFile(file@),
        Action::ReadLine(file) => ActionView::ReadLine(file@),
        Action::WriteFile(file) => ActionView::WriteFile(file@),
        Action::WriteFirstLine(file) => ActionView::WriteFirstLine(file@),
        Action::Execute(line) => ActionView::Execute(option_view(line)),
        Action::Other(command) => ActionView::Other(command),
    }
}

/// The commands of a sequence, with plain values where they matter.
pub open spec fn parsed_views(commands: Seq<Parsed>) -> Seq<ParsedView>
    decreases commands,
{
    if commands.len() == 0 {
        Seq::empty()
    } else {
        let last = commands.last();
        parsed_views(commands.drop_last()).push(
            ParsedView { address: last.address, action: action_view(last.action) },
        )
    }
}

impl ActionView {
    /// Whether the command, or one in its group, quits with an exit code
    /// other than 0.
    pub open spec fn exits(self) -> bool
        decreases self,
    {
        match self {
            ActionView::Quit(code) => is_exit_code(code),
            ActionView::QuitSilently(code) => is_exit_code(code),
            ActionView::Group(commands) => exists|i: int|
                0 <= i < commands.len() && (#[trigger] commands[i]).action.exits(),
            _ => false,
        }
    }

    /// Whether the command, or one in its group, reads or writes a file or
    /// runs a program.
    pub open spec fn reaches_out(self) -> bool
        decreases self,
    {
        match self {
            ActionView::Substitute(file, _) => file is Some,
            ActionView::ReadFile(_) => true,
            ActionView::ReadLine(_) => true,
            ActionView::WriteFile(_) => true,
            ActionView::WriteFirstLine(_) => true,
            ActionView::Execute(_) => true,
            ActionView::Group(commands) => exists|i: int|
                0 <= i < commands.len() && (#[trigger] commands[i]).action.reaches_out(),
            _ => false,
        }
    }

    /// The same command, and those in its group, without an exit code other
    /// than 0.
    pub open spec fn without_codes(self) -> ActionView
        decreases self,
    {
        match self {
            ActionView::Quit(code) => ActionView::Quit(plain_code(code)),
            ActionView::QuitSilently(code) => ActionView::QuitSilently(plain_code(code)),
            ActionView::Group(commands) => ActionView::Group(all_without_codes(commands)),
            _ => self,
        }
    }
}

pub open spec fn is_exit_code(code: Option<i32>) -> bool {
    code matches Some(n) && n != 0
}

/// A code, or none in place of one other than 0.
pub open spec fn plain_code(code: Option<i32>) -> Option<i32> {
    if is_exit_code(code) {
        None
    } else {
        code
    }
}

/// Whether one of the commands quits with an exit code other than 0.
pub open spec fn any_exits(commands: Seq<ParsedView>) -> bool {
    exists|i: int| 0 <= i < commands.len() && (#[trigger] commands[i]).action.exits()
}

/// Whether one of the commands reads or writes a file or runs a program.
pub open spec fn any_reaches_out(commands: Seq<ParsedView>) -> bool {
    exists|i: int| 0 <= i < commands.len() && (#[trigger] commands[i]).action.reaches_out()
}

/// The same commands without exit codes other than 0: each of them quits where
/// it did.
pub open spec fn all_without_codes(commands: Seq<ParsedView>) -> Seq<ParsedView>
    decreases commands,
{
    if commands.len() == 0 {
        Seq::empty()
    } else {
        let last = commands.last();
        all_without_codes(commands.drop_last()).push(
            ParsedView { address: last.address, action: last.action.without_codes() },
        )
    }
}

pub proof fn lemma_all_without_codes(commands: Seq<ParsedView>)
    ensures
        all_without_codes(commands).len() == commands.len(),
        forall|i: int|
            0 <= i < commands.len() ==> (#[trigger] all_without_codes(commands)[i]).address == commands[i].address
                && all_without_codes(commands)[i].action == commands[i].action.without_codes(),
    decreases commands.len(),
{
    if commands.len() > 0 {
        let init = commands.drop_last();
        let last = commands.last();
        lemma_all_without_codes(init);
        let kept = ParsedView { address: last.address, action: last.action.without_codes() };
        assert(all_without_codes(commands) == all_without_codes(init).push(kept));
        assert forall|i: int| 0 <= i < commands.len() implies (#[trigger] all_without_codes(commands)[i]).address
            == commands[i].address && all_without_codes(commands)[i].action == commands[i].action.without_codes() by {
            if i < commands.len() - 1 {
                assert(init[i] == commands[i]);
                assert(all_without_codes(commands)[i] == all_without_codes(init)[i]);
            }
        }
    }
}

/// No exit code other than 0 is left.
pub proof fn law_no_exit_left(commands: Seq<ParsedView>)
    ensures
        !any_exits(all_without_codes(commands)),
    decreases commands,
{
    let kept = all_without_codes(commands);
    lemma_all_without_codes(commands);
    assert forall|i: int| 0 <= i < kept.len() implies !(#[trigger] kept[i]).action.exits() by {
        let action = commands[i].action;
        if let ActionView::Group(inner) = action {
            law_no_exit_left(inner);
            assert(kept[i].action == ActionView::Group(all_without_codes(inner)));
        }
    }
}

/// Leaving out exit codes makes no difference to whether files or programs are
/// reached.
pub proof fn law_reach_kept(commands: Seq<ParsedView>)
    ensures
        any_reaches_out(all_without_codes(commands)) == any_reaches_out(commands),
    decreases commands,
{
    let kept = all_without_codes(commands);
    lemma_all_without_codes(commands);
    assert forall|i: int| 0 <= i < kept.len() implies (#[trigger] kept[i]).action.reaches_out()
        == commands[i].action.reaches_out() by {
        let action = commands[i].action;
        if let ActionView::Group(inner) = action {
            law_reach_kept(inner);
            assert(kept[i].action == ActionView::Group(all_without_codes(inner)));
        }
    }
    if any_reaches_out(commands) {
        let i = choose|i: int| 0 <= i < commands.len() && (#[trigger] commands[i]).action.reaches_out();
        assert(kept[i].action.reaches_out());
    }
}

/// Commands without exit codes other than 0 stay as they are.
pub proof fn law_plain_commands_kept(commands: Seq<ParsedView>)
    requires
        !any_exits(commands),
    ensures
        all_without_codes(commands) == commands,
    decreases commands,
{
    let kept = all_without_codes(commands);
    lemma_all_without_codes(commands);
    assert forall|i: int| 0 <= i < kept.len() implies #[trigger] kept[i] == commands[i] by {
        let action = commands[i].action;
        assert(!action.exits());
        if let ActionView::Group(inner) = action {
            assert(!any_exits(inner));
            law_plain_commands_kept(inner);
        }
    }
    assert(kept =~= commands);
}

/// Whether `Sed::new` of `sed_rs` takes a text for a script.
pub uninterp spec fn sed_accepts(script: Seq<char>) -> bool;

/// The commands that `command::parse` of `sed_rs` finds in a script that it
/// takes.
pub uninterp spec fn sed_parse(script: Seq<char>) -> Seq<ParsedView>;

/// The commands that are run for a script: its own, without their exit codes.
pub open spec fn runnable(script: Seq<char>) -> Seq<ParsedView> {
    all_without_codes(sed_parse(script))
}

/// Whether commands are those that are run for a script that sed takes.
pub open spec fn are_runnable(commands: Seq<ParsedView>) -> bool {
    exists|script: Seq<char>| sed_accepts(script) && commands == #[trigger] runnable(script)
}

/// Whether a script needs nothing but its input: it has no command on files
/// or programs.
pub open spec fn self_contained(script: Seq<char>) -> bool {
    !any_reaches_out(sed_parse(script))
}

/// A command of `sed_rs` as one of this library: which command it is, and its
/// fields, all of them kept. Nothing is claimed of it here; [`read_script`],
/// which it serves, says what comes out for a whole script.
#[verifier::external_body]
fn action_of(command: Command) -> (action: Action) {
    match command {
        Command::Quit(code) => Action::Quit(code),
        Command::QuitNoprint(code) => Action::QuitSilently(code),
        Command::Block(inner) => Action::Group(
            inner.into_iter().map(|c| Parsed { address: c.address, action: action_of(c.command) }).collect(),
        ),
        Command::Substitute(mut rest) => Action::Substitute(rest.write_file.take(), rest),
        Command::ReadFile(file) => Action::ReadFile(file),
        Command::ReadLine(file) => Action::ReadLine(file),
        Command::WriteFile(file) => Action::WriteFile(file),
        Command::WriteFirstLine(file) => Action::WriteFirstLine(file),
        Command::Execute(line) => Action::Execute(line),
        other => Action::Other(other),
    }
}

/// A command of this library as one of `sed_rs`: the way back from
/// `action_of`. Nothing is claimed of it here; it serves the run of commands.
#[verifier::external_body]
fn command_of(action: Action) -> (command: Command) {
    match action {
        Action::Quit(code) => Command::Quit(code),
        Action::QuitSilently(code) => Command::QuitNoprint(code),
        Action::Group(inner) => Command::Block(
            inner.into_iter().map(|c| SedCommand { address: c.address, command: command_of(c.action) }).collect(),
        ),
        Action::Substitute(write_file, rest) => Command::Substitute(SubstituteCmd { write_file, ..rest }),
        Action::ReadFile(file) => Command::ReadFile(file),
        Action::ReadLine(file) => Command::ReadLine(file),
        Action::WriteFile(file) => Command::WriteFile(file),
        Action::WriteFirstLine(file) => Command::WriteFirstLine(file),
        Action::Execute(line) => Command::Execute(line),
        Action::Other(other) => other,
    }
}

/// `Sed::new` and `command::parse` of the `sed_rs` crate. Whether `Sed::new`
/// takes the text for a script depends on the text alone. It parses the text
/// first, so for a script that it takes `command::parse` succeeds, and what
/// that finds depends on the text alone.
#[verifier::external_body]
pub(crate) fn read_script(script: &str) -> (reply: Result<Vec<Parsed>, sed_rs::Error>)
    ensures
        reply is Ok <==> sed_accepts(script@),
        reply matches Ok(commands) ==> parsed_views(commands@) == sed_parse(script@),
{
    Sed::new(script)?;
    Ok(parse(script)?.into_iter().map(|c| Parsed { address: c.address, action: action_of(c.command) }).collect())
}

/// Whether `Engine::process_stream` of `sed_rs`, in quiet mode, can give an
/// outcome for commands and an input: an output, or no output but an error.
/// There may be several outcomes: commands can read and write files and run
/// programs.
pub uninterp spec fn sed_gives(commands: Seq<ParsedView>, input: Seq<char>, outcome: Option<Seq<char>>) -> bool;

/// `Engine::new` and `Engine::process_stream` of the `sed_rs` crate, in quiet
/// mode: what `Sed::eval` makes of the commands in a script. The result is one
/// that they can give for the commands and the input. Commands that reach
/// neither files nor programs cannot fail, and have one output only; what
/// others give rests on files and programs outside. A command that quits with
/// an exit code other than 0 would end the process, and is left out. Nothing
/// is said of whether the call returns otherwise: a script can loop forever.
#[verifier::external_body]
pub(crate) fn run_quiet(commands: Vec<Parsed>, input: &str) -> (reply: Result<String, sed_rs::Error>)
    requires
        are_runnable(parsed_views(commands@)),
        !any_exits(parsed_views(commands@)),
    ensures
        reply matches Ok(output) ==> sed_gives(parsed_views(commands@), input@, Some(output@)),
        reply is Err ==> sed_gives(parsed_views(commands@), input@, None),
        !any_reaches_out(parsed_views(commands@)) ==> reply is Ok && forall|outcome: Option<Seq<char>>| #[trigger]
            sed_gives(parsed_views(commands@), input@, outcome) ==> outcome == Some(reply->Ok_0@),
{
    let commands = commands.into_iter().map(|c| SedCommand { address: c.address, command: command_of(c.action) });
    let options = Options { quiet: true, ..Options::default() };
    let mut output = Vec::new();
    Engine::new(commands.collect(), &options)?.process_stream(input.as_bytes(), &mut output)?;
    Ok(String::from_utf8_lossy(&output).into_owned())
}

fn drop_code(code: Option<i32>) -> (kept: Option<i32>)
    ensures
        kept == plain_code(code),
{
    match code {
        Some(0) => Some(0),
        _ => None,
    }
}

/// The same commands without exit codes other than 0.
pub fn drop_exit_codes(commands: Vec<Parsed>) -> (kept: Vec<Parsed>)
    ensures
        parsed_views(kept@) == all_without_codes(parsed_views(commands@)),
    decreases commands,
{
    let ghost all = commands@;
    let mut kept: Vec<Parsed> = Vec::new();
    for command in it: commands.into_iter()
        invariant
            it.seq() == all,
            parsed_views(kept@) == all_without_codes(parsed_views(all.take(it.index()))),
    {
        let ghost done = all.take(it.index());
        let ghost next = all.take(it.index() + 1);
        let ghost before = kept@;
        let Parsed { address, action } = command;
        let action = match action {
            Action::Quit(code) => Action::Quit(drop_code(code)),
            Action::QuitSilently(code) => Action::QuitSilently(drop_code(code)),
            Action::Group(inner) => Action::Group(drop_exit_codes(inner)),
            action => action,
        };
        kept.push(Parsed { address, action });
        proof {
            assert(next.drop_last() =~= done);
            assert(next.last() == command);
            assert(kept@.drop_last() =~= before);
            let view = ParsedView { address: command.address, action: action_view(command.action) };
            assert(parsed_views(next) == parsed_views(done).push(view));
            assert(parsed_views(next).drop_last() =~= parsed_views(done));
            assert(action_view(action) == action_view(command.action).without_codes());
        }
    }
    assert(all.take(all.len() as int) =~= all);
    kept
}

} // verus!
