//! Turns a sed script into one that also reports its own state.
//!
//! The instrumented script does what the script does, and at the end of a
//! cycle prints the pattern space, the number of the last line read and the
//! hold space, each on a tagged line of its own. [`parse_cycles`] reads these
//! lines back. To keep one value on one line, newlines in the pattern space
//! and in the hold space are printed as a placeholder.
//!
//! A cycle is reported where the script runs to its end, and where `d` or `D`
//! deletes the pattern space: these two commands are replaced. A command that
//! leaves the script in another way leaves out the report: a branch without a
//! label, `c`, `q`, `Q`, and `n` or `N` on the last line.
//!
//! A cycle here is one that really reads from the input: a `D` that restarts
//! the script without reading is part of the cycle in which it runs.

use vstd::prelude::*;

use crate::command::{
    has_bare, is_match, lemma_one_letter, lemma_pattern_letters, lemma_settled_concat, replace_every, settled,
    substituted, DELETE_FIRST_PATTERN, DELETE_PATTERN, HOLD_PATTERN,
};
use crate::text::{char_views, number_on, parse_number, split_lines, split_newlines};

verus! {

/// Begins the line that reports a pattern space that would be printed.
/// The tags are control characters around a letter: text that sed is used on
/// hardly ever holds them.
pub const TAG_PATTERN: &'static str = "\x01P\x01";

/// Begins the line that reports a pattern space that `d` or `D` deleted.
pub const TAG_DELETED: &'static str = "\x01X\x01";

/// Begins the line that reports the hold space.
pub const TAG_HOLD: &'static str = "\x01H\x01";

/// Stands for a newline inside a reported pattern space or hold space.
pub const NL_PLACEHOLDER: char = '\x02';

/// The label of the commands that report a deleted pattern space.
pub const DEL_LABEL: &'static str = "ISED_DEL";

/// The label of the commands that end every reported cycle.
pub const END_LABEL: &'static str = "ISED_END";

/// The label before the script.
pub const TOP_LABEL: &'static str = "ISED_TOP";

/// What the instrumentation reports of one cycle.
#[derive(Debug)]
pub struct Cycle {
    pub pattern_space: String,
    /// Whether the script ran to its end, so that the pattern space is
    /// printed, or `d` or `D` deleted it. What the script prints itself, with
    /// `p` or `P`, does not count.
    pub printed: bool,
    pub hold_space: String,
    /// The number, from 1, of the last input line that the cycle read.
    pub end_line: usize,
}

/// A cycle as plain values.
pub struct CycleView {
    pub pattern_space: Seq<char>,
    pub printed: bool,
    pub hold_space: Seq<char>,
    pub end_line: usize,
}

impl View for Cycle {
    type V = CycleView;

    open spec fn view(&self) -> CycleView {
        CycleView {
            pattern_space: self.pattern_space@,
            printed: self.printed,
            hold_space: self.hold_space@,
            end_line: self.end_line,
        }
    }
}

/// The cycles of a sequence as plain values.
pub open spec fn cycle_views(cycles: Seq<Cycle>) -> Seq<CycleView> {
    cycles.map_values(|c: Cycle| c@)
}

/// What takes the place of a bare `d`: a branch to the commands that report a
/// deleted pattern space.
pub open spec fn delete_branch() -> Seq<char> {
    "b "@ + DEL_LABEL@
}

/// What takes the place of a bare `D`: a group that goes where `d` goes where
/// the pattern space is a single line, and else drops its first line and
/// starts over at the top. The test comes first, so that the `t` sees no
/// substitution but its own. It is one group, so that an address before the
/// `D` applies to all of it.
pub open spec fn delete_first_branch() -> Seq<char> {
    "{ /\\n/!b "@ + DEL_LABEL@ + "; s/^[^\\n]*\\n//; t "@ + TOP_LABEL@ + " }"@
}

/// A script with every bare `d` replaced.
pub open spec fn without_delete(script: Seq<char>) -> Seq<char> {
    substituted(script, seq!['d'], delete_branch(), 0)
}

/// A script with every bare `D` replaced.
pub open spec fn without_delete_first(script: Seq<char>) -> Seq<char> {
    substituted(script, seq!['D'], delete_first_branch(), 0)
}

/// A script with every bare `d` and `D` replaced.
pub open spec fn rewritten(script: Seq<char>) -> Seq<char> {
    without_delete_first(without_delete(script))
}

/// The commands that put a tag before the pattern space and print it on one
/// line.
pub open spec fn report_commands(tag: Seq<char>) -> Seq<char> {
    "s/\\n/"@ + seq![NL_PLACEHOLDER] + "/g\ns/^/"@ + tag + "/\np\n"@
}

/// The instrumented form of a script, meant to run without automatic
/// printing:
///
/// - the label that `D` branches back to, and the script in a group;
/// - the report of a pattern space that would be printed, reached only at the
///   end of the script, and a branch over the next part;
/// - the report of a deleted pattern space, reached only from `d` and `D`;
/// - the end of every reported cycle: the line number, and the hold space,
///   which is put back as it was. The pattern space is not, since the next line takes
///   its place.
pub open spec fn wrapped(script: Seq<char>) -> Seq<char> {
    ":"@ + TOP_LABEL@ + "\n{\n"@ + rewritten(script) + "\n}\n"@
        + report_commands(TAG_PATTERN@)
        + "b "@ + END_LABEL@ + "\n:"@ + DEL_LABEL@ + "\n"@
        + report_commands(TAG_DELETED@)
        + ":"@ + END_LABEL@ + "\n=\nx\n"@
        + report_commands(TAG_HOLD@)
        + "s/^"@ + TAG_HOLD@ + "//\ns/"@ + seq![NL_PLACEHOLDER] + "/\\n/g\nx\n"@
}

/// A reported value with its newlines put back.
pub open spec fn restored(value: Seq<char>) -> Seq<char> {
    value.map_values(|c: char| if c == NL_PLACEHOLDER { '\n' } else { c })
}

pub open spec fn begins_with(line: Seq<char>, tag: Seq<char>) -> bool {
    tag.len() <= line.len() && line.take(tag.len() as int) == tag
}

/// What a line of the instrumented script's output says.
pub enum LineReport {
    /// A pattern space, and whether it is printed.
    Pattern(Seq<char>, bool),
    Hold(Seq<char>),
    Number(usize),
    /// Output of the script's own.
    Other,
}

pub open spec fn line_report(line: Seq<char>) -> LineReport {
    if begins_with(line, TAG_PATTERN@) {
        LineReport::Pattern(restored(line.skip(TAG_PATTERN@.len() as int)), true)
    } else if begins_with(line, TAG_DELETED@) {
        LineReport::Pattern(restored(line.skip(TAG_DELETED@.len() as int)), false)
    } else if begins_with(line, TAG_HOLD@) {
        LineReport::Hold(restored(line.skip(TAG_HOLD@.len() as int)))
    } else {
        match number_on(line) {
            Some(n) => LineReport::Number(n),
            None => LineReport::Other,
        }
    }
}

/// The last pattern space reported before line `k` and after the hold space
/// reported before it.
pub open spec fn pending_pattern(lines: Seq<Seq<char>>, k: int) -> Option<(Seq<char>, bool)>
    decreases k,
{
    if k <= 0 {
        None
    } else {
        match line_report(lines[k - 1]) {
            LineReport::Pattern(space, printed) => Some((space, printed)),
            LineReport::Hold(_) => None,
            _ => pending_pattern(lines, k - 1),
        }
    }
}

/// The last number reported before line `k` and after the hold space reported
/// before it.
pub open spec fn pending_number(lines: Seq<Seq<char>>, k: int) -> Option<usize>
    decreases k,
{
    if k <= 0 {
        None
    } else {
        match line_report(lines[k - 1]) {
            LineReport::Number(n) => Some(n),
            LineReport::Hold(_) => None,
            _ => pending_number(lines, k - 1),
        }
    }
}

/// The cycles reported on the lines before line `k`. A cycle ends with the
/// report of its hold space; one without a line number is left out, and one
/// without a pattern space has an empty one that is not printed.
pub open spec fn cycles_before(lines: Seq<Seq<char>>, k: int) -> Seq<CycleView>
    decreases k,
{
    if k <= 0 {
        Seq::empty()
    } else {
        let earlier = cycles_before(lines, k - 1);
        match (line_report(lines[k - 1]), pending_number(lines, k - 1)) {
            (LineReport::Hold(hold_space), Some(end_line)) => {
                let (pattern_space, printed) = match pending_pattern(lines, k - 1) {
                    Some(reported) => reported,
                    None => (Seq::empty(), false),
                };
                earlier.push(CycleView { pattern_space, printed, hold_space, end_line })
            },
            _ => earlier,
        }
    }
}

/// The cycles that an output of the instrumented script reports, in order.
pub open spec fn cycles_in(stdout: Seq<char>) -> Seq<CycleView> {
    let lines = split_newlines(stdout);
    cycles_before(lines, lines.len() as int)
}

/// What takes the place of a deleting command holds none.
pub proof fn lemma_branches_settled()
    ensures
        settled(delete_branch(), seq!['d']),
        settled(delete_branch(), seq!['D']),
        settled(delete_first_branch(), seq!['d']),
        settled(delete_first_branch(), seq!['D']),
{
    lemma_branches_settled_for('d');
    lemma_branches_settled_for('D');
}

proof fn lemma_branches_settled_for(letter: char)
    requires
        letter == 'd' || letter == 'D',
    ensures
        settled(delete_branch(), seq![letter]),
        settled(delete_first_branch(), seq![letter]),
{
    let letters = seq![letter];
    lemma_one_letter(letter);
    reveal_strlit("b ");
    reveal_strlit("ISED_DEL");
    reveal_strlit("{ /\\n/!b ");
    reveal_strlit("; s/^[^\\n]*\\n//; t ");
    reveal_strlit("ISED_TOP");
    reveal_strlit(" }");
    lemma_settled_concat("b "@, DEL_LABEL@, letters);
    let a = "{ /\\n/!b "@;
    let b = a + DEL_LABEL@;
    let c = b + "; s/^[^\\n]*\\n//; t "@;
    let d = c + TOP_LABEL@;
    lemma_settled_concat(a, DEL_LABEL@, letters);
    lemma_settled_concat(b, "; s/^[^\\n]*\\n//; t "@, letters);
    lemma_settled_concat(c, TOP_LABEL@, letters);
    lemma_settled_concat(d, " }"@, letters);
}

/// Replaces every bare `d` of a script, which would leave the cycle before it
/// is reported.
pub fn rewrite_delete(user_script: &str) -> (script: String)
    ensures
        script@ == without_delete(user_script@),
{
    proof {
        lemma_pattern_letters();
        lemma_branches_settled();
    }
    let mut branch = "b ".to_owned();
    branch.append(DEL_LABEL);
    replace_every(DELETE_PATTERN, user_script, branch.as_str())
}

/// Replaces every bare `D` of a script.
pub fn rewrite_d_upper(user_script: &str) -> (script: String)
    ensures
        script@ == without_delete_first(user_script@),
{
    proof {
        lemma_pattern_letters();
        lemma_branches_settled();
    }
    let mut branch = "{ /\\n/!b ".to_owned();
    branch.append(DEL_LABEL);
    branch.append("; s/^[^\\n]*\\n//; t ");
    branch.append(TOP_LABEL);
    branch.append(" }");
    replace_every(DELETE_FIRST_PATTERN, user_script, branch.as_str())
}

fn append_report_commands(script: &mut String, tag: &str)
    ensures
        final(script)@ == old(script)@ + report_commands(tag@),
{
    let ghost before = script@;
    script.append("s/\\n/");
    script.push(NL_PLACEHOLDER);
    script.append("/g\ns/^/");
    script.append(tag);
    script.append("/\np\n");
    assert(script@ =~= before + report_commands(tag@));
}

/// The instrumented form of a script, for a run without automatic printing.
pub fn wrap_script(user_script: &str) -> (script: String)
    ensures
        script@ == wrapped(user_script@),
{
    let rewritten_script = rewrite_d_upper(rewrite_delete(user_script).as_str());
    let mut script = ":".to_owned();
    script.append(TOP_LABEL);
    script.append("\n{\n");
    script.append(rewritten_script.as_str());
    script.append("\n}\n");
    append_report_commands(&mut script, TAG_PATTERN);
    script.append("b ");
    script.append(END_LABEL);
    script.append("\n:");
    script.append(DEL_LABEL);
    script.append("\n");
    append_report_commands(&mut script, TAG_DELETED);
    script.append(":");
    script.append(END_LABEL);
    script.append("\n=\nx\n");
    append_report_commands(&mut script, TAG_HOLD);
    script.append("s/^");
    script.append(TAG_HOLD);
    script.append("//\ns/");
    let ghost before = script@;
    script.push(NL_PLACEHOLDER);
    assert(script@ =~= before + seq![NL_PLACEHOLDER]);
    script.append("/\\n/g\nx\n");
    script
}

/// Whether a script has a bare command on the hold space.
pub fn uses_hold_space(user_script: &str) -> (uses: bool)
    ensures
        uses == has_bare(user_script@, seq!['h', 'H', 'g', 'G', 'x']),
{
    proof {
        lemma_pattern_letters();
    }
    is_match(HOLD_PATTERN, user_script)
}

/// The tags are three characters each, and differ in the middle.
pub proof fn lemma_tags()
    ensures
        TAG_PATTERN@ == seq!['\x01', 'P', '\x01'],
        TAG_DELETED@ == seq!['\x01', 'X', '\x01'],
        TAG_HOLD@ == seq!['\x01', 'H', '\x01'],
{
    reveal_strlit("\x01P\x01");
    reveal_strlit("\x01X\x01");
    reveal_strlit("\x01H\x01");
    assert(TAG_PATTERN@ =~= seq!['\x01', 'P', '\x01']);
    assert(TAG_DELETED@ =~= seq!['\x01', 'X', '\x01']);
    assert(TAG_HOLD@ =~= seq!['\x01', 'H', '\x01']);
}

fn has_tag(line: &[char], letter: char) -> (yes: bool)
    ensures
        yes == begins_with(line@, seq!['\x01', letter, '\x01']),
{
    let yes = line.len() >= 3 && line[0] == '\x01' && line[1] == letter && line[2] == '\x01';
    proof {
        let tag = seq!['\x01', letter, '\x01'];
        if yes {
            assert(line@.take(3) =~= tag);
        } else if line@.len() >= 3 && line@.take(3) == tag {
            assert(line@[0] == tag[0] && line@[1] == tag[1] && line@[2] == tag[2]);
        }
    }
    yes
}

/// The value on a tagged line.
fn tagged_value(line: &[char]) -> (value: String)
    requires
        line@.len() >= 3,
    ensures
        value@ == restored(line@.skip(3)),
{
    let mut value = String::new();
    for i in 3..line.len()
        invariant
            line@.len() >= 3,
            value@ == restored(line@.skip(3)).take(i - 3),
    {
        let c = line[i];
        value.push(if c == NL_PLACEHOLDER { '\n' } else { c });
        assert(value@ =~= restored(line@.skip(3)).take(i - 3 + 1));
    }
    assert(restored(line@.skip(3)).take(line@.len() - 3) =~= restored(line@.skip(3)));
    value
}

/// Reads the cycles, in order, from what a script made by [`wrap_script`]
/// prints. Lines that the script prints on its own are passed over, unless
/// such a line is a bare number: it is taken for a line number.
pub fn parse_cycles(stdout: &str) -> (cycles: Vec<Cycle>)
    ensures
        cycle_views(cycles@) == cycles_in(stdout@),
{
    let lines = split_lines(stdout);
    let mut cycles: Vec<Cycle> = Vec::new();
    let mut pattern: Option<(String, bool)> = None;
    let mut number: Option<usize> = None;
    let ghost views = char_views(lines@);
    assert(views.len() == lines@.len());
    for k in 0..lines.len()
        invariant
            views == char_views(lines@),
            number == pending_number(views, k as int),
            match (pattern, pending_pattern(views, k as int)) {
                (Some(have), Some(want)) => have.0@ == want.0 && have.1 == want.1,
                (None, None) => true,
                _ => false,
            },
            cycle_views(cycles@) == cycles_before(views, k as int),
    {
        let line = lines[k].as_slice();
        proof {
            lemma_tags();
            assert(line@ == views[k as int]);
        }
        if has_tag(line, 'P') {
            pattern = Some((tagged_value(line), true));
        } else if has_tag(line, 'X') {
            pattern = Some((tagged_value(line), false));
        } else if has_tag(line, 'H') {
            let (pattern_space, printed) = match pattern {
                Some(reported) => reported,
                None => (String::new(), false),
            };
            pattern = None;
            if let Some(end_line) = number {
                let cycle = Cycle { pattern_space, printed, hold_space: tagged_value(line), end_line };
                let ghost before = cycles@;
                cycles.push(cycle);
                assert(cycle_views(cycles@) =~= cycle_views(before).push(cycle@));
            }
            number = None;
        } else if let Some(n) = parse_number(line) {
            number = Some(n);
        }
    }
    cycles
}

} // verus!
