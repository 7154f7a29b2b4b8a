//! What a review looks at: the blocks of an input, and what a script does to
//! each of them.

use vstd::prelude::*;

use crate::text;
use crate::text::join_range;

verus! {

/// The input lines that one cycle read, and what became of them.
#[derive(Debug)]
pub struct Block {
    /// The index, from 0, of the first line.
    pub start: usize,
    /// The index, from 0, of the last line.
    pub end: usize,
    pub pattern_after: String,
    /// Whether the cycle prints its pattern space. Where it does not, `d` or
    /// `D` deleted it, and the block gives no output whatever is decided.
    pub printed: bool,
    /// The hold space at the end of the cycle, for a script that uses it.
    pub hold_after: Option<String>,
}

/// A block as plain values.
pub struct BlockView {
    pub start: int,
    pub end: int,
    pub pattern_after: Seq<char>,
    pub printed: bool,
    pub hold_after: Option<Seq<char>>,
}

/// What an optional string holds.
pub open spec fn option_view(s: Option<String>) -> Option<Seq<char>> {
    match s {
        Some(s) => Some(s@),
        None => None,
    }
}

impl View for Block {
    type V = BlockView;

    open spec fn view(&self) -> BlockView {
        BlockView {
            start: self.start as int,
            end: self.end as int,
            pattern_after: self.pattern_after@,
            printed: self.printed,
            hold_after: option_view(self.hold_after),
        }
    }
}

impl BlockView {
    /// The input lines of the block, joined by newlines.
    pub open spec fn input(self, lines: Seq<Seq<char>>) -> Seq<char> {
        text::join_lines(lines.subrange(self.start, self.end + 1))
    }
}

/// The blocks of a sequence as plain values.
pub open spec fn block_views(blocks: Seq<Block>) -> Seq<BlockView> {
    blocks.map_values(|b: Block| b@)
}

impl Block {
    /// The input lines of the block, joined by newlines.
    pub fn raw_input(&self, lines: &[String]) -> (input: String)
        requires
            self.start <= self.end < lines@.len(),
        ensures
            input@ == self@.input(text::string_views(lines@)),
    {
        assert(self.end < lines.len());
        join_range(lines, self.start, self.end + 1)
    }
}

/// What is shown of one block: its text before and after the script.
#[derive(Debug)]
pub struct LineRecord {
    pub input: String,
    pub pattern_after: String,
    /// Whether the cycle prints its pattern space. Where it does not, `d` or
    /// `D` deleted it, and there is no output whatever is decided.
    pub printed: bool,
    pub hold_after: Option<String>,
}

/// A record as plain values.
pub struct RecordView {
    pub input: Seq<char>,
    pub pattern_after: Seq<char>,
    pub printed: bool,
    pub hold_after: Option<Seq<char>>,
}

impl View for LineRecord {
    type V = RecordView;

    open spec fn view(&self) -> RecordView {
        RecordView {
            input: self.input@,
            pattern_after: self.pattern_after@,
            printed: self.printed,
            hold_after: option_view(self.hold_after),
        }
    }
}

} // verus!
