//! The text of one generated file, gathered line by line.

use crate::text::{join, join_with};
use vstd::prelude::*;
use vstd::string::StringExecFns;

verus! {

/// The lines of one generated file, in the order in which they were added.
pub struct Output {
    lines: Vec<String>,
}

impl View for Output {
    type V = Seq<Seq<char>>;

    closed spec fn view(&self) -> Seq<Seq<char>> {
        self.lines.deep_view()
    }
}

/// The text of a file that holds `lines`: the lines joined by a line feed, and
/// a line feed at the end.
pub open spec fn file_text(lines: Seq<Seq<char>>) -> Seq<char> {
    join(lines, seq!['\n']) + seq!['\n']
}

impl Output {
    /// An output without lines.
    pub fn new() -> (output: Self)
        ensures
            output@ == Seq::<Seq<char>>::empty(),
    {
        Self { lines: Vec::new() }
    }

    /// Adds `line` after the lines that are there.
    pub fn add(&mut self, line: &str)
        ensures
            final(self)@ == old(self)@.push(line@),
    {
        self.lines.push(String::from_str(line));
    }

    /// The lines added so far, oldest first.
    pub fn lines(&self) -> (lines: &Vec<String>)
        ensures
            lines.deep_view() == self@,
    {
        &self.lines
    }

    /// The text that is written to the file.
    pub fn text(&self) -> (text: String)
        ensures
            text@ == file_text(self@),
    {
        proof {
            reveal_strlit("\n");
            assert("\n"@ == seq!['\n']);
        }
        let mut text = join_with(&self.lines, "\n");
        text.append("\n");
        text
    }
}

} // verus!
