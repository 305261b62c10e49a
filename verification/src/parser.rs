//! The line source: the lines of a program held in memory, handed out one
//! command at a time, and read again from the start as often as needed.

use crate::syntax::{instruction_text, text_range};
use crate::text::{texts, to_chars};
use vstd::prelude::*;
use vstd::string::StrSliceExecFns;

verus! {

/// Index of the first line at or after `from` that holds a command (its
/// instruction text is not empty), or the number of lines if none does.
pub open spec fn next_command(lines: Seq<Seq<char>>, from: nat) -> nat
    decreases lines.len() - from,
{
    if from >= lines.len() {
        lines.len()
    } else if instruction_text(lines[from as int]).len() > 0 {
        from
    } else {
        next_command(lines, from + 1)
    }
}

/// `next_command` skips nothing but lines without a command, and stops at
/// one with a command or at the end.
pub proof fn lemma_next_command(lines: Seq<Seq<char>>, from: nat)
    requires
        from <= lines.len(),
    ensures
        from <= next_command(lines, from) <= lines.len(),
        forall|i: int|
            from <= i < next_command(lines, from) ==> instruction_text(#[trigger] lines[i]).len()
                == 0,
        next_command(lines, from) < lines.len() ==> instruction_text(
            lines[next_command(lines, from) as int],
        ).len() > 0,
    decreases lines.len() - from,
{
    if from < lines.len() && instruction_text(lines[from as int]).len() == 0 {
        lemma_next_command(lines, from + 1);
    }
}

/// The lines of a program and a cursor into them.
pub struct Parser {
    lines: Vec<String>,
    position: usize,
    current_command: String,
}

impl Parser {
    /// The lines, each as its characters.
    pub closed spec fn source(&self) -> Seq<Seq<char>> {
        texts(self.lines@)
    }

    /// The number of lines read so far.
    pub closed spec fn cursor(&self) -> nat {
        self.position as nat
    }

    /// The command that `set_command` found last: the text of its line
    /// without comment and surrounding white space.
    pub closed spec fn command(&self) -> Seq<char> {
        self.current_command@
    }

    /// Well-formedness: the cursor lies within the lines.
    pub closed spec fn wf(&self) -> bool {
        self.position <= self.lines.len()
    }

    /// What well-formedness says.
    pub proof fn lemma_wf(&self)
        requires
            self.wf(),
        ensures
            self.cursor() <= self.source().len() <= usize::MAX,
    {
    }

    /// A line source over `lines`, with nothing read.
    pub fn new(lines: Vec<String>) -> (parser: Parser)
        ensures
            parser.wf(),
            parser.source() == texts(lines@),
            parser.cursor() == 0,
            parser.command() == Seq::<char>::empty(),
    {
        Parser { lines, position: 0, current_command: String::new() }
    }

    /// Goes back to the start of the lines.
    pub fn rewind(&mut self)
        ensures
            final(self).wf(),
            final(self).source() == old(self).source(),
            final(self).cursor() == 0,
            final(self).command() == old(self).command(),
    {
        self.position = 0;
    }

    /// The number of lines read so far: the number, from 1, of the line
    /// that `set_command` found last.
    pub fn line_number(&self) -> (n: usize)
        ensures
            n == self.cursor(),
    {
        self.position
    }

    /// The command that `set_command` found last.
    pub fn current_command(&self) -> (command: &String)
        ensures
            command@ == self.command(),
    {
        &self.current_command
    }

    /// Reads on to the next command. Where there is one, stores its text as
    /// the current command, leaves the cursor behind its line and returns
    /// `true`; else leaves the cursor at the end and returns `false`.
    pub fn set_command(&mut self) -> (found: bool)
        requires
            old(self).wf(),
        ensures
            final(self).wf(),
            final(self).source() == old(self).source(),
            found == (next_command(old(self).source(), old(self).cursor()) < old(
                self,
            ).source().len()),
            found ==> final(self).cursor() == next_command(old(self).source(), old(self).cursor())
                + 1 && final(self).command() == instruction_text(
                old(self).source()[next_command(old(self).source(), old(self).cursor()) as int],
            ),
            !found ==> final(self).cursor() == old(self).source().len()
                && final(self).command() == old(self).command(),
    {
        while self.position < self.lines.len()
            invariant
                self.position <= self.lines.len(),
                self.lines == old(self).lines,
                self.current_command == old(self).current_command,
                next_command(self.source(), self.position as nat) == next_command(
                    old(self).source(),
                    old(self).cursor(),
                ),
            decreases self.lines.len() - self.position,
        {
            let line: &str = self.lines[self.position].as_str();
            let v: Vec<char> = to_chars(line);
            let (from, to) = text_range(&v);
            self.position = self.position + 1;
            if from < to {
                self.current_command = line.substring_char(from, to).to_string();
                return true;
            }
        }
        false
    }
}

} // verus!
