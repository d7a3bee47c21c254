//! One line of terminal input, taken byte by byte.

use vstd::prelude::*;

verus! {

/// What a look at the input shows.
#[derive(Debug, Clone, Copy, PartialEq, Eq, Structural)]
pub enum PromptInput {
    /// Nothing is there yet, or the wait was interrupted.
    Idle,
    /// The input has ended.
    End,
    /// A byte.
    Byte(u8),
}

/// Line feed.
pub const LINE_FEED: u8 = 10;

/// A look ends the line.
pub open spec fn ends_line(input: PromptInput) -> bool {
    input == PromptInput::End || input == PromptInput::Byte(LINE_FEED)
}

/// The line with what a look brought.
pub open spec fn with_input(bytes: Seq<u8>, input: PromptInput) -> Seq<u8> {
    match input {
        PromptInput::Byte(byte) if byte != LINE_FEED => bytes.push(byte),
        _ => bytes,
    }
}

/// A line that is being read.
#[derive(Debug, Clone, PartialEq, Eq)]
pub struct PromptLine {
    /// Bytes read so far.
    pub bytes: Vec<u8>,
    /// The line is complete.
    pub complete: bool,
}

/// What to do next with a line that is being read.
#[derive(Debug, Clone, Copy, PartialEq, Eq, Structural)]
pub enum PromptStep {
    /// Look at the input again.
    Look,
    /// The line was read.
    Done,
    /// Cancellation was requested.
    Interrupted,
}

impl PromptLine {
    /// A line of which nothing was read.
    pub fn new() -> (line: PromptLine)
        ensures
            line.bytes@.len() == 0,
            !line.complete,
    {
        PromptLine { bytes: Vec::new(), complete: false }
    }

    /// Takes what a look brought; a complete line stays as it is.
    pub fn take(&mut self, input: PromptInput)
        ensures
            final(self).complete == (old(self).complete || ends_line(input)),
            final(self).bytes@ == if old(self).complete {
                old(self).bytes@
            } else {
                with_input(old(self).bytes@, input)
            },
    {
        if self.complete {
            return;
        }
        match input {
            PromptInput::Idle => {},
            PromptInput::End => {
                self.complete = true;
            },
            PromptInput::Byte(byte) => {
                if byte == LINE_FEED {
                    self.complete = true;
                } else {
                    self.bytes.push(byte);
                }
            },
        }
    }

    /// Decides what to do next: cancellation counts while the line is read, and once more when it
    /// is complete.
    pub fn next(&self, cancelled: bool) -> (step: PromptStep)
        ensures
            step == (if cancelled {
                PromptStep::Interrupted
            } else if self.complete {
                PromptStep::Done
            } else {
                PromptStep::Look
            }),
    {
        if cancelled {
            PromptStep::Interrupted
        } else if self.complete {
            PromptStep::Done
        } else {
            PromptStep::Look
        }
    }
}

} // verus!
