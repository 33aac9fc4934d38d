//! The log: lines for the display's log pane, kept until they are collected.

use vstd::prelude::*;

verus! {

/// Lines that wait for the display.
pub struct Log {
    entries: Vec<String>,
}

impl View for Log {
    type V = Seq<Seq<char>>;

    /// The lines that wait to be collected, oldest first.
    closed spec fn view(&self) -> Seq<Seq<char>> {
        Seq::new(self.entries@.len(), |i: int| self.entries@[i]@)
    }
}

impl Log {
    /// A log without lines.
    pub fn new() -> (log: Self)
        ensures
            log@ == Seq::<Seq<char>>::empty(),
    {
        Log { entries: Vec::new() }
    }

    /// Adds a line.
    pub fn log(&mut self, message: String)
        ensures
            final(self)@ == old(self)@.push(message@),
    {
        self.entries.push(message);
    }

    /// How many lines wait.
    pub fn len(&self) -> (count: usize)
        ensures
            count == self@.len(),
    {
        self.entries.len()
    }

    /// Hands out the lines that wait, oldest first, and forgets them.
    pub fn drain(&mut self) -> (lines: Vec<String>)
        ensures
            final(self)@ == Seq::<Seq<char>>::empty(),
            lines@.len() == old(self)@.len(),
            forall|i: int| 0 <= i < lines@.len() ==> (#[trigger] lines@[i])@ == old(self)@[i],
    {
        let mut lines: Vec<String> = Vec::new();
        std::mem::swap(&mut lines, &mut self.entries);
        lines
    }
}

} // verus!
