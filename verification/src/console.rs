//! A deterministic console: a queue of pending input bytes and a buffer of
//! output bytes. The execution engine reads keyboard bytes from the queue and
//! appends everything it would print to the buffer; a host program refills
//! the queue from the real terminal and drains the buffer to it.
use vstd::prelude::*;

verus! {

/// Console state: `input[pos..]` are the bytes not yet consumed; `output`
/// holds every byte the machine has printed so far.
pub struct Console {
    pub input: Vec<u8>,
    pub pos: usize,
    pub output: Vec<u8>,
}

impl Console {
    /// The read cursor never runs past the end of the input queue.
    pub open spec fn wf(&self) -> bool {
        self.pos <= self.input@.len()
    }

    /// True when at least one input byte is pending.
    pub open spec fn has_input(&self) -> bool {
        self.pos < self.input@.len()
    }

    /// A console with the given pending input and no output yet.
    pub fn new(input: Vec<u8>) -> (c: Console)
        ensures
            c.wf(),
            c.input@ == input@,
            c.pos == 0,
            c.output@ == Seq::<u8>::empty(),
    {
        Console { input, pos: 0, output: Vec::new() }
    }

    /// Consume the next pending input byte, or report that none is pending
    /// (the point at which a real console would block).
    pub fn read_byte(&mut self) -> (r: Option<u8>)
        requires
            old(self).wf(),
        ensures
            final(self).wf(),
            final(self).input@ == old(self).input@,
            final(self).output@ == old(self).output@,
            old(self).has_input() ==> r == Some(old(self).input@[old(self).pos as int])
                && final(self).pos == old(self).pos + 1,
            !old(self).has_input() ==> r is None && final(self).pos == old(self).pos,
    {
        if self.pos < self.input.len() {
            let b: u8 = self.input[self.pos];
            self.pos = self.pos + 1;
            Some(b)
        } else {
            None
        }
    }

    /// Append one byte to the output buffer.
    pub fn write_byte(&mut self, b: u8)
        requires
            old(self).wf(),
        ensures
            final(self).wf(),
            final(self).input@ == old(self).input@,
            final(self).pos == old(self).pos,
            final(self).output@ == old(self).output@.push(b),
    {
        self.output.push(b);
    }

    /// Move the pending output bytes out, leaving the buffer empty.
    pub fn take_output(&mut self) -> (r: Vec<u8>)
        requires
            old(self).wf(),
        ensures
            final(self).wf(),
            final(self).input@ == old(self).input@,
            final(self).pos == old(self).pos,
            final(self).output@ == Seq::<u8>::empty(),
            r@ == old(self).output@,
    {
        let mut out: Vec<u8> = Vec::new();
        std::mem::swap(&mut out, &mut self.output);
        out
    }
}

} // verus!
