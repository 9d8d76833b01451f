//! The position of a reader and of a writer in a file, kept in step with
//! what was read, written and sought.

use vstd::prelude::*;

verus! {

/// Where a reader stands.
#[derive(Debug, Clone, Copy, PartialEq, Eq, Structural)]
pub struct BufReaderWithPos {
    pos: u64,
}

impl View for BufReaderWithPos {
    type V = u64;

    closed spec fn view(&self) -> u64 {
        self.pos
    }
}

impl BufReaderWithPos {
    /// A reader at the start of its file.
    pub fn new() -> (r: Self)
        ensures
            r@ == 0,
    {
        BufReaderWithPos { pos: 0 }
    }

    /// The offset of the next byte to be read.
    pub fn get_pos(&self) -> (pos: u64)
        ensures
            pos == self@,
    {
        self.pos
    }

    /// Notes that `n` bytes were read.
    pub fn read(&mut self, n: usize)
        requires
            old(self)@ + n <= u64::MAX,
        ensures
            final(self)@ == old(self)@ + n,
    {
        self.pos = self.pos + n as u64;
    }

    /// Notes that the reader was moved to the offset `pos`.
    pub fn seek(&mut self, pos: u64) -> (r: u64)
        ensures
            final(self)@ == pos,
            r == pos,
    {
        self.pos = pos;
        self.pos
    }
}

/// Where a writer stands.
#[derive(Debug, Clone, Copy, PartialEq, Eq, Structural)]
pub struct BufWriterWithPos {
    pos: u64,
}

impl View for BufWriterWithPos {
    type V = u64;

    closed spec fn view(&self) -> u64 {
        self.pos
    }
}

impl BufWriterWithPos {
    /// A writer at the start of its file.
    pub fn new() -> (r: Self)
        ensures
            r@ == 0,
    {
        BufWriterWithPos { pos: 0 }
    }

    /// The offset at which the next byte will be written.
    pub fn get_pos(&self) -> (pos: u64)
        ensures
            pos == self@,
    {
        self.pos
    }

    /// Notes that `n` bytes were written.
    pub fn write(&mut self, n: usize)
        requires
            old(self)@ + n <= u64::MAX,
        ensures
            final(self)@ == old(self)@ + n,
    {
        self.pos = self.pos + n as u64;
    }

    /// Notes that a command was written whose encoding is `len` bytes long,
    /// and returns where it begins and how long it is.
    pub fn write_cmd(&mut self, len: usize) -> (r: (u64, u64))
        requires
            old(self)@ + len <= u64::MAX,
        ensures
            final(self)@ == old(self)@ + len,
            r == (old(self)@, len as u64),
    {
        let start_pos = self.get_pos();
        self.write(len);
        (start_pos, len as u64)
    }

    /// Notes that the writer was moved to the offset `pos`.
    pub fn seek(&mut self, pos: u64) -> (r: u64)
        ensures
            final(self)@ == pos,
            r == pos,
    {
        self.pos = pos;
        self.pos
    }
}

} // verus!
