//! The file capability: what an open descriptor can do.

use vstd::prelude::*;

use crate::pipe::Pipe;

verus! {

/// The capability set common to everything behind a file descriptor.
pub trait File {
    fn readable(&self) -> bool;

    fn writable(&self) -> bool;
}

/// The console input stream.
#[derive(Clone, Copy, PartialEq, Eq, Structural, Debug)]
pub struct Stdin;

/// The console output stream.
#[derive(Clone, Copy, PartialEq, Eq, Structural, Debug)]
pub struct Stdout;

impl File for Stdin {
    fn readable(&self) -> bool {
        true
    }

    fn writable(&self) -> bool {
        false
    }
}

impl File for Stdout {
    fn readable(&self) -> bool {
        false
    }

    fn writable(&self) -> bool {
        true
    }
}

impl File for Pipe {
    fn readable(&self) -> bool {
        self.readable
    }

    fn writable(&self) -> bool {
        self.writable
    }
}

/// One slot of a file-descriptor table.
#[derive(Clone, Copy, PartialEq, Eq, Structural, Debug)]
pub enum FdEntry {
    Stdin,
    Stdout,
    PipeEnd(Pipe),
}

impl FdEntry {
    pub open spec fn spec_readable(self) -> bool {
        match self {
            FdEntry::Stdin => true,
            FdEntry::Stdout => false,
            FdEntry::PipeEnd(p) => p.readable,
        }
    }

    pub open spec fn spec_writable(self) -> bool {
        match self {
            FdEntry::Stdin => false,
            FdEntry::Stdout => true,
            FdEntry::PipeEnd(p) => p.writable,
        }
    }

    pub fn entry_readable(&self) -> (r: bool)
        ensures
            r == self.spec_readable(),
    {
        match self {
            FdEntry::Stdin => true,
            FdEntry::Stdout => false,
            FdEntry::PipeEnd(p) => p.readable,
        }
    }

    pub fn entry_writable(&self) -> (r: bool)
        ensures
            r == self.spec_writable(),
    {
        match self {
            FdEntry::Stdin => false,
            FdEntry::Stdout => true,
            FdEntry::PipeEnd(p) => p.writable,
        }
    }
}

} // verus!
