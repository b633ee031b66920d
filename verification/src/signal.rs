//! POSIX-like signals: the pending/masked bit sets and the per-signal action
//! table.

use vstd::prelude::*;

verus! {

/// The highest signal number.
pub const MAX_SIG: usize = 31;

pub const SIGDEF: u32 = 0x1;
pub const SIGHUP: u32 = 0x2;
pub const SIGINT: u32 = 0x4;
pub const SIGQUIT: u32 = 0x8;
pub const SIGILL: u32 = 0x10;
pub const SIGTRAP: u32 = 0x20;
pub const SIGABRT: u32 = 0x40;
pub const SIGBUS: u32 = 0x80;
pub const SIGFPE: u32 = 0x100;
pub const SIGKILL: u32 = 0x200;
pub const SIGUSR1: u32 = 0x400;
pub const SIGSEGV: u32 = 0x800;
pub const SIGUSR2: u32 = 0x1000;
pub const SIGPIPE: u32 = 0x2000;
pub const SIGALRM: u32 = 0x4000;
pub const SIGTERM: u32 = 0x8000;
pub const SIGSTKFLT: u32 = 0x10000;
pub const SIGCHLD: u32 = 0x20000;
pub const SIGCONT: u32 = 0x40000;
pub const SIGSTOP: u32 = 0x80000;
pub const SIGTSTP: u32 = 0x100000;
pub const SIGTTIN: u32 = 0x200000;
pub const SIGTTOU: u32 = 0x400000;
pub const SIGURG: u32 = 0x800000;
pub const SIGXCPU: u32 = 0x1000000;
pub const SIGXFSZ: u32 = 0x2000000;
pub const SIGVTALRM: u32 = 0x4000000;
pub const SIGPROF: u32 = 0x8000000;
pub const SIGWINCH: u32 = 0x10000000;
pub const SIGIO: u32 = 0x20000000;
pub const SIGPWR: u32 = 0x40000000;
pub const SIGSYS: u32 = 0x80000000;

/// A set of signals, one bit per signal number.
#[derive(Clone, Copy, PartialEq, Eq, Structural, Debug)]
pub struct SignalFlags {
    pub bits: u32,
}

impl SignalFlags {
    pub fn empty() -> (r: SignalFlags)
        ensures
            r.bits == 0,
    {
        SignalFlags { bits: 0 }
    }

    pub fn from_bits(bits: u32) -> (r: SignalFlags)
        ensures
            r.bits == bits,
    {
        SignalFlags { bits }
    }

    pub open spec fn spec_contains(self, other: SignalFlags) -> bool {
        self.bits & other.bits == other.bits
    }

    pub fn contains(self, other: SignalFlags) -> (r: bool)
        ensures
            r == self.spec_contains(other),
    {
        self.bits & other.bits == other.bits
    }

    /// Add every signal of `other` to the set.
    pub fn insert(&mut self, other: SignalFlags)
        ensures
            final(self).bits == old(self).bits | other.bits,
    {
        self.bits = self.bits | other.bits;
    }

    /// Remove every signal of `other` from the set.
    pub fn toggle(&mut self, other: SignalFlags)
        ensures
            final(self).bits == old(self).bits & !other.bits,
    {
        self.bits = self.bits & !other.bits;
    }

    /// The errno of the fatal pending signal a set reports, in
    /// signal-number order: `SIGINT` before `SIGILL` before `SIGABRT` before
    /// `SIGFPE` before `SIGKILL` before `SIGSEGV`; nothing when none of the
    /// six is pending.
    pub open spec fn spec_fatal_errno(bits: u32) -> Option<i32> {
        if bits & SIGINT != 0 {
            Some(-2i32)
        } else if bits & SIGILL != 0 {
            Some(-4i32)
        } else if bits & SIGABRT != 0 {
            Some(-6i32)
        } else if bits & SIGFPE != 0 {
            Some(-8i32)
        } else if bits & SIGKILL != 0 {
            Some(-9i32)
        } else if bits & SIGSEGV != 0 {
            Some(-11i32)
        } else {
            None
        }
    }

    /// The errno and diagnostic of the first fatal pending signal, in
    /// signal-number order, or nothing when none is pending.
    pub fn check_error(&self) -> (r: Option<(i32, &'static str)>)
        ensures
            (match r {
                Some(p) => Some(p.0),
                None => None::<i32>,
            }) == SignalFlags::spec_fatal_errno(self.bits),
            // the diagnostic names the reported signal
            r is Some ==> {
                let p = r->Some_0;
                &&& (p.0 == -2 ==> p.1@ == "Killed, SIGINT=2"@)
                &&& (p.0 == -4 ==> p.1@ == "Illegal Instruction, SIGILL=4"@)
                &&& (p.0 == -6 ==> p.1@ == "Aborted, SIGABRT=6"@)
                &&& (p.0 == -8 ==> p.1@ == "Erroneous Arithmetic Operation, SIGFPE=8"@)
                &&& (p.0 == -9 ==> p.1@ == "Killed, SIGKILL=9"@)
                &&& (p.0 == -11 ==> p.1@ == "Segmentation Fault, SIGSEGV=11"@)
            },
    {
        let b = self.bits;
        if b & SIGINT != 0 {
            Some((-2, "Killed, SIGINT=2"))
        } else if b & SIGILL != 0 {
            Some((-4, "Illegal Instruction, SIGILL=4"))
        } else if b & SIGABRT != 0 {
            Some((-6, "Aborted, SIGABRT=6"))
        } else if b & SIGFPE != 0 {
            Some((-8, "Erroneous Arithmetic Operation, SIGFPE=8"))
        } else if b & SIGKILL != 0 {
            Some((-9, "Killed, SIGKILL=9"))
        } else if b & SIGSEGV != 0 {
            Some((-11, "Segmentation Fault, SIGSEGV=11"))
        } else {
            None
        }
    }
}

/// What to do on one signal: a user handler address and the mask to apply
/// while it runs. Handler 0 is the default action.
#[derive(Clone, Copy, PartialEq, Eq, Structural, Debug)]
pub struct SignalAction {
    pub handler: usize,
    pub mask: SignalFlags,
}

impl Default for SignalAction {
    /// No handler; the default mask blocks `SIGQUIT` and `SIGTRAP`.
    fn default() -> (r: SignalAction)
        ensures
            r.handler == 0,
            r.mask.bits == SIGQUIT | SIGTRAP,
    {
        SignalAction { handler: 0, mask: SignalFlags { bits: SIGQUIT | SIGTRAP } }
    }
}

/// One action per signal number.
pub struct SignalActions {
    pub table: Vec<SignalAction>,
}

impl SignalActions {
    pub open spec fn wf(self) -> bool {
        self.table@.len() == MAX_SIG + 1
    }

    /// Duplicate the table, as `fork` must.
    pub fn duplicate(&self) -> (r: SignalActions)
        ensures
            r.table@ == self.table@,
    {
        let mut table: Vec<SignalAction> = Vec::new();
        let n = self.table.len();
        let mut i: usize = 0;
        while i < n
            invariant
                i <= n,
                n == self.table@.len(),
                table@.len() == i,
                forall|j: int| 0 <= j < i ==> table@[j] == self.table@[j],
            decreases n - i,
        {
            table.push(self.table[i]);
            i = i + 1;
        }
        proof {
            assert(table@ =~= self.table@);
        }
        SignalActions { table }
    }
}

impl Default for SignalActions {
    /// Every signal starts with the default action.
    fn default() -> (r: SignalActions)
        ensures
            r.wf(),
            forall|i: int|
                0 <= i < MAX_SIG + 1 ==> (#[trigger] r.table@[i]).handler == 0
                    && r.table@[i].mask.bits == SIGQUIT | SIGTRAP,
    {
        let mut table: Vec<SignalAction> = Vec::new();
        let mut i: usize = 0;
        while i < MAX_SIG + 1
            invariant
                i <= MAX_SIG + 1,
                table@.len() == i,
                forall|j: int|
                    0 <= j < i ==> (#[trigger] table@[j]).handler == 0 && table@[j].mask.bits
                        == SIGQUIT | SIGTRAP,
            decreases MAX_SIG + 1 - i,
        {
            table.push(SignalAction::default());
            i = i + 1;
        }
        SignalActions { table }
    }
}

} // verus!
