//! Sets of signals.
use vstd::prelude::*;

verus! {

/// The greatest number of a signal.
pub const MAX_SIG: usize = 31;

pub const SIGDEF: u32 = 1;

pub const SIGHUP: u32 = 2;

pub const SIGINT: u32 = 4;

pub const SIGQUIT: u32 = 8;

pub const SIGILL: u32 = 16;

pub const SIGTRAP: u32 = 32;

pub const SIGABRT: u32 = 64;

pub const SIGBUS: u32 = 128;

pub const SIGFPE: u32 = 256;

pub const SIGKILL: u32 = 512;

pub const SIGUSR1: u32 = 1024;

pub const SIGSEGV: u32 = 2048;

pub const SIGUSR2: u32 = 4096;

pub const SIGPIPE: u32 = 8192;

pub const SIGALRM: u32 = 16384;

pub const SIGTERM: u32 = 32768;

pub const SIGSTKFLT: u32 = 65536;

pub const SIGCHLD: u32 = 131072;

pub const SIGCONT: u32 = 262144;

pub const SIGSTOP: u32 = 524288;

/// A set of signals: bit `n` stands for signal `n`.
#[derive(Copy, Clone, PartialEq, Eq, Structural, Debug)]
pub struct SignalFlags {
    pub bits: u32,
}

/// The bit of signal `sig`.
pub open spec fn signal_bit(sig: int) -> u32 {
    1u32 << (sig as u32)
}

impl SignalFlags {
    /// The empty set.
    pub fn empty() -> (r: Self)
        ensures
            r.bits == 0,
    {
        Self { bits: 0 }
    }

    /// The set with the given bits; every bit is a signal.
    pub fn from_bits(bits: u32) -> (r: Option<Self>)
        ensures
            r == Some(SignalFlags { bits }),
    {
        Some(Self { bits })
    }

    /// The set of signal `sig` alone.
    pub fn of(sig: usize) -> (r: Self)
        requires
            sig <= MAX_SIG,
        ensures
            r.bits == signal_bit(sig as int),
    {
        Self { bits: 1u32 << (sig as u32) }
    }

    /// Whether every signal of `other` is in the set.
    pub fn contains(&self, other: Self) -> (r: bool)
        ensures
            r == (self.bits & other.bits == other.bits),
    {
        self.bits & other.bits == other.bits
    }

    /// Whether no signal is in the set.
    pub fn is_empty(&self) -> (r: bool)
        ensures
            r == (self.bits == 0),
    {
        self.bits == 0
    }

    /// Puts the signals of `other` into the set.
    pub fn insert(&mut self, other: Self)
        ensures
            final(self).bits == old(self).bits | other.bits,
    {
        self.bits = self.bits | other.bits;
    }

    /// Takes the signals of `other`, which are in the set, out of it.
    pub fn toggle(&mut self, other: Self)
        ensures
            final(self).bits == old(self).bits ^ other.bits,
    {
        self.bits = self.bits ^ other.bits;
    }

    /// The exit code and the message with which a process ends that has one
    /// of the signals that end a process in the set; the lowest such signal counts.
    pub fn check_error(&self) -> (r: Option<(i32, &'static str)>)
        ensures
            r.is_some() == (self.bits & (SIGINT | SIGILL | SIGABRT | SIGFPE | SIGSEGV) != 0),
            r.is_some() ==> r.unwrap().0 == if self.bits & SIGINT == SIGINT {
                -2i32
            } else if self.bits & SIGILL == SIGILL {
                -4i32
            } else if self.bits & SIGABRT == SIGABRT {
                -6i32
            } else if self.bits & SIGFPE == SIGFPE {
                -8i32
            } else {
                -11i32
            },
    {
        let b: u32 = self.bits;
        assert((b & (4u32 | 16u32 | 64u32 | 256u32 | 2048u32) != 0) == (b & 4 == 4 || b & 16 == 16 || b
            & 64 == 64 || b & 256 == 256 || b & 2048 == 2048)) by (bit_vector);
        if b & SIGINT == SIGINT {
            Some((-2, "Killed, SIGINT=2"))
        } else if b & SIGILL == SIGILL {
            Some((-4, "Illegal Instruction, SIGILL=4"))
        } else if b & SIGABRT == SIGABRT {
            Some((-6, "Aborted, SIGABRT=6"))
        } else if b & SIGFPE == SIGFPE {
            Some((-8, "Erroneous Arithmetic Operation, SIGFPE=8"))
        } else if b & SIGSEGV == SIGSEGV {
            Some((-11, "Segmentation Fault, SIGSEGV=11"))
        } else {
            None
        }
    }
}

/// Signal idempotence: a signal that is delivered twice is pending as if
/// it had been delivered once.
pub proof fn lemma_signal_idempotent(pending: u32, signal: u32)
    ensures
        (pending | signal) | signal == pending | signal,
        (pending | signal) & signal == signal,
{
    assert((pending | signal) | signal == pending | signal && (pending | signal) & signal == signal)
        by (bit_vector);
}

} // verus!
