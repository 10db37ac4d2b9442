//! Signals: one bit per signal number in a 32-bit set.
use vstd::prelude::*;

verus! {

/// The largest signal number.
pub const MAX_SIG: usize = 31;

pub const SIGDEF: u32 = 1;
pub const SIGHUP: u32 = 1 << 1;
pub const SIGINT: u32 = 1 << 2;
pub const SIGQUIT: u32 = 1 << 3;
pub const SIGILL: u32 = 1 << 4;
pub const SIGTRAP: u32 = 1 << 5;
pub const SIGABRT: u32 = 1 << 6;
pub const SIGBUS: u32 = 1 << 7;
pub const SIGFPE: u32 = 1 << 8;
pub const SIGKILL: u32 = 1 << 9;
pub const SIGUSR1: u32 = 1 << 10;
pub const SIGSEGV: u32 = 1 << 11;
pub const SIGUSR2: u32 = 1 << 12;
pub const SIGPIPE: u32 = 1 << 13;
pub const SIGALRM: u32 = 1 << 14;
pub const SIGTERM: u32 = 1 << 15;
pub const SIGSTKFLT: u32 = 1 << 16;
pub const SIGCHLD: u32 = 1 << 17;
pub const SIGCONT: u32 = 1 << 18;
pub const SIGSTOP: u32 = 1 << 19;
pub const SIGTSTP: u32 = 1 << 20;
pub const SIGTTIN: u32 = 1 << 21;
pub const SIGTTOU: u32 = 1 << 22;
pub const SIGURG: u32 = 1 << 23;
pub const SIGXCPU: u32 = 1 << 24;
pub const SIGXFSZ: u32 = 1 << 25;
pub const SIGVTALRM: u32 = 1 << 26;
pub const SIGPROF: u32 = 1 << 27;
pub const SIGWINCH: u32 = 1 << 28;
pub const SIGIO: u32 = 1 << 29;
pub const SIGPWR: u32 = 1 << 30;
pub const SIGSYS: u32 = 1 << 31;

/// The bit of signal number `sig`.
pub open spec fn sig_bit(sig: u32) -> u32 {
    1u32 << sig
}

/// A set of signals, signal number `n` being bit `n`.
#[derive(Copy, Clone, PartialEq, Eq, Structural, Debug)]
pub struct SignalFlags {
    pub bits: u32,
}

impl SignalFlags {
    /// Every signal of `other` is in `self`.
    pub open spec fn has(self, other: SignalFlags) -> bool {
        self.bits & other.bits == other.bits
    }

    /// The set with exactly the bits given; every bit names a signal.
    pub fn from_bits(bits: u32) -> (r: Option<SignalFlags>)
        ensures
            r == Some(SignalFlags { bits }),
    {
        Some(SignalFlags { bits })
    }

    pub fn empty() -> (r: SignalFlags)
        ensures
            r.bits == 0,
    {
        SignalFlags { bits: 0 }
    }

    pub fn bits(&self) -> (r: u32)
        ensures
            r == self.bits,
    {
        self.bits
    }

    /// Whether every signal of `other` is in `self`.
    pub fn contains(&self, other: SignalFlags) -> (r: bool)
        ensures
            r == self.has(other),
    {
        self.bits & other.bits == other.bits
    }

    /// Adds the signals of `other` (`|=`).
    pub fn insert(&mut self, other: SignalFlags)
        ensures
            final(self).bits == old(self).bits | other.bits,
    {
        self.bits = self.bits | other.bits;
    }

    /// Flips the signals of `other` (`^=`).
    pub fn toggle(&mut self, other: SignalFlags)
        ensures
            final(self).bits == old(self).bits ^ other.bits,
    {
        self.bits = self.bits ^ other.bits;
    }

    /// The exit code and message of the first fatal signal in the set, in
    /// the order SIGINT, SIGILL, SIGABRT, SIGFPE, SIGSEGV.
    pub open spec fn error_of(self) -> Option<(i32, &'static str)> {
        if self.has(SignalFlags { bits: SIGINT }) {
            Some((-2i32, "Killed, SIGINT=2"))
        } else if self.has(SignalFlags { bits: SIGILL }) {
            Some((-4i32, "Illegal Instruction, SIGILL=4"))
        } else if self.has(SignalFlags { bits: SIGABRT }) {
            Some((-6i32, "Aborted, SIGABRT=6"))
        } else if self.has(SignalFlags { bits: SIGFPE }) {
            Some((-8i32, "Erroneous Arithmetic Operation, SIGFPE=8"))
        } else if self.has(SignalFlags { bits: SIGSEGV }) {
            Some((-11i32, "Segmentation Fault, SIGSEGV=11"))
        } else {
            None
        }
    }

    /// The exit code and message of the first fatal signal in the set.
    pub fn check_error(&self) -> (r: Option<(i32, &'static str)>)
        ensures
            r == self.error_of(),
    {
        if self.contains(SignalFlags { bits: SIGINT }) {
            Some((-2, "Killed, SIGINT=2"))
        } else if self.contains(SignalFlags { bits: SIGILL }) {
            Some((-4, "Illegal Instruction, SIGILL=4"))
        } else if self.contains(SignalFlags { bits: SIGABRT }) {
            Some((-6, "Aborted, SIGABRT=6"))
        } else if self.contains(SignalFlags { bits: SIGFPE }) {
            Some((-8, "Erroneous Arithmetic Operation, SIGFPE=8"))
        } else if self.contains(SignalFlags { bits: SIGSEGV }) {
            Some((-11, "Segmentation Fault, SIGSEGV=11"))
        } else {
            None
        }
    }
}

/// The values of the fatal signals' bits.
proof fn lemma_fatal_bits()
    ensures
        SIGINT == 4u32,
        SIGILL == 16u32,
        SIGABRT == 64u32,
        SIGFPE == 256u32,
        SIGSEGV == 2048u32,
{
    assert(1u32 << 2u32 == 4u32) by (bit_vector);
    assert(1u32 << 4u32 == 16u32) by (bit_vector);
    assert(1u32 << 6u32 == 64u32) by (bit_vector);
    assert(1u32 << 8u32 == 256u32) by (bit_vector);
    assert(1u32 << 11u32 == 2048u32) by (bit_vector);
}

/// A set of signals is reported as an error exactly when it holds one of
/// SIGINT, SIGILL, SIGABRT, SIGFPE, SIGSEGV; the lowest-numbered of them is
/// the one reported, its exit code being minus its number.
pub proof fn lemma_check_error_reports_first_fatal(f: SignalFlags)
    ensures
        f.error_of() is None <==> f.bits & (SIGINT | SIGILL | SIGABRT | SIGFPE | SIGSEGV) == 0,
        f.bits & SIGINT == SIGINT ==> f.error_of() == Some((-2i32, "Killed, SIGINT=2")),
        f.bits & SIGINT == 0 && f.bits & SIGILL == SIGILL ==> f.error_of() == Some(
            (-4i32, "Illegal Instruction, SIGILL=4"),
        ),
        f.bits & (SIGINT | SIGILL) == 0 && f.bits & SIGABRT == SIGABRT ==> f.error_of() == Some(
            (-6i32, "Aborted, SIGABRT=6"),
        ),
        f.bits & (SIGINT | SIGILL | SIGABRT) == 0 && f.bits & SIGFPE == SIGFPE ==> f.error_of() == Some(
            (-8i32, "Erroneous Arithmetic Operation, SIGFPE=8"),
        ),
        f.bits & (SIGINT | SIGILL | SIGABRT | SIGFPE) == 0 && f.bits & SIGSEGV == SIGSEGV ==> f.error_of()
            == Some((-11i32, "Segmentation Fault, SIGSEGV=11")),
        f.error_of() matches Some((c, m)) ==> f.bits & (1u32 << ((-c) as u32)) == (1u32 << ((-c) as u32)),
{
    lemma_fatal_bits();
    let b = f.bits;
    assert((b & 4u32 == 4u32) == (b & 4u32 != 0)) by (bit_vector);
    assert((b & 16u32 == 16u32) == (b & 16u32 != 0)) by (bit_vector);
    assert((b & 64u32 == 64u32) == (b & 64u32 != 0)) by (bit_vector);
    assert((b & 256u32 == 256u32) == (b & 256u32 != 0)) by (bit_vector);
    assert((b & 2048u32 == 2048u32) == (b & 2048u32 != 0)) by (bit_vector);
    assert((b & (4u32 | 16u32 | 64u32 | 256u32 | 2048u32) == 0) == (b & 4u32 == 0 && b & 16u32 == 0 && b & 64u32
        == 0 && b & 256u32 == 0 && b & 2048u32 == 0)) by (bit_vector);
    assert((b & (4u32 | 16u32) == 0) == (b & 4u32 == 0 && b & 16u32 == 0)) by (bit_vector);
    assert((b & (4u32 | 16u32 | 64u32) == 0) == (b & 4u32 == 0 && b & 16u32 == 0 && b & 64u32 == 0)) by (bit_vector);
    assert((b & (4u32 | 16u32 | 64u32 | 256u32) == 0) == (b & 4u32 == 0 && b & 16u32 == 0 && b & 64u32 == 0 && b
        & 256u32 == 0)) by (bit_vector);
    assert(1u32 << 2u32 == 4u32 && 1u32 << 4u32 == 16u32 && 1u32 << 6u32 == 64u32 && 1u32 << 8u32 == 256u32
        && 1u32 << 11u32 == 2048u32) by (bit_vector);
}

} // verus!
