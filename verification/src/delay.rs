//! Spans of time, to the nanosecond.
use vstd::prelude::*;

verus! {

/// Nanoseconds in a second.
pub const NANOS_PER_SEC: u32 = 1_000_000_000;

/// The longest span, in nanoseconds.
pub open spec fn longest() -> nat {
    (u64::MAX * NANOS_PER_SEC + NANOS_PER_SEC - 1) as nat
}

/// So many seconds and nanoseconds, in nanoseconds.
pub open spec fn span(secs: u64, nanos: u32) -> nat {
    (secs * NANOS_PER_SEC + nanos) as nat
}

/// A span of time: whole seconds and the nanoseconds that are left.
///
/// A point in time is written as the span since some fixed earlier point.
#[derive(Debug, Clone, Copy, PartialEq, Eq, Structural)]
pub struct Delay {
    secs: u64,
    nanos: u32,
}

impl View for Delay {
    type V = nat;

    closed spec fn view(&self) -> nat {
        (self.secs * NANOS_PER_SEC + self.nanos) as nat
    }
}

impl Delay {
    #[verifier::type_invariant]
    spec fn whole(self) -> bool {
        self.nanos < NANOS_PER_SEC
    }

    /// A span of so many seconds and nanoseconds.
    pub fn new(secs: u64, nanos: u32) -> (r: Delay)
        requires
            nanos < NANOS_PER_SEC,
        ensures
            r@ == span(secs, nanos),
    {
        Delay { secs, nanos }
    }

    /// A span of whole seconds.
    pub fn from_secs(secs: u64) -> (r: Delay)
        ensures
            r@ == secs * NANOS_PER_SEC,
    {
        Delay { secs, nanos: 0 }
    }

    /// A span of milliseconds.
    pub fn from_millis(millis: u64) -> (r: Delay)
        ensures
            r@ == millis * 1_000_000,
    {
        let rest: u32 = (millis % 1000) as u32;
        Delay { secs: millis / 1000, nanos: rest * 1_000_000 }
    }

    /// The whole seconds of the span.
    pub fn as_secs(&self) -> (r: u64)
        ensures
            r == self@ / (NANOS_PER_SEC as nat),
    {
        proof {
            use_type_invariant(self);
        }
        self.secs
    }

    /// The nanoseconds of the span beyond its whole seconds.
    pub fn subsec_nanos(&self) -> (r: u32)
        ensures
            r == self@ % (NANOS_PER_SEC as nat),
            r < NANOS_PER_SEC,
    {
        proof {
            use_type_invariant(self);
        }
        self.nanos
    }

    /// Whether the span is empty.
    pub fn is_zero(&self) -> (r: bool)
        ensures
            r == (self@ == 0),
    {
        self.secs == 0 && self.nanos == 0
    }

    /// Whether the span is shorter than `other`.
    pub fn shorter_than(&self, other: &Delay) -> (r: bool)
        ensures
            r == (self@ < other@),
    {
        proof {
            use_type_invariant(self);
            use_type_invariant(other);
        }
        self.secs < other.secs || (self.secs == other.secs && self.nanos < other.nanos)
    }

    /// The shorter of two spans.
    pub fn min(self, other: Delay) -> (r: Delay)
        ensures
            r@ == if other@ < self@ {
                other@
            } else {
                self@
            },
    {
        if other.shorter_than(&self) {
            other
        } else {
            self
        }
    }

    /// The span held between two bounds.
    pub fn clamp(self, low: Delay, high: Delay) -> (r: Delay)
        requires
            low@ <= high@,
        ensures
            r@ == if self@ < low@ {
                low@
            } else if high@ < self@ {
                high@
            } else {
                self@
            },
    {
        if self.shorter_than(&low) {
            low
        } else if high.shorter_than(&self) {
            high
        } else {
            self
        }
    }

    /// Whether another span can be added to the span.
    pub fn can_grow_by(&self, other: &Delay) -> (r: bool)
        ensures
            r == (self@ + other@ <= longest()),
    {
        proof {
            use_type_invariant(self);
            use_type_invariant(other);
        }
        let nanos: u32 = self.nanos + other.nanos;
        let carry: u64 = if nanos < NANOS_PER_SEC {
            0
        } else {
            1
        };
        match self.secs.checked_add(other.secs) {
            Some(secs) => secs <= u64::MAX - carry,
            None => false,
        }
    }

    /// The sum of two spans.
    pub fn plus(self, other: Delay) -> (r: Delay)
        requires
            self@ + other@ <= longest(),
        ensures
            r@ == self@ + other@,
    {
        proof {
            use_type_invariant(&self);
            use_type_invariant(&other);
        }
        let nanos: u32 = self.nanos + other.nanos;
        if nanos < NANOS_PER_SEC {
            Delay { secs: self.secs + other.secs, nanos }
        } else {
            Delay { secs: self.secs + other.secs + 1, nanos: nanos - NANOS_PER_SEC }
        }
    }

    /// What is left of the span after `other`, or nothing.
    pub fn saturating_sub(self, other: Delay) -> (r: Delay)
        ensures
            r@ == if other@ <= self@ {
                self@ - other@
            } else {
                0
            },
    {
        proof {
            use_type_invariant(&self);
            use_type_invariant(&other);
        }
        if self.shorter_than(&other) {
            Delay { secs: 0, nanos: 0 }
        } else if other.nanos <= self.nanos {
            Delay { secs: self.secs - other.secs, nanos: self.nanos - other.nanos }
        } else {
            Delay {
                secs: self.secs - other.secs - 1,
                nanos: self.nanos + NANOS_PER_SEC - other.nanos,
            }
        }
    }
}

/// Spans are counted in nanoseconds, a billion to the second and a million to the millisecond.
pub proof fn spans_are_counted_in_nanoseconds(
    secs: u64,
    nanos: u32,
    millis: u64,
    whole: Delay,
    seconds: Delay,
    milliseconds: Delay,
)
    requires
        call_ensures(Delay::new, (secs, nanos), whole),
        call_ensures(Delay::from_secs, (secs,), seconds),
        call_ensures(Delay::from_millis, (millis,), milliseconds),
    ensures
        whole@ == secs * 1_000_000_000 + nanos,
        seconds@ == secs * 1_000_000_000,
        milliseconds@ == millis * 1_000_000,
{
}

/// A span is its whole seconds and the nanoseconds beyond them.
pub proof fn spans_are_seconds_and_nanoseconds(delay: Delay, secs: u64, nanos: u32)
    requires
        call_ensures(Delay::as_secs, (&delay,), secs),
        call_ensures(Delay::subsec_nanos, (&delay,), nanos),
    ensures
        delay@ == secs * 1_000_000_000 + nanos,
        nanos < 1_000_000_000,
{
    vstd::arithmetic::div_mod::lemma_fundamental_div_mod(delay@ as int, 1_000_000_000);
}

} // verus!
