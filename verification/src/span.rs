//! Spans of time.

use vstd::prelude::*;

verus! {

/// A span of time, to the nanosecond.
#[derive(Debug, Clone, Copy, PartialEq, Eq, Structural)]
pub struct Span {
    /// Whole seconds.
    pub secs: u64,
    /// Nanoseconds beyond them, less than a second.
    pub nanos: u32,
}

/// How `std::time::Duration` of `secs` seconds and `nanos` nanoseconds prints
/// itself under `{:?}`.
pub uninterp spec fn duration_debug(secs: u64, nanos: u32) -> Seq<char>;

/// `std::time::Duration`'s `Debug`: a text that depends on the duration alone.
#[verifier::external_body]
fn duration_text(secs: u64, nanos: u32) -> (s: String)
    requires
        nanos < 1_000_000_000,
    ensures
        s@ == duration_debug(secs, nanos),
{
    format!("{:?}", std::time::Duration::new(secs, nanos))
}

impl Span {
    /// Whether the nanoseconds stay below a second.
    pub open spec fn wf(self) -> bool {
        self.nanos < 1_000_000_000
    }

    /// The span in nanoseconds.
    pub open spec fn in_nanos(self) -> nat {
        (self.secs * 1_000_000_000 + self.nanos) as nat
    }

    /// The span of so many nanoseconds.
    pub open spec fn of_nanos(n: nat) -> Span {
        Span { secs: (n / 1_000_000_000) as u64, nanos: (n % 1_000_000_000) as u32 }
    }

    /// What is left of this span after another, or nothing.
    pub open spec fn minus(self, other: Span) -> Span {
        if self.in_nanos() < other.in_nanos() {
            Span::of_nanos(0)
        } else {
            Span::of_nanos((self.in_nanos() - other.in_nanos()) as nat)
        }
    }

    /// A span of whole milliseconds.
    pub fn from_millis(millis: u64) -> (span: Span)
        ensures
            span.wf(),
            span.in_nanos() == millis * 1_000_000,
    {
        Span { secs: millis / 1000, nanos: (millis % 1000) as u32 * 1_000_000 }
    }

    /// Whether this span is shorter than `other`.
    pub fn is_shorter(self, other: Span) -> (yes: bool)
        requires
            self.wf(),
            other.wf(),
        ensures
            yes == (self.in_nanos() < other.in_nanos()),
    {
        self.secs < other.secs || (self.secs == other.secs && self.nanos < other.nanos)
    }

    /// The longer of two spans.
    pub fn longer(self, other: Span) -> (span: Span)
        requires
            self.wf(),
            other.wf(),
        ensures
            span == (if self.in_nanos() < other.in_nanos() {
                other
            } else {
                self
            }),
    {
        if self.is_shorter(other) {
            other
        } else {
            self
        }
    }

    /// What is left of this span after `other`, or nothing.
    pub fn less(self, other: Span) -> (span: Span)
        requires
            self.wf(),
            other.wf(),
        ensures
            span.wf(),
            span == self.minus(other),
    {
        if self.is_shorter(other) {
            Span { secs: 0, nanos: 0 }
        } else if self.nanos >= other.nanos {
            Span { secs: self.secs - other.secs, nanos: self.nanos - other.nanos }
        } else {
            Span {
                secs: self.secs - other.secs - 1,
                nanos: self.nanos + 1_000_000_000 - other.nanos,
            }
        }
    }

    /// The span as `{:?}` prints a duration, e.g. `2s`.
    pub fn to_text(self) -> (s: String)
        requires
            self.wf(),
        ensures
            s@ == duration_debug(self.secs, self.nanos),
    {
        duration_text(self.secs, self.nanos)
    }
}

} // verus!
