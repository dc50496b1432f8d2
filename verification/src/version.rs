//! USB specification versions, as devices declare them.

use core::cmp::Ordering;
use vstd::prelude::*;

verus! {

/// A declared version: major, minor and sub minor.
#[derive(Debug, Clone, Copy, PartialEq, Eq, Structural)]
pub struct Version(pub u8, pub u8, pub u8);

/// A hub declaring at least this may be the USB 2.0 half of a USB 3.x
/// receptacle. One declaring USB 2.0 has no `SuperSpeed` half.
#[verifier::allow_in_spec]
pub fn usb_bos() -> Version
    returns
        Version(2, 1, 0),
{
    Version(2, 1, 0)
}

/// A hub declaring at least this is a `SuperSpeed` hub.
#[verifier::allow_in_spec]
pub fn usb_ss() -> Version
    returns
        Version(3, 0, 0),
{
    Version(3, 0, 0)
}

/// How two versions compare: by major, then minor, then sub minor.
pub open spec fn version_order(a: Version, b: Version) -> Ordering {
    if a == b {
        Ordering::Equal
    } else if a.0 < b.0 || (a.0 == b.0 && (a.1 < b.1 || (a.1 == b.1 && a.2 < b.2))) {
        Ordering::Less
    } else {
        Ordering::Greater
    }
}

/// Whether `a` is `b` or later.
pub open spec fn at_least(a: Version, b: Version) -> bool {
    a.0 > b.0 || (a.0 == b.0 && (a.1 > b.1 || (a.1 == b.1 && a.2 >= b.2)))
}

impl PartialOrd for Version {
    fn partial_cmp(&self, other: &Self) -> (order: Option<Ordering>) {
        if self.0 != other.0 {
            if self.0 < other.0 {
                Some(Ordering::Less)
            } else {
                Some(Ordering::Greater)
            }
        } else if self.1 != other.1 {
            if self.1 < other.1 {
                Some(Ordering::Less)
            } else {
                Some(Ordering::Greater)
            }
        } else if self.2 != other.2 {
            if self.2 < other.2 {
                Some(Ordering::Less)
            } else {
                Some(Ordering::Greater)
            }
        } else {
            Some(Ordering::Equal)
        }
    }
}

impl vstd::std_specs::cmp::PartialOrdSpecImpl for Version {
    open spec fn obeys_partial_cmp_spec() -> bool {
        true
    }

    open spec fn partial_cmp_spec(&self, other: &Self) -> Option<Ordering> {
        Some(version_order(*self, *other))
    }
}

impl Version {
    /// Whether this is `other` or later.
    pub fn reaches(self, other: Version) -> (yes: bool)
        ensures
            yes == at_least(self, other),
    {
        self >= other
    }

    /// Whether this is at least USB 3.0.
    pub fn is_super_speed(self) -> (yes: bool)
        ensures
            yes == at_least(self, usb_ss()),
    {
        self >= usb_ss()
    }
}

} // verus!
