//! Log sequence numbers and page keys.

use std::cmp::Ordering;
use vstd::prelude::*;
use vstd::std_specs::cmp::PartialOrdSpecImpl;

verus! {

/// A log sequence number: a totally ordered version stamp. `Lsn(0)` stands
/// for "invalid / unset".
#[derive(Clone, Copy, Debug, PartialEq, Eq, Structural, Hash)]
pub struct Lsn(pub u64);

impl Lsn {
    /// Whether this LSN denotes a real position in the log.
    pub fn is_valid(&self) -> (r: bool)
        ensures
            r == (self.0 != 0),
    {
        self.0 != 0
    }

    /// `self - horizon`, unless that would fall below zero.
    pub fn checked_sub(&self, horizon: u64) -> (r: Option<Lsn>)
        ensures
            r == (if self.0 >= horizon {
                Some(Lsn((self.0 - horizon) as u64))
            } else {
                None
            }),
    {
        if self.0 >= horizon {
            Some(Lsn(self.0 - horizon))
        } else {
            None
        }
    }
}

impl PartialOrd for Lsn {
    fn partial_cmp(&self, other: &Lsn) -> (r: Option<Ordering>) {
        if self.0 < other.0 {
            Some(Ordering::Less)
        } else if self.0 == other.0 {
            Some(Ordering::Equal)
        } else {
            Some(Ordering::Greater)
        }
    }
}

impl PartialOrdSpecImpl for Lsn {
    open spec fn obeys_partial_cmp_spec() -> bool {
        true
    }

    open spec fn partial_cmp_spec(&self, other: &Lsn) -> Option<Ordering> {
        if self.0 < other.0 {
            Some(Ordering::Less)
        } else if self.0 == other.0 {
            Some(Ordering::Equal)
        } else {
            Some(Ordering::Greater)
        }
    }
}

/// A page address: an opaque, totally ordered identifier.
#[derive(Clone, Copy, Debug, PartialEq, Eq, Structural, Hash)]
pub struct Key(pub u64);

impl PartialOrd for Key {
    fn partial_cmp(&self, other: &Key) -> (r: Option<Ordering>) {
        if self.0 < other.0 {
            Some(Ordering::Less)
        } else if self.0 == other.0 {
            Some(Ordering::Equal)
        } else {
            Some(Ordering::Greater)
        }
    }
}

impl PartialOrdSpecImpl for Key {
    open spec fn obeys_partial_cmp_spec() -> bool {
        true
    }

    open spec fn partial_cmp_spec(&self, other: &Key) -> Option<Ordering> {
        if self.0 < other.0 {
            Some(Ordering::Less)
        } else if self.0 == other.0 {
            Some(Ordering::Equal)
        } else {
            Some(Ordering::Greater)
        }
    }
}

} // verus!
