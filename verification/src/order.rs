//! The order of times, of records and of events, as the comparison
//! operators see it.

use crate::ass_parser::Event;
use crate::srt_parser::Block;
use crate::time::Time;
use std::cmp::Ordering;
use vstd::prelude::*;
use vstd::std_specs::cmp::PartialOrdSpecImpl;

verus! {

impl PartialOrd for Time {
    /// Times are ordered by the whole second, then by the nanoseconds.
    fn partial_cmp(&self, other: &Time) -> (out: Option<Ordering>) {
        if self.is_before(other) {
            Some(Ordering::Less)
        } else if other.is_before(self) {
            Some(Ordering::Greater)
        } else {
            Some(Ordering::Equal)
        }
    }
}

impl PartialOrdSpecImpl for Time {
    open spec fn obeys_partial_cmp_spec() -> bool {
        true
    }

    open spec fn partial_cmp_spec(&self, other: &Time) -> Option<Ordering> {
        if self@.before(other@) {
            Some(Ordering::Less)
        } else if other@.before(self@) {
            Some(Ordering::Greater)
        } else {
            Some(Ordering::Equal)
        }
    }
}

impl PartialOrd for Block {
    /// Records are ordered by start, then by end. Two records with the
    /// same times are not ordered.
    fn partial_cmp(&self, other: &Block) -> (out: Option<Ordering>) {
        match self.start().partial_cmp(&other.start()) {
            Some(Ordering::Equal) => {},
            ord => {
                return ord;
            },
        }
        match self.end().partial_cmp(&other.end()) {
            Some(Ordering::Equal) => {},
            ord => {
                return ord;
            },
        }
        None
    }
}

impl PartialOrdSpecImpl for Block {
    open spec fn obeys_partial_cmp_spec() -> bool {
        true
    }

    open spec fn partial_cmp_spec(&self, other: &Block) -> Option<Ordering> {
        if self@.start.before(other@.start) {
            Some(Ordering::Less)
        } else if other@.start.before(self@.start) {
            Some(Ordering::Greater)
        } else if self@.end.before(other@.end) {
            Some(Ordering::Less)
        } else if other@.end.before(self@.end) {
            Some(Ordering::Greater)
        } else {
            None
        }
    }
}

impl PartialOrd for Event {
    /// Events are ordered by start alone.
    fn partial_cmp(&self, other: &Event) -> (out: Option<Ordering>) {
        self.start.partial_cmp(&other.start)
    }
}

impl PartialOrdSpecImpl for Event {
    open spec fn obeys_partial_cmp_spec() -> bool {
        true
    }

    open spec fn partial_cmp_spec(&self, other: &Event) -> Option<Ordering> {
        if self@.start.before(other@.start) {
            Some(Ordering::Less)
        } else if other@.start.before(self@.start) {
            Some(Ordering::Greater)
        } else {
            Some(Ordering::Equal)
        }
    }
}

} // verus!
