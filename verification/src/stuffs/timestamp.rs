use vstd::prelude::*;

verus! {

/// Nanoseconds in one millisecond.
pub const NANOS_PER_MILLI: u128 = 1_000_000;

/// A moment in time: the nanoseconds that have passed since the Unix epoch.
#[derive(Debug, PartialEq, Eq, Clone, Copy, Structural)]
pub struct Timestamp {
    pub nanos: u128,
}

impl View for Timestamp {
    type V = nat;

    open spec fn view(&self) -> nat {
        self.nanos as nat
    }
}

/// The whole milliseconds that pass from `from` to `to`; none where `to` is
/// the earlier moment.
pub open spec fn elapsed_millis(from: nat, to: nat) -> Option<nat> {
    if to >= from {
        Some(((to - from) / NANOS_PER_MILLI as int) as nat)
    } else {
        None
    }
}

/// Whether more than `limit` whole milliseconds pass from `from` to `to`.
pub open spec fn elapsed_exceeds(from: nat, to: nat, limit: nat) -> bool {
    elapsed_millis(from, to) matches Some(millis) && millis > limit
}

impl Timestamp {
    pub fn from_nanos(nanos: u128) -> (t: Timestamp)
        ensures
            t@ == nanos,
    {
        Timestamp { nanos }
    }

    pub fn from_millis(millis: u64) -> (t: Timestamp)
        ensures
            t@ == millis * NANOS_PER_MILLI,
    {
        let wide: u128 = millis as u128;
        assert(wide * NANOS_PER_MILLI <= u128::MAX) by (nonlinear_arith)
            requires
                wide <= u64::MAX,
        ;
        Timestamp { nanos: wide * NANOS_PER_MILLI }
    }

    /// The whole milliseconds from `earlier` to this moment.
    pub fn millis_since(&self, earlier: &Timestamp) -> (millis: Option<u128>)
        ensures
            match millis {
                Some(m) => elapsed_millis(earlier@, self@) == Some(m as nat),
                None => elapsed_millis(earlier@, self@) is None,
            },
    {
        if self.nanos >= earlier.nanos {
            Some((self.nanos - earlier.nanos) / NANOS_PER_MILLI)
        } else {
            None
        }
    }

    /// Whether this moment lies more than `limit` whole milliseconds after
    /// `earlier`.
    pub fn exceeds(&self, earlier: &Timestamp, limit: u64) -> (over: bool)
        ensures
            over == elapsed_exceeds(earlier@, self@, limit as nat),
    {
        match self.millis_since(earlier) {
            Some(millis) => millis > limit as u128,
            None => false,
        }
    }
}

} // verus!
