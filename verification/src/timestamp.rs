use vstd::prelude::*;

verus! {

/// A UTC wall-clock instant, held as plain calendar fields.
///
/// The snapshot's creation time is recorded in this form so that the
/// serializer can render it as an RFC 3339 date-time string (always with
/// the `Z` offset) from the fields alone.
#[derive(Clone, Copy, PartialEq, Eq, Structural, Debug)]
pub struct Timestamp {
    pub year: u16,
    pub month: u8,
    pub day: u8,
    pub hour: u8,
    pub minute: u8,
    pub second: u8,
}

impl Timestamp {
    /// Every field lies in the span that a four- or two-digit RFC 3339
    /// component can carry.
    pub open spec fn wf(self) -> bool {
        &&& self.year <= 9999
        &&& 1 <= self.month <= 12
        &&& 1 <= self.day <= 31
        &&& self.hour <= 23
        &&& self.minute <= 59
        &&& self.second <= 59
    }

    /// Runtime check of `wf`, for callers outside verified code.
    pub fn is_valid(&self) -> (b: bool)
        ensures
            b == self.wf(),
    {
        self.year <= 9999 && self.month >= 1 && self.month <= 12 && self.day >= 1
            && self.day <= 31 && self.hour <= 23 && self.minute <= 59 && self.second <= 59
    }
}

} // verus!
