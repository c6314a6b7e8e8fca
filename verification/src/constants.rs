//! The two constants of the running system by which raw counters are scaled.

use crate::error::Error;
use vstd::prelude::*;

verus! {

/// The number of clock ticks in a second and the size of a memory page in
/// bytes. Both are greater than zero in every value of this type.
#[derive(Clone, Copy, Debug)]
pub struct Constants {
    ticks_per_second: u64,
    page_size: u64,
}

impl Constants {
    #[verifier::type_invariant]
    spec fn positive(self) -> bool {
        self.ticks_per_second > 0 && self.page_size > 0
    }

    /// The number of clock ticks in a second.
    pub closed spec fn ticks(self) -> int {
        self.ticks_per_second as int
    }

    /// The size of a memory page, in bytes.
    pub closed spec fn page(self) -> int {
        self.page_size as int
    }

    /// Accepts the two values that the system reported, if both can serve as
    /// a divisor and a factor: a value that is zero or negative is the sign
    /// of a failed query.
    pub fn new(ticks_per_second: i64, page_size: i64) -> (r: Result<Constants, Error>)
        ensures
            match r {
                Ok(c) => ticks_per_second > 0 && page_size > 0 && c.ticks() == ticks_per_second
                    && c.page() == page_size,
                Err(e) => e == Error::Configuration && (ticks_per_second <= 0 || page_size <= 0),
            },
    {
        if ticks_per_second > 0 && page_size > 0 {
            Ok(Constants { ticks_per_second: ticks_per_second as u64, page_size: page_size as u64 })
        } else {
            Err(Error::Configuration)
        }
    }

    /// The number of clock ticks in a second.
    pub fn ticks_per_second(&self) -> (r: u64)
        ensures
            r == self.ticks(),
            r > 0,
    {
        proof {
            use_type_invariant(self);
        }
        self.ticks_per_second
    }

    /// The size of a memory page, in bytes.
    pub fn page_size(&self) -> (r: u64)
        ensures
            r == self.page(),
            r > 0,
    {
        proof {
            use_type_invariant(self);
        }
        self.page_size
    }
}

} // verus!
