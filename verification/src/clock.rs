//! Readings of the clock.
//!
//! Nothing else stands in this module, so no other can see what a reading is: a text
//! passes for one only if a call of the clock gave it.
use vstd::prelude::*;
use crate::response::is_date;

verus! {

/// Whether a text is one that the clock gave: a time stamp. That any other time stamp
/// is one too cannot be proved elsewhere.
pub closed spec fn given_by_clock(s: Seq<char>) -> bool {
    is_date(s)
}

/// What the clock gave is a time stamp.
pub proof fn readings_are_dates(s: Seq<char>)
    requires
        given_by_clock(s),
    ensures
        is_date(s),
{
}

} // verus!
