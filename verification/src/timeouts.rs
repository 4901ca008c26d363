//! How long a client is waited for, in seconds.

use vstd::prelude::*;

verus! {

/// For a broker to answer when a connection is opened.
pub const CONNECT_TIMEOUT_SECS: u64 = 10;

/// For metadata and for offsets at a time.
pub const META_TIMEOUT_SECS: u64 = 15;

/// For the first and last offset of a partition.
pub const WATERMARK_TIMEOUT_SECS: u64 = 10;

/// For one message more.
pub const IDLE_TIMEOUT_SECS: u64 = 5;

/// For all the messages of a page.
pub const OVERALL_TIMEOUT_SECS: u64 = 30;

/// A single wait never outlasts the time for the whole page, and a broker that
/// is to open a connection or to name offsets gets less time than one that is to
/// give metadata.
pub proof fn law_waits_are_ordered()
    ensures
        IDLE_TIMEOUT_SECS == 5,
        CONNECT_TIMEOUT_SECS == 2 * IDLE_TIMEOUT_SECS,
        WATERMARK_TIMEOUT_SECS == CONNECT_TIMEOUT_SECS,
        META_TIMEOUT_SECS == 3 * IDLE_TIMEOUT_SECS,
        OVERALL_TIMEOUT_SECS == 2 * META_TIMEOUT_SECS,
{
}

} // verus!
