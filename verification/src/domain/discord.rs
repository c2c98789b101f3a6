//! Fixed parameters of the Discord API requests that synchronization makes.
use vstd::prelude::*;

verus! {

/// The Discord API version that requests go to.
pub const API_VERSION: u32 = 10;

/// The most messages that one request asks for, which is also what the first
/// synchronization of a channel imports.
pub const PAGE_SIZE: usize = 100;

/// The Discord API version that requests go to: v10.
pub fn api_version() -> (v: u32)
    ensures
        v == 10,
{
    API_VERSION
}

/// How many messages one request asks for: 100.
pub fn page_size() -> (n: usize)
    ensures
        n == 100,
{
    PAGE_SIZE
}

} // verus!
