//! The endpoints of the intervals that proxies cover on one axis.

use crate::math::Real;
use vstd::prelude::*;

verus! {

/// Number of sentinels at each end of an axis.
pub const NUM_SENTINELS: usize = 1;

/// The proxy index that marks a sentinel; no proxy has it.
pub const SENTINEL_PROXY: u32 = 0xffff_ffff;

/// One end of the interval that a proxy covers on an axis.
#[derive(Clone, Copy, Debug, PartialEq, Eq, Structural)]
pub struct SAPEndpoint {
    /// Coordinate of the endpoint on the axis.
    pub value: Real,
    /// Whether the interval starts here; it ends here otherwise.
    pub start: bool,
    /// Index of the proxy, or the sentinel mark.
    pub proxy_id: u32,
}

impl SAPEndpoint {
    pub open spec fn spec_start_endpoint(value: Real, proxy: u32) -> SAPEndpoint {
        SAPEndpoint { value, start: true, proxy_id: proxy }
    }

    pub open spec fn spec_end_endpoint(value: Real, proxy: u32) -> SAPEndpoint {
        SAPEndpoint { value, start: false, proxy_id: proxy }
    }

    /// The sentinel below every endpoint.
    pub open spec fn spec_start_sentinel() -> SAPEndpoint {
        SAPEndpoint { value: Real { raw: i64::MIN }, start: true, proxy_id: SENTINEL_PROXY }
    }

    /// The sentinel above every endpoint.
    pub open spec fn spec_end_sentinel() -> SAPEndpoint {
        SAPEndpoint { value: Real { raw: i64::MAX }, start: false, proxy_id: SENTINEL_PROXY }
    }

    pub open spec fn spec_is_sentinel(self) -> bool {
        self.proxy_id == SENTINEL_PROXY
    }

    pub open spec fn spec_proxy(self) -> u32 {
        self.proxy_id
    }

    pub open spec fn spec_is_start(self) -> bool {
        self.start
    }

    pub open spec fn spec_is_end(self) -> bool {
        !self.start
    }

    #[verifier::when_used_as_spec(spec_start_endpoint)]
    pub fn start_endpoint(value: Real, proxy: u32) -> (e: SAPEndpoint)
        ensures
            e == SAPEndpoint::spec_start_endpoint(value, proxy),
    {
        SAPEndpoint { value, start: true, proxy_id: proxy }
    }

    #[verifier::when_used_as_spec(spec_end_endpoint)]
    pub fn end_endpoint(value: Real, proxy: u32) -> (e: SAPEndpoint)
        ensures
            e == SAPEndpoint::spec_end_endpoint(value, proxy),
    {
        SAPEndpoint { value, start: false, proxy_id: proxy }
    }

    #[verifier::when_used_as_spec(spec_start_sentinel)]
    pub fn start_sentinel() -> (e: SAPEndpoint)
        ensures
            e == SAPEndpoint::spec_start_sentinel(),
    {
        SAPEndpoint { value: Real::min_value(), start: true, proxy_id: SENTINEL_PROXY }
    }

    #[verifier::when_used_as_spec(spec_end_sentinel)]
    pub fn end_sentinel() -> (e: SAPEndpoint)
        ensures
            e == SAPEndpoint::spec_end_sentinel(),
    {
        SAPEndpoint { value: Real::max_value(), start: false, proxy_id: SENTINEL_PROXY }
    }

    #[verifier::when_used_as_spec(spec_is_sentinel)]
    pub fn is_sentinel(self) -> (r: bool)
        ensures
            r == self.spec_is_sentinel(),
    {
        self.proxy_id == SENTINEL_PROXY
    }

    #[verifier::when_used_as_spec(spec_proxy)]
    pub fn proxy(self) -> (r: u32)
        ensures
            r == self.spec_proxy(),
    {
        self.proxy_id
    }

    #[verifier::when_used_as_spec(spec_is_start)]
    pub fn is_start(self) -> (r: bool)
        ensures
            r == self.spec_is_start(),
    {
        self.start
    }

    #[verifier::when_used_as_spec(spec_is_end)]
    pub fn is_end(self) -> (r: bool)
        ensures
            r == self.spec_is_end(),
    {
        !self.start
    }
}

/// The two indices in ascending order.
pub open spec fn spec_sort2(a: u32, b: u32) -> (u32, u32) {
    if a < b {
        (a, b)
    } else {
        (b, a)
    }
}

#[verifier::when_used_as_spec(spec_sort2)]
pub fn sort2(a: u32, b: u32) -> (pair: (u32, u32))
    ensures
        pair == spec_sort2(a, b),
{
    if a < b {
        (a, b)
    } else {
        (b, a)
    }
}

} // verus!
