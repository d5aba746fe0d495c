//! The map in which an axis reports the pairs of proxies that start or stop
//! overlapping.

use parry3d::utils::hashmap::HashMap;
use vstd::prelude::*;

verus! {

/// `rustc_hash::FxHasher`, the hasher of the reporting map. Nothing is
/// claimed of it; it only occurs in the type of the map.
#[verifier::external_type_specification]
#[verifier::external_body]
pub struct ExFxHasher(rustc_hash::FxHasher);

/// `std::hash::BuildHasherDefault`, which builds the hasher of the reporting
/// map. Nothing is claimed of it; it only occurs in the type of the map.
#[verifier::external_type_specification]
#[verifier::external_body]
#[verifier::reject_recursive_types(H)]
pub struct ExBuildHasherDefault<H>(std::hash::BuildHasherDefault<H>);

/// `HashMap::insert` on a map keyed by pairs of proxy indices: afterwards
/// the map holds `value` under `pair` and every other entry as before.
#[verifier::external_body]
pub(crate) fn report_pair(reporting: &mut HashMap<(u32, u32), bool>, pair: (u32, u32), value: bool)
    ensures
        final(reporting)@ == old(reporting)@.insert(pair, value),
{
    reporting.insert(pair, value);
}

} // verus!
