//! Bounding boxes, proxies, and the sweep-and-prune axis that finds the pairs
//! of proxies whose boxes may overlap.

pub mod aabb;
pub mod bitset;
pub mod endpoint;
pub mod merge;
pub mod pair_map;
pub mod proxy;
pub mod sap_axis;
pub mod sap_insert;
pub mod sap_laws;
