//! The proxies that the broad phase tracks: one bounding box per collider.

use crate::geometry::aabb::Aabb;
use vstd::prelude::*;

verus! {

/// What the broad phase knows of one collider.
#[derive(Clone, Copy, Debug)]
pub struct BroadPhaseProxy {
    pub aabb: Aabb,
}

/// The proxies of the broad phase; a proxy is known by its index.
pub struct BroadPhaseProxies {
    pub elements: Vec<BroadPhaseProxy>,
}

impl View for BroadPhaseProxies {
    type V = Seq<BroadPhaseProxy>;

    open spec fn view(&self) -> Seq<BroadPhaseProxy> {
        self.elements@
    }
}

impl BroadPhaseProxies {
    pub fn new() -> (r: BroadPhaseProxies)
        ensures
            r@.len() == 0,
    {
        BroadPhaseProxies { elements: Vec::new() }
    }

    /// Adds a proxy and returns its index.
    pub fn insert(&mut self, proxy: BroadPhaseProxy) -> (id: usize)
        ensures
            final(self)@ == old(self)@.push(proxy),
            id == old(self)@.len(),
    {
        let id = self.elements.len();
        self.elements.push(proxy);
        id
    }

    pub fn len(&self) -> (n: usize)
        ensures
            n == self@.len(),
    {
        self.elements.len()
    }

    pub fn get(&self, id: usize) -> (proxy: &BroadPhaseProxy)
        requires
            id < self@.len(),
        ensures
            *proxy == self@[id as int],
    {
        &self.elements[id]
    }

    /// Replaces the bounding box of a proxy.
    pub fn set_aabb(&mut self, id: usize, aabb: Aabb)
        requires
            id < old(self)@.len(),
        ensures
            final(self)@ == old(self)@.update(id as int, BroadPhaseProxy { aabb }),
    {
        self.elements[id] = BroadPhaseProxy { aabb };
    }
}

} // verus!
