//! Identifier kinds and the monotonic allocator that produces them.
//!
//! Identifiers are process-wide unique and never reused.  The counter is
//! an explicit value injected by the caller rather than hidden global
//! state, so every use site says which allocator it draws from and a
//! fresh counter can be made per test run.

use vstd::prelude::*;

verus! {

/// Identifies an execution backend.
pub type DomainId = usize;

/// Identifies one running terminal session (pane).
pub type PaneId = usize;

/// Identifies a container (tab) of sessions.
pub type TabId = usize;

/// Identifies a top-level window grouping containers.
pub type WindowId = usize;

/// Monotonic counter handing out identifiers.  A single allocator serves
/// every identifier kind, so any two identifiers it produced differ.
pub struct IdAllocator {
    pub next: usize,
}

impl IdAllocator {
    /// A fresh allocator whose first identifier will be `0`.
    pub fn new() -> (a: IdAllocator)
        ensures
            a.next == 0,
    {
        IdAllocator { next: 0 }
    }
}

/// Allocates a domain identifier, unique among everything this
/// allocator ever produced or will produce.
pub fn alloc_domain_id(ids: &mut IdAllocator) -> (id: DomainId)
    requires
        old(ids).next < usize::MAX,
    ensures
        id == old(ids).next,
        final(ids).next == old(ids).next + 1,
{
    let id = ids.next;
    ids.next = ids.next + 1;
    id
}

/// Allocates a pane identifier from the given allocator.
pub fn alloc_pane_id(ids: &mut IdAllocator) -> (id: PaneId)
    requires
        old(ids).next < usize::MAX,
    ensures
        id == old(ids).next,
        final(ids).next == old(ids).next + 1,
{
    let id = ids.next;
    ids.next = ids.next + 1;
    id
}

/// Allocates a tab identifier from the given allocator.
pub fn alloc_tab_id(ids: &mut IdAllocator) -> (id: TabId)
    requires
        old(ids).next < usize::MAX,
    ensures
        id == old(ids).next,
        final(ids).next == old(ids).next + 1,
{
    let id = ids.next;
    ids.next = ids.next + 1;
    id
}

} // verus!
