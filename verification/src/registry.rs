//! The shared session registry: panes, tabs (containers of panes), and
//! windows (groupings of tabs), together with the container layout
//! arithmetic used to size a split.
//!
//! Well-formedness: identifiers are unique per kind, a pane belongs to
//! at most one tab, and a tab belongs to at most one window.  Every
//! mutating operation preserves this.

use vstd::prelude::*;
use crate::ids::{DomainId, PaneId, TabId, WindowId};

verus! {

/// A terminal size in character cells.
#[derive(Debug, Clone, Copy, PartialEq, Eq, Structural)]
pub struct TermSize {
    pub rows: usize,
    pub cols: usize,
}

/// Which way a container is divided: `Horizontal` places the two panes
/// side by side, `Vertical` one above the other.
#[derive(Debug, Clone, Copy, PartialEq, Eq, Structural)]
pub enum SplitDirection {
    Horizontal,
    Vertical,
}

/// A requested division of an existing pane's cell.
#[derive(Debug, Clone, Copy, PartialEq, Eq, Structural)]
pub struct SplitRequest {
    pub direction: SplitDirection,
    /// Whether the new pane takes the second (right or bottom) half.
    pub target_is_second: bool,
}

/// The two sizes produced by resolving a split against a layout.
#[derive(Debug, Clone, Copy, PartialEq, Eq, Structural)]
pub struct SplitSize {
    pub first: TermSize,
    pub second: TermSize,
}

/// Whether a cell of size `size` can be divided in direction `dir`:
/// one cell column or row is kept for the divider, and both halves
/// must keep at least one.
pub open spec fn splittable(size: TermSize, dir: SplitDirection) -> bool {
    match dir {
        SplitDirection::Horizontal => size.cols >= 3,
        SplitDirection::Vertical => size.rows >= 3,
    }
}

/// The two sizes a split produces: the divided dimension loses one cell
/// to the divider and the remainder is shared as evenly as possible.
pub open spec fn split_sizes(size: TermSize, dir: SplitDirection) -> SplitSize {
    match dir {
        SplitDirection::Horizontal => {
            let first = (size.cols - 1) / 2;
            let second = size.cols - 1 - first;
            (SplitSize {
                first: TermSize { rows: size.rows, cols: first as usize },
                second: TermSize { rows: size.rows, cols: second as usize },
            })
        },
        SplitDirection::Vertical => {
            let first = (size.rows - 1) / 2;
            let second = size.rows - 1 - first;
            (SplitSize {
                first: TermSize { rows: first as usize, cols: size.cols },
                second: TermSize { rows: second as usize, cols: size.cols },
            })
        },
    }
}

/// An ordered container of sessions under a split layout.
pub struct Tab {
    pub tab_id: TabId,
    pub size: TermSize,
    pub panes: Vec<PaneId>,
}

/// The position of `p` in the member list `s`.
pub open spec fn list_index_of(s: Seq<PaneId>, p: PaneId) -> int {
    choose|i: int| 0 <= i < s.len() && s[i] == p
}

impl Tab {
    /// Member list well-formedness: no pane is listed twice.
    pub open spec fn wf(&self) -> bool {
        forall|i: int, j: int|
            0 <= i < self.panes@.len() && 0 <= j < self.panes@.len() && i != j
                ==> self.panes@[i] != self.panes@[j]
    }

    /// Whether `p` is a member of this container.
    pub open spec fn has_pane(&self, p: PaneId) -> bool {
        self.panes@.contains(p)
    }

    /// A new, empty container of the given size.
    pub fn new(tab_id: TabId, size: TermSize) -> (t: Tab)
        ensures
            t.tab_id == tab_id,
            t.size == size,
            t.panes@.len() == 0,
            t.wf(),
    {
        Tab { tab_id, size, panes: Vec::new() }
    }

    /// Places `p` as the sole member of a freshly created container.
    pub fn assign_pane(&mut self, p: PaneId)
        requires
            old(self).panes@.len() == 0,
        ensures
            final(self).tab_id == old(self).tab_id,
            final(self).size == old(self).size,
            final(self).panes@ == seq![p],
            final(self).wf(),
            final(self).has_pane(p),
    {
        self.panes.push(p);
        proof {
            assert(self.panes@ == seq![p]);
            assert(self.panes@[0] == p);
        }
    }

    /// Whether `p` is a member, decided by scanning the member list.
    pub fn contains_pane(&self, p: PaneId) -> (r: bool)
        ensures
            r == self.has_pane(p),
    {
        let n = self.panes.len();
        let mut i: usize = 0;
        while i < n
            invariant
                n == self.panes.len(),
                i <= n,
                forall|j: int| 0 <= j < i ==> self.panes@[j] != p,
            decreases n - i,
        {
            if self.panes[i] == p {
                proof {
                    assert(self.panes@[i as int] == p);
                }
                return true;
            }
            i = i + 1;
        }
        proof {
            assert(!self.panes@.contains(p));
        }
        false
    }

    /// The position of member `p`, or `None` if it is not one.
    pub fn find_pane_index(&self, p: PaneId) -> (r: Option<usize>)
        ensures
            match r {
                Some(i) => i < self.panes@.len() && self.panes@[i as int] == p,
                None => !self.has_pane(p),
            },
    {
        let n = self.panes.len();
        let mut i: usize = 0;
        while i < n
            invariant
                n == self.panes.len(),
                i <= n,
                forall|j: int| 0 <= j < i ==> self.panes@[j] != p,
            decreases n - i,
        {
            if self.panes[i] == p {
                return Some(i);
            }
            i = i + 1;
        }
        proof {
            assert(!self.panes@.contains(p));
        }
        None
    }

    /// Whether the container has no members left and is therefore
    /// eligible for removal from the registry.
    pub fn is_dead(&self) -> (r: bool)
        ensures
            r == (self.panes@.len() == 0),
    {
        self.panes.len() == 0
    }

    /// Removes member `p`.  Returns whether it was a member; on removal
    /// the other members keep their relative order.
    pub fn remove_pane(&mut self, p: PaneId) -> (r: bool)
        requires
            old(self).wf(),
        ensures
            final(self).tab_id == old(self).tab_id,
            final(self).size == old(self).size,
            final(self).wf(),
            r == old(self).has_pane(p),
            !final(self).has_pane(p),
            r ==> final(self).panes@ == old(self).panes@.remove(
                list_index_of(old(self).panes@, p),
            ),
            !r ==> final(self).panes@ == old(self).panes@,
            forall|q: PaneId| q != p ==> (final(self).has_pane(q) <==> old(self).has_pane(q)),
    {
        let found = self.find_pane_index(p);
        match found {
            None => {
                proof {
                    assert(!self.has_pane(p));
                }
                false
            },
            Some(i) => {
                self.panes.remove(i);
                proof {
                    let s_old = old(self).panes@;
                    let s_new = self.panes@;
                    let w = list_index_of(s_old, p);
                    assert(s_old[i as int] == p);
                    assert(s_old.contains(p));
                    assert(0 <= w < s_old.len() && s_old[w] == p);
                    assert(w == i as int);
                    s_old.remove_ensures(i as int);
                    assert forall|q: PaneId| s_new.contains(q) implies s_old.contains(q) by {
                        let k = choose|k: int| 0 <= k < s_new.len() && s_new[k] == q;
                        if k < i as int {
                            assert(s_old[k] == q);
                        } else {
                            assert(s_old[k + 1] == q);
                        }
                    };
                    assert forall|q: PaneId| q != p && s_old.contains(q) implies s_new.contains(
                        q,
                    ) by {
                        let k = choose|k: int| 0 <= k < s_old.len() && s_old[k] == q;
                        if k < i as int {
                            assert(s_new[k] == q);
                        } else {
                            assert(k > i as int);
                            assert(s_new[k - 1] == q);
                        }
                    };
                    assert(!s_new.contains(p)) by {
                        if s_new.contains(p) {
                            let k = choose|k: int| 0 <= k < s_new.len() && s_new[k] == p;
                            if k < i as int {
                                assert(s_old[k] == p);
                            } else {
                                assert(s_old[k + 1] == p);
                            }
                        }
                    };
                    assert forall|k1: int, k2: int|
                        0 <= k1 < s_new.len() && 0 <= k2 < s_new.len() && k1 != k2 implies s_new[k1]
                        != s_new[k2] by {
                        let m1: int = if k1 < i as int {
                            k1
                        } else {
                            k1 + 1
                        };
                        let m2: int = if k2 < i as int {
                            k2
                        } else {
                            k2 + 1
                        };
                        assert(s_new[k1] == s_old[m1]);
                        assert(s_new[k2] == s_old[m2]);
                    };
                }
                true
            },
        }
    }

    /// Resolves a split of member `pane_index` against this container's
    /// layout: the two target sizes, or `None` if the position is out of
    /// range or the container is too small to divide that way.
    pub fn compute_split_size(&self, pane_index: usize, request: SplitRequest) -> (r: Option<
        SplitSize,
    >)
        ensures
            match r {
                Some(s) => pane_index < self.panes@.len() && splittable(self.size, request.direction)
                    && s == split_sizes(self.size, request.direction),
                None => pane_index >= self.panes@.len() || !splittable(
                    self.size,
                    request.direction,
                ),
            },
    {
        if pane_index >= self.panes.len() {
            return None;
        }
        match request.direction {
            SplitDirection::Horizontal => {
                if self.size.cols < 3 {
                    None
                } else {
                    let first = (self.size.cols - 1) / 2;
                    let second = self.size.cols - 1 - first;
                    Some(
                        SplitSize {
                            first: TermSize { rows: self.size.rows, cols: first },
                            second: TermSize { rows: self.size.rows, cols: second },
                        },
                    )
                }
            },
            SplitDirection::Vertical => {
                if self.size.rows < 3 {
                    None
                } else {
                    let first = (self.size.rows - 1) / 2;
                    let second = self.size.rows - 1 - first;
                    Some(
                        SplitSize {
                            first: TermSize { rows: first, cols: self.size.cols },
                            second: TermSize { rows: second, cols: self.size.cols },
                        },
                    )
                }
            },
        }
    }

    /// Inserts `p` next to member `pane_index`: before it, or after it
    /// when the request targets the second half.  Fails when the index
    /// is out of range.  `p` must not already be a member.
    pub fn split_and_insert(&mut self, pane_index: usize, request: SplitRequest, p: PaneId) -> (r:
        Result<(), crate::errors::DomainError>)
        requires
            old(self).wf(),
            !old(self).has_pane(p),
        ensures
            final(self).tab_id == old(self).tab_id,
            final(self).size == old(self).size,
            final(self).wf(),
            match r {
                Ok(()) => {
                    &&& pane_index < old(self).panes@.len()
                    &&& final(self).panes@ == old(self).panes@.insert(
                        pane_index + (if request.target_is_second {
                            1int
                        } else {
                            0int
                        }),
                        p,
                    )
                    &&& final(self).has_pane(p)
                },
                Err(e) => {
                    &&& pane_index >= old(self).panes@.len()
                    &&& e == crate::errors::DomainError::InvalidSplitIndex(pane_index)
                    &&& final(self).panes@ == old(self).panes@
                },
            },
            forall|q: PaneId| q != p ==> (final(self).has_pane(q) <==> old(self).has_pane(q)),
    {
        if pane_index >= self.panes.len() {
            return Err(crate::errors::DomainError::InvalidSplitIndex(pane_index));
        }
        let at: usize = if request.target_is_second {
            pane_index + 1
        } else {
            pane_index
        };
        self.panes.insert(at, p);
        proof {
            let s_old = old(self).panes@;
            let s_new = self.panes@;
            s_old.insert_ensures(at as int, p);
            assert(s_new.contains(p)) by {
                assert(s_new[at as int] == p);
            };
            assert forall|q: PaneId| q != p && s_new.contains(q) implies s_old.contains(q) by {
                let k = choose|k: int| 0 <= k < s_new.len() && s_new[k] == q;
                if k < at as int {
                    assert(s_old[k] == q);
                } else {
                    assert(k > at as int);
                    assert(s_new[(k - 1) + 1] == s_old[k - 1]);
                }
            };
            assert forall|q: PaneId| s_old.contains(q) implies s_new.contains(q) by {
                let k = choose|k: int| 0 <= k < s_old.len() && s_old[k] == q;
                if k < at as int {
                    assert(s_new[k] == q);
                } else {
                    assert(s_new[k + 1] == q);
                }
            };
            assert forall|k1: int, k2: int|
                0 <= k1 < s_new.len() && 0 <= k2 < s_new.len() && k1 != k2 implies s_new[k1]
                != s_new[k2] by {
                if k1 == at as int {
                    assert(s_new[k1] == p);
                    if k2 < at as int {
                        assert(s_new[k2] == s_old[k2]);
                        assert(s_old.contains(s_old[k2]));
                    } else {
                        assert(s_new[(k2 - 1) + 1] == s_old[k2 - 1]);
                        assert(s_old.contains(s_old[k2 - 1]));
                    }
                } else if k2 == at as int {
                    assert(s_new[k2] == p);
                    if k1 < at as int {
                        assert(s_new[k1] == s_old[k1]);
                        assert(s_old.contains(s_old[k1]));
                    } else {
                        assert(s_new[(k1 - 1) + 1] == s_old[k1 - 1]);
                        assert(s_old.contains(s_old[k1 - 1]));
                    }
                } else {
                    let m1: int = if k1 < at as int {
                        k1
                    } else {
                        k1 - 1
                    };
                    let m2: int = if k2 < at as int {
                        k2
                    } else {
                        k2 - 1
                    };
                    assert(s_new[k1] == s_old[m1]);
                    assert(s_new[k2] == s_old[m2]);
                }
            };
        }
        Ok(())
    }
}

/// One registered session: its identity, owning backend, process and
/// pseudo-terminal handles, and a description of what was launched.
pub struct PaneEntry {
    pub pane_id: PaneId,
    pub domain_id: DomainId,
    /// Opaque token identifying the child process.
    pub process_handle: usize,
    /// Opaque token identifying the pseudo-terminal master side.
    pub pty_handle: usize,
    /// The size the terminal emulator was constructed with.
    pub size: TermSize,
    /// Whether the bound emulator runs in compatibility-quirk mode.
    pub conpty_quirks: bool,
    pub description: String,
}

/// A top-level grouping of containers.
pub struct Window {
    pub window_id: WindowId,
    pub tabs: Vec<TabId>,
    pub active_tab: Option<TabId>,
}

/// Whether the pane table has an entry for `p`.
pub open spec fn has_pane_entry(panes: Seq<PaneEntry>, p: PaneId) -> bool {
    exists|i: int| 0 <= i < panes.len() && panes[i].pane_id == p
}

/// The index of `p`'s entry in the pane table.
pub open spec fn pane_entry_index(panes: Seq<PaneEntry>, p: PaneId) -> int {
    choose|i: int| 0 <= i < panes.len() && panes[i].pane_id == p
}

/// Whether a tab with identifier `id` is registered.
pub open spec fn has_tab(tabs: Seq<Tab>, id: TabId) -> bool {
    exists|i: int| 0 <= i < tabs.len() && tabs[i].tab_id == id
}

/// The index of the tab with identifier `id`.
pub open spec fn tab_index_of(tabs: Seq<Tab>, id: TabId) -> int {
    choose|i: int| 0 <= i < tabs.len() && tabs[i].tab_id == id
}

/// Whether some registered tab holds pane `p`.
pub open spec fn pane_in_some_tab(tabs: Seq<Tab>, p: PaneId) -> bool {
    exists|i: int| 0 <= i < tabs.len() && #[trigger] tabs[i].has_pane(p)
}

/// The index of the tab holding pane `p`.
pub open spec fn tab_of_pane(tabs: Seq<Tab>, p: PaneId) -> int {
    choose|i: int| 0 <= i < tabs.len() && #[trigger] tabs[i].has_pane(p)
}

/// Whether a window with identifier `id` is registered.
pub open spec fn has_window(ws: Seq<Window>, id: WindowId) -> bool {
    exists|i: int| 0 <= i < ws.len() && ws[i].window_id == id
}

/// The index of the window with identifier `id`.
pub open spec fn window_index_of(ws: Seq<Window>, id: WindowId) -> int {
    choose|i: int| 0 <= i < ws.len() && ws[i].window_id == id
}

/// Whether some window lists tab `t`.
pub open spec fn tab_in_some_window(ws: Seq<Window>, t: TabId) -> bool {
    exists|i: int| 0 <= i < ws.len() && #[trigger] ws[i].tabs@.contains(t)
}

/// The index of the window listing tab `t`.
pub open spec fn window_of_tab(ws: Seq<Window>, t: TabId) -> int {
    choose|i: int| 0 <= i < ws.len() && #[trigger] ws[i].tabs@.contains(t)
}

/// The process-wide shared session registry.
pub struct Registry {
    pub panes: Vec<PaneEntry>,
    pub tabs: Vec<Tab>,
    pub windows: Vec<Window>,
}

impl Registry {
    /// Registry well-formedness: identifiers are unique per kind, every
    /// pane belongs to at most one tab (and at most once to it), and
    /// every tab is listed by at most one window (and at most once).
    pub open spec fn wf(&self) -> bool {
        &&& forall|i: int, j: int|
            0 <= i < self.panes@.len() && 0 <= j < self.panes@.len() && i != j
                ==> self.panes@[i].pane_id != self.panes@[j].pane_id
        &&& forall|i: int, j: int|
            0 <= i < self.tabs@.len() && 0 <= j < self.tabs@.len() && i != j
                ==> self.tabs@[i].tab_id != self.tabs@[j].tab_id
        &&& forall|i: int| 0 <= i < self.tabs@.len() ==> (#[trigger] self.tabs@[i]).wf()
        &&& forall|i: int, j: int, p: PaneId|
            0 <= i < self.tabs@.len() && 0 <= j < self.tabs@.len() && i != j && #[trigger] self.tabs@[i].has_pane(p) ==> !(#[trigger] self.tabs@[j].has_pane(p))
        &&& forall|i: int, j: int|
            0 <= i < self.windows@.len() && 0 <= j < self.windows@.len() && i != j
                ==> self.windows@[i].window_id != self.windows@[j].window_id
        &&& forall|w: int, i: int, j: int|
            0 <= w < self.windows@.len() && 0 <= i < self.windows@[w].tabs@.len() && 0 <= j
                < self.windows@[w].tabs@.len() && i != j ==> #[trigger] self.windows@[w].tabs@[i]
                != #[trigger] self.windows@[w].tabs@[j]
        &&& forall|i: int, j: int, t: TabId|
            0 <= i < self.windows@.len() && 0 <= j < self.windows@.len() && i != j && #[trigger] self.windows@[i].tabs@.contains(t) ==> !(#[trigger] self.windows@[j].tabs@.contains(t))
    }

    /// All pane and tab identifiers stored anywhere are below `n`:
    /// an allocator whose next identifier is `n` yields fresh ones.
    pub open spec fn ids_below(&self, n: int) -> bool {
        &&& forall|i: int| 0 <= i < self.panes@.len() ==> self.panes@[i].pane_id < n
        &&& forall|i: int| 0 <= i < self.tabs@.len() ==> self.tabs@[i].tab_id < n
        &&& forall|i: int, k: int|
            0 <= i < self.tabs@.len() && 0 <= k < self.tabs@[i].panes@.len()
                ==> #[trigger] self.tabs@[i].panes@[k] < n
        &&& forall|i: int, k: int|
            0 <= i < self.windows@.len() && 0 <= k < self.windows@[i].tabs@.len()
                ==> #[trigger] self.windows@[i].tabs@[k] < n
    }

    /// An empty registry.
    pub fn new() -> (r: Registry)
        ensures
            r.panes@.len() == 0,
            r.tabs@.len() == 0,
            r.windows@.len() == 0,
            r.wf(),
            forall|n: int| r.ids_below(n),
    {
        Registry { panes: Vec::new(), tabs: Vec::new(), windows: Vec::new() }
    }

    /// Creates a window under the given identifier, if none has it yet.
    pub fn add_window(&mut self, window_id: WindowId) -> (r: bool)
        ensures
            r == !has_window(old(self).windows@, window_id),
            final(self).panes@ == old(self).panes@,
            final(self).tabs@ == old(self).tabs@,
            r ==> {
                &&& final(self).windows@.len() == old(self).windows@.len() + 1
                &&& forall|j: int|
                    0 <= j < old(self).windows@.len()
                        ==> final(self).windows@[j] == old(self).windows@[j]
                &&& final(self).windows@.last().window_id == window_id
                &&& final(self).windows@.last().tabs@.len() == 0
                &&& final(self).windows@.last().active_tab is None
            },
            !r ==> final(self).windows@ == old(self).windows@,
            has_window(final(self).windows@, window_id),
            old(self).wf() ==> final(self).wf(),
            forall|n: int| old(self).ids_below(n) ==> final(self).ids_below(n),
    {
        let n = self.windows.len();
        let mut i: usize = 0;
        while i < n
            invariant
                n == self.windows.len(),
                i <= n,
                *self == *old(self),
                forall|j: int| 0 <= j < i ==> self.windows@[j].window_id != window_id,
            decreases n - i,
        {
            if self.windows[i].window_id == window_id {
                proof {
                    assert(self.windows@[i as int].window_id == window_id);
                }
                return false;
            }
            i = i + 1;
        }
        let w = Window { window_id, tabs: Vec::new(), active_tab: None };
        self.windows.push(w);
        proof {
            let ws_old = old(self).windows@;
            let ws_new = self.windows@;
            let last = ws_old.len() as int;
            assert(ws_new[last].window_id == window_id);
            assert(forall|j: int| 0 <= j < last ==> ws_new[j] == ws_old[j]);
            if old(self).wf() {
                assert forall|i1: int, j1: int|
                    0 <= i1 < ws_new.len() && 0 <= j1 < ws_new.len() && i1 != j1 implies ws_new[i1].window_id != ws_new[j1].window_id by {
                    if i1 < last && j1 < last {
                    } else if i1 == last {
                        assert(ws_old[j1].window_id != window_id);
                    } else {
                        assert(ws_old[i1].window_id != window_id);
                    }
                };
                assert(ws_new[last].tabs@.len() == 0);
                assert forall|i1: int, j1: int, t: TabId|
                    0 <= i1 < ws_new.len() && 0 <= j1 < ws_new.len() && i1 != j1 && #[trigger] ws_new[i1].tabs@.contains(t) implies !(#[trigger] ws_new[j1].tabs@.contains(t)) by {
                    assert(i1 != last);
                    if j1 < last {
                        assert(ws_old[i1].tabs@.contains(t));
                    }
                };
                assert(final(self).wf());
            }
        }
        true
    }

    /// The position of the entry for pane `p` in the pane table.
    pub fn find_pane_entry(&self, p: PaneId) -> (r: Option<usize>)
        ensures
            match r {
                Some(i) => i < self.panes@.len() && self.panes@[i as int].pane_id == p,
                None => !has_pane_entry(self.panes@, p),
            },
    {
        let n = self.panes.len();
        let mut i: usize = 0;
        while i < n
            invariant
                n == self.panes.len(),
                i <= n,
                forall|j: int| 0 <= j < i ==> self.panes@[j].pane_id != p,
            decreases n - i,
        {
            if self.panes[i].pane_id == p {
                return Some(i);
            }
            i = i + 1;
        }
        None
    }

    /// Registers a session.  Fails (returning `false`, with nothing
    /// changed) when its identifier is already taken.
    pub fn add_pane(&mut self, entry: PaneEntry) -> (r: bool)
        ensures
            r == !has_pane_entry(old(self).panes@, entry.pane_id),
            final(self).tabs@ == old(self).tabs@,
            final(self).windows@ == old(self).windows@,
            r ==> final(self).panes@ == old(self).panes@.push(entry),
            !r ==> final(self).panes@ == old(self).panes@,
            old(self).wf() ==> final(self).wf(),
            forall|n: int|
                old(self).ids_below(n) && entry.pane_id < n ==> final(self).ids_below(n),
    {
        let found = self.find_pane_entry(entry.pane_id);
        match found {
            Some(_) => false,
            None => {
                let ghost p_old = self.panes@;
                self.panes.push(entry);
                proof {
                    let p_new = self.panes@;
                    let last = p_old.len() as int;
                    assert(p_new[last] == entry);
                    assert(forall|j: int| 0 <= j < last ==> p_new[j] == p_old[j]);
                    if old(self).wf() {
                        assert forall|i1: int, j1: int|
                            0 <= i1 < p_new.len() && 0 <= j1 < p_new.len() && i1 != j1 implies p_new[i1].pane_id != p_new[j1].pane_id by {
                            if i1 == last {
                                assert(p_old[j1].pane_id != entry.pane_id);
                            } else if j1 == last {
                                assert(p_old[i1].pane_id != entry.pane_id);
                            }
                        };
                    }
                }
                true
            },
        }
    }

    /// The position of the tab with identifier `tab_id`.
    pub fn get_tab_index(&self, tab_id: TabId) -> (r: Option<usize>)
        ensures
            match r {
                Some(i) => i < self.tabs@.len() && self.tabs@[i as int].tab_id == tab_id,
                None => !has_tab(self.tabs@, tab_id),
            },
    {
        let n = self.tabs.len();
        let mut i: usize = 0;
        while i < n
            invariant
                n == self.tabs.len(),
                i <= n,
                forall|j: int| 0 <= j < i ==> self.tabs@[j].tab_id != tab_id,
            decreases n - i,
        {
            if self.tabs[i].tab_id == tab_id {
                return Some(i);
            }
            i = i + 1;
        }
        None
    }

    /// Registers a container and makes it eligible to become active.
    /// Fails (returning `false`, with nothing changed) when its
    /// identifier is already taken.  The container's members must not
    /// be registered in any other container.
    pub fn add_tab_and_active_pane(&mut self, tab: Tab) -> (r: bool)
        requires
            old(self).wf(),
            tab.wf(),
            forall|p: PaneId| #[trigger] tab.has_pane(p) ==> !pane_in_some_tab(old(self).tabs@, p),
        ensures
            r == !has_tab(old(self).tabs@, tab.tab_id),
            final(self).panes@ == old(self).panes@,
            final(self).windows@ == old(self).windows@,
            r ==> final(self).tabs@ == old(self).tabs@.push(tab),
            !r ==> final(self).tabs@ == old(self).tabs@,
            final(self).wf(),
            forall|n: int|
                old(self).ids_below(n) && tab.tab_id < n && (forall|k: int|
                    0 <= k < tab.panes@.len() ==> tab.panes@[k] < n) ==> final(self).ids_below(n),
    {
        let found = self.get_tab_index(tab.tab_id);
        match found {
            Some(_) => false,
            None => {
                let ghost t_old = self.tabs@;
                self.tabs.push(tab);
                proof {
                    let t_new = self.tabs@;
                    let last = t_old.len() as int;
                    assert(t_new[last] == tab);
                    assert(forall|j: int| 0 <= j < last ==> t_new[j] == t_old[j]);
                    assert forall|i1: int, j1: int|
                        0 <= i1 < t_new.len() && 0 <= j1 < t_new.len() && i1 != j1 implies t_new[i1].tab_id != t_new[j1].tab_id by {
                        if i1 == last {
                            assert(t_old[j1].tab_id != tab.tab_id);
                        } else if j1 == last {
                            assert(t_old[i1].tab_id != tab.tab_id);
                        }
                    };
                    assert forall|i1: int, j1: int, p: PaneId|
                        0 <= i1 < t_new.len() && 0 <= j1 < t_new.len() && i1 != j1 && #[trigger] t_new[i1].has_pane(p) implies !(#[trigger] t_new[j1].has_pane(p)) by {
                        if i1 == last {
                            assert(tab.has_pane(p));
                            assert(!pane_in_some_tab(t_old, p));
                            if j1 < last && t_old[j1].has_pane(p) {
                                assert(pane_in_some_tab(t_old, p));
                            }
                        } else if j1 == last {
                            if tab.has_pane(p) {
                                assert(t_old[i1].has_pane(p));
                                assert(pane_in_some_tab(t_old, p));
                            }
                        } else {
                            assert(t_old[i1].has_pane(p));
                        }
                    };
                    assert(final(self).wf());
                }
                true
            },
        }
    }

    /// Lists the container in the window, making it the window's active
    /// container.  Fails (returning `false`, with nothing changed) when
    /// no window has the identifier, or the container is already listed
    /// somewhere.
    pub fn add_tab_to_window(&mut self, tab_id: TabId, window_id: WindowId) -> (r: bool)
        requires
            old(self).wf(),
        ensures
            final(self).wf(),
            final(self).panes@ == old(self).panes@,
            final(self).tabs@ == old(self).tabs@,
            r == (has_window(old(self).windows@, window_id) && !tab_in_some_window(
                old(self).windows@,
                tab_id,
            )),
            !r ==> final(self).windows@ == old(self).windows@,
            r ==> {
                &&& final(self).windows@.len() == old(self).windows@.len()
                &&& forall|j: int|
                    0 <= j < old(self).windows@.len() && old(self).windows@[j].window_id
                        != window_id ==> final(self).windows@[j] == old(self).windows@[j]
                &&& tab_in_some_window(final(self).windows@, tab_id)
                &&& {
                    let w = window_index_of(old(self).windows@, window_id);
                    &&& final(self).windows@[w].window_id == window_id
                    &&& final(self).windows@[w].tabs@ == old(self).windows@[w].tabs@.push(tab_id)
                    &&& final(self).windows@[w].active_tab == Some(tab_id)
                }
            },
            forall|n: int|
                old(self).ids_below(n) && tab_id < n ==> final(self).ids_below(n),
    {
        let n = self.windows.len();
        let mut target: Option<usize> = None;
        let mut i: usize = 0;
        while i < n
            invariant
                n == self.windows.len(),
                i <= n,
                *self == *old(self),
                old(self).wf(),
                forall|j: int| 0 <= j < i ==> !self.windows@[j].tabs@.contains(tab_id),
                match target {
                    Some(t) => t < i && self.windows@[t as int].window_id == window_id,
                    None => forall|j: int| 0 <= j < i ==> self.windows@[j].window_id != window_id,
                },
            decreases n - i,
        {
            if list_has(&self.windows[i].tabs, tab_id) {
                proof {
                    assert(self.windows@[i as int].tabs@.contains(tab_id));
                }
                return false;
            }
            if self.windows[i].window_id == window_id {
                target = Some(i);
            }
            i = i + 1;
        }
        match target {
            None => {
                proof {
                    assert(!has_window(self.windows@, window_id));
                }
                false
            },
            Some(w) => {
                let ghost ws_old = self.windows@;
                let mut win = self.windows.remove(w);
                win.tabs.push(tab_id);
                win.active_tab = Some(tab_id);
                self.windows.insert(w, win);
                proof {
                    let ws_new = self.windows@;
                    assert(ws_new.len() == ws_old.len());
                    assert forall|j: int|
                        0 <= j < ws_old.len() && j != w implies ws_new[j] == ws_old[j] by {
                        ws_old.remove_ensures(w as int);
                        ws_old.remove(w as int).insert_ensures(w as int, ws_new[w as int]);
                        if j < w as int {
                            assert(ws_old.remove(w as int)[j] == ws_old[j]);
                        } else {
                            assert(ws_old.remove(w as int)[j - 1] == ws_old[j]);
                        }
                        assert(ws_new == ws_old.remove(w as int).insert(w as int, ws_new[w as int]));
                    };
                    assert(ws_new[w as int].window_id == window_id);
                    assert(ws_new[w as int].tabs@ == ws_old[w as int].tabs@.push(tab_id));
                    assert(window_index_of(ws_old, window_id) == w as int) by {
                        assert(ws_old[w as int].window_id == window_id);
                        let w2 = window_index_of(ws_old, window_id);
                        assert(0 <= w2 < ws_old.len() && ws_old[w2].window_id == window_id);
                    };
                    assert(tab_in_some_window(ws_new, tab_id)) by {
                        assert(ws_new[w as int].tabs@.last() == tab_id);
                        assert(ws_new[w as int].tabs@.contains(tab_id));
                    };
                    assert forall|i1: int, j1: int|
                        0 <= i1 < ws_new.len() && 0 <= j1 < ws_new.len() && i1 != j1 implies ws_new[i1].window_id != ws_new[j1].window_id by {
                        assert(ws_new[i1].window_id == ws_old[i1].window_id);
                        assert(ws_new[j1].window_id == ws_old[j1].window_id);
                    };
                    assert forall|w1: int, i1: int, j1: int|
                        0 <= w1 < ws_new.len() && 0 <= i1 < ws_new[w1].tabs@.len() && 0 <= j1
                            < ws_new[w1].tabs@.len() && i1 != j1 implies #[trigger] ws_new[w1].tabs@[i1] != #[trigger] ws_new[w1].tabs@[j1] by {
                        if w1 == w as int {
                            let t_old = ws_old[w1].tabs@;
                            let t_new = ws_new[w1].tabs@;
                            assert(t_new == t_old.push(tab_id));
                            if i1 < t_old.len() && j1 < t_old.len() {
                                assert(t_new[i1] == t_old[i1] && t_new[j1] == t_old[j1]);
                            } else if i1 == t_old.len() {
                                assert(t_new[j1] == t_old[j1]);
                                assert(t_old.contains(t_old[j1]));
                                assert(!t_old.contains(tab_id)) by {
                                    if ws_old[w1].tabs@.contains(tab_id) {
                                        assert(tab_in_some_window(ws_old, tab_id));
                                    }
                                };
                            } else {
                                assert(t_new[i1] == t_old[i1]);
                                assert(t_old.contains(t_old[i1]));
                                assert(!t_old.contains(tab_id)) by {
                                    if ws_old[w1].tabs@.contains(tab_id) {
                                        assert(tab_in_some_window(ws_old, tab_id));
                                    }
                                };
                            }
                        }
                    };
                    assert forall|i1: int, j1: int, t: TabId|
                        0 <= i1 < ws_new.len() && 0 <= j1 < ws_new.len() && i1 != j1 && #[trigger] ws_new[i1].tabs@.contains(t) implies !(#[trigger] ws_new[j1].tabs@.contains(t)) by {
                        let in1: bool = ws_old[i1].tabs@.contains(t);
                        let in2: bool = ws_old[j1].tabs@.contains(t);
                        if i1 == w as int {
                            if ws_new[i1].tabs@.contains(t) {
                                let k = choose|k: int|
                                    0 <= k < ws_new[i1].tabs@.len() && ws_new[i1].tabs@[k] == t;
                                if k < ws_old[i1].tabs@.len() {
                                    assert(ws_old[i1].tabs@[k] == t);
                                    assert(in1);
                                    if in2 {
                                    }
                                } else {
                                    assert(t == tab_id);
                                    if ws_new[j1].tabs@.contains(t) {
                                        assert(ws_old[j1].tabs@.contains(tab_id));
                                        assert(tab_in_some_window(ws_old, tab_id));
                                    }
                                }
                            }
                        } else {
                            assert(ws_new[i1].tabs@ == ws_old[i1].tabs@);
                            assert(in1);
                            if j1 == w as int {
                                if ws_new[j1].tabs@.contains(t) {
                                    let k = choose|k: int|
                                        0 <= k < ws_new[j1].tabs@.len() && ws_new[j1].tabs@[k]
                                            == t;
                                    if k < ws_old[j1].tabs@.len() {
                                        assert(ws_old[j1].tabs@[k] == t);
                                        assert(in2);
                                    } else {
                                        assert(t == tab_id);
                                        assert(tab_in_some_window(ws_old, tab_id));
                                    }
                                }
                            }
                        }
                    };
                    assert(final(self).wf());
                }
                true
            },
        }
    }

    /// Resolves a pane to its owning backend, window and container, by
    /// scanning windows and their containers as the registry owner
    /// would.  `None` when the pane is unregistered, in no container,
    /// or its container is in no window.
    pub fn resolve_pane_id(&self, p: PaneId) -> (r: Option<(DomainId, WindowId, TabId)>)
        requires
            self.wf(),
        ensures
            match r {
                Some(loc) => {
                    &&& has_pane_entry(self.panes@, p)
                    &&& loc.0 == self.panes@[pane_entry_index(self.panes@, p)].domain_id
                    &&& pane_in_some_tab(self.tabs@, p)
                    &&& loc.2 == self.tabs@[tab_of_pane(self.tabs@, p)].tab_id
                    &&& tab_in_some_window(self.windows@, loc.2)
                    &&& loc.1 == self.windows@[window_of_tab(self.windows@, loc.2)].window_id
                },
                None => {
                    ||| !has_pane_entry(self.panes@, p)
                    ||| !pane_in_some_tab(self.tabs@, p)
                    ||| !tab_in_some_window(
                        self.windows@,
                        self.tabs@[tab_of_pane(self.tabs@, p)].tab_id,
                    )
                },
            },
    {
        let entry = self.find_pane_entry(p);
        let ei = match entry {
            None => {
                return None;
            },
            Some(ei) => ei,
        };
        let tab_found = self.find_tab_with_pane(p);
        let ti = match tab_found {
            None => {
                return None;
            },
            Some(t) => t,
        };
        let tab_id = self.tabs[ti].tab_id;
        proof {
            assert(self.tabs@[ti as int].has_pane(p));
            assert(pane_in_some_tab(self.tabs@, p));
            let t2 = tab_of_pane(self.tabs@, p);
            assert(0 <= t2 < self.tabs@.len() && self.tabs@[t2].has_pane(p));
            assert(t2 == ti as int);
        }
        let win_found = self.find_window_with_tab(tab_id);
        let wi = match win_found {
            None => {
                return None;
            },
            Some(w) => w,
        };
        let window_id = self.windows[wi].window_id;
        let domain_id = self.panes[ei].domain_id;
        proof {
            assert(self.windows@[wi as int].tabs@.contains(tab_id));
            assert(tab_in_some_window(self.windows@, tab_id));
            let w2 = window_of_tab(self.windows@, tab_id);
            assert(0 <= w2 < self.windows@.len() && self.windows@[w2].tabs@.contains(tab_id));
            assert(w2 == wi as int);
            let e2 = pane_entry_index(self.panes@, p);
            assert(self.panes@[ei as int].pane_id == p);
            assert(has_pane_entry(self.panes@, p));
            assert(0 <= e2 < self.panes@.len() && self.panes@[e2].pane_id == p);
            assert(e2 == ei as int);
        }
        Some((domain_id, window_id, tab_id))
    }

    /// The position of the container holding pane `p`, if any does.
    pub fn find_tab_with_pane(&self, p: PaneId) -> (r: Option<usize>)
        ensures
            match r {
                Some(i) => i < self.tabs@.len() && self.tabs@[i as int].has_pane(p),
                None => !pane_in_some_tab(self.tabs@, p),
            },
    {
        let nt = self.tabs.len();
        let mut ti: usize = 0;
        while ti < nt
            invariant
                nt == self.tabs.len(),
                ti <= nt,
                forall|j: int| 0 <= j < ti ==> !self.tabs@[j].has_pane(p),
            decreases nt - ti,
        {
            if self.tabs[ti].contains_pane(p) {
                return Some(ti);
            }
            ti = ti + 1;
        }
        proof {
            assert(!pane_in_some_tab(self.tabs@, p));
        }
        None
    }

    /// The position of the window listing container `tab_id`, if any.
    pub fn find_window_with_tab(&self, tab_id: TabId) -> (r: Option<usize>)
        ensures
            match r {
                Some(i) => i < self.windows@.len() && self.windows@[i as int].tabs@.contains(
                    tab_id,
                ),
                None => !tab_in_some_window(self.windows@, tab_id),
            },
    {
        let nw = self.windows.len();
        let mut wi: usize = 0;
        while wi < nw
            invariant
                nw == self.windows.len(),
                wi <= nw,
                forall|j: int| 0 <= j < wi ==> !self.windows@[j].tabs@.contains(tab_id),
            decreases nw - wi,
        {
            if list_has(&self.windows[wi].tabs, tab_id) {
                proof {
                    assert(self.windows@[wi as int].tabs@.contains(tab_id));
                }
                return Some(wi);
            }
            wi = wi + 1;
        }
        proof {
            assert(!tab_in_some_window(self.windows@, tab_id));
        }
        None
    }

    /// Removes the container from the registry entirely: it stops being
    /// resolvable, every window stops listing it, and a window whose
    /// active container it was has none afterwards.  Returns whether it
    /// was registered.
    #[verifier::rlimit(50)]
    pub fn remove_tab(&mut self, tab_id: TabId) -> (r: bool)
        requires
            old(self).wf(),
        ensures
            final(self).wf(),
            final(self).panes@ == old(self).panes@,
            r == has_tab(old(self).tabs@, tab_id),
            !r ==> final(self).tabs@ == old(self).tabs@ && final(self).windows@ == old(
                self,
            ).windows@,
            r ==> final(self).tabs@ == old(self).tabs@.remove(
                tab_index_of(old(self).tabs@, tab_id),
            ),
            !has_tab(final(self).tabs@, tab_id),
            forall|t: TabId| t != tab_id ==> (has_tab(final(self).tabs@, t) <==> has_tab(old(self).tabs@, t)),
            r ==> final(self).windows@.len() == old(self).windows@.len(),
            r ==> forall|j: int|
                0 <= j < final(self).windows@.len() ==> {
                    let w_old = old(self).windows@[j];
                    let w_new = #[trigger] final(self).windows@[j];
                    &&& w_new.window_id == w_old.window_id
                    &&& !w_new.tabs@.contains(tab_id)
                    &&& forall|t: TabId|
                        t != tab_id ==> (w_new.tabs@.contains(t) <==> w_old.tabs@.contains(t))
                    &&& w_new.active_tab == (if w_old.active_tab == Some(tab_id) {
                        None
                    } else {
                        w_old.active_tab
                    })
                },
            forall|n: int| old(self).ids_below(n) ==> final(self).ids_below(n),
    {
        let found = self.get_tab_index(tab_id);
        let r = match found {
            None => {
                return false;
            },
            Some(i) => {
                let ghost t_old = self.tabs@;
                self.tabs.remove(i);
                proof {
                    let t_new = self.tabs@;
                    t_old.remove_ensures(i as int);
                    assert(t_old[i as int].tab_id == tab_id);
                    assert(tab_index_of(t_old, tab_id) == i as int) by {
                        assert(has_tab(t_old, tab_id));
                        let i2 = tab_index_of(t_old, tab_id);
                        assert(0 <= i2 < t_old.len() && t_old[i2].tab_id == tab_id);
                    };
                    assert forall|k1: int, k2: int|
                        0 <= k1 < t_new.len() && 0 <= k2 < t_new.len() && k1 != k2 implies t_new[k1].tab_id != t_new[k2].tab_id by {
                        let m1: int = if k1 < i as int {
                            k1
                        } else {
                            k1 + 1
                        };
                        let m2: int = if k2 < i as int {
                            k2
                        } else {
                            k2 + 1
                        };
                        assert(t_new[k1] == t_old[m1] && t_new[k2] == t_old[m2]);
                    };
                    assert forall|k1: int| 0 <= k1 < t_new.len() implies (#[trigger] t_new[k1]).wf()
                        && t_new[k1].tab_id != tab_id by {
                        let m1: int = if k1 < i as int {
                            k1
                        } else {
                            k1 + 1
                        };
                        assert(t_new[k1] == t_old[m1]);
                    };
                    assert(!has_tab(t_new, tab_id));
                    assert forall|k1: int, k2: int, p: PaneId|
                        0 <= k1 < t_new.len() && 0 <= k2 < t_new.len() && k1 != k2 && #[trigger] t_new[k1].has_pane(p) implies !(#[trigger] t_new[k2].has_pane(p)) by {
                        let m1: int = if k1 < i as int {
                            k1
                        } else {
                            k1 + 1
                        };
                        let m2: int = if k2 < i as int {
                            k2
                        } else {
                            k2 + 1
                        };
                        assert(t_new[k1] == t_old[m1] && t_new[k2] == t_old[m2]);
                    };
                    assert forall|t: TabId| t != tab_id && has_tab(t_old, t) implies has_tab(
                        t_new,
                        t,
                    ) by {
                        let k = choose|k: int| 0 <= k < t_old.len() && t_old[k].tab_id == t;
                        assert(k != i as int);
                        if k < i as int {
                            assert(t_new[k].tab_id == t);
                        } else {
                            assert(t_new[k - 1].tab_id == t);
                        }
                    };
                    assert forall|t: TabId| t != tab_id && has_tab(t_new, t) implies has_tab(
                        t_old,
                        t,
                    ) by {
                        let k = choose|k: int| 0 <= k < t_new.len() && t_new[k].tab_id == t;
                        let m: int = if k < i as int {
                            k
                        } else {
                            k + 1
                        };
                        assert(t_new[k] == t_old[m]);
                    };
                }
                true
            },
        };
        let ghost mid = *self;
        let nw = self.windows.len();
        let mut wi: usize = 0;
        while wi < nw
            invariant
                nw == self.windows.len(),
                nw == mid.windows@.len(),
                self.panes@ == mid.panes@,
                self.tabs@ == mid.tabs@,
                wi <= nw,
                mid.wf(),
                forall|j: int| wi <= j < nw ==> self.windows@[j] == mid.windows@[j],
                forall|j: int|
                    0 <= j < wi ==> {
                        let w_old = mid.windows@[j];
                        let w_new = #[trigger] self.windows@[j];
                        &&& w_new.window_id == w_old.window_id
                        &&& !w_new.tabs@.contains(tab_id)
                        &&& forall|t: TabId|
                            t != tab_id ==> (w_new.tabs@.contains(t) <==> w_old.tabs@.contains(t))
                        &&& forall|t: TabId| w_new.tabs@.contains(t) ==> w_old.tabs@.contains(t)
                        &&& (forall|i1: int, j1: int|
                            0 <= i1 < w_new.tabs@.len() && 0 <= j1 < w_new.tabs@.len() && i1 != j1
                                ==> #[trigger] w_new.tabs@[i1] != #[trigger] w_new.tabs@[j1])
                        &&& w_new.active_tab == (if w_old.active_tab == Some(tab_id) {
                            None
                        } else {
                            w_old.active_tab
                        })
                    },
            decreases nw - wi,
        {
            let ghost ws_before = self.windows@;
            let mut win = self.windows.remove(wi);
            proof {
                assert(ws_before.remove(wi as int).len() == nw - 1);
                assert(win == mid.windows@[wi as int]);
                assert forall|i1: int, j1: int|
                    0 <= i1 < win.tabs@.len() && 0 <= j1 < win.tabs@.len() && i1 != j1 implies #[trigger] win.tabs@[i1] != #[trigger] win.tabs@[j1] by {
                    assert(win.tabs@[i1] == mid.windows@[wi as int].tabs@[i1]);
                    assert(win.tabs@[j1] == mid.windows@[wi as int].tabs@[j1]);
                    assert(mid.windows@[wi as int].tabs@[i1] != mid.windows@[wi as int].tabs@[j1]);
                };
            }
            remove_id_from_list(&mut win.tabs, tab_id);
            match win.active_tab {
                Some(a) => {
                    if a == tab_id {
                        win.active_tab = None;
                    }
                },
                None => {},
            }
            self.windows.insert(wi, win);
            proof {
                let ws_after = self.windows@;
                assert(ws_after == ws_before.remove(wi as int).insert(wi as int, win));
                ws_before.remove_ensures(wi as int);
                ws_before.remove(wi as int).insert_ensures(wi as int, win);
                assert forall|j: int|
                    0 <= j < nw && j != wi implies ws_after[j] == ws_before[j] by {
                    if j < wi as int {
                        assert(ws_before.remove(wi as int)[j] == ws_before[j]);
                    } else {
                        assert(ws_before.remove(wi as int)[j - 1] == ws_before[j]);
                    }
                };
                assert(ws_after[wi as int] == win);
            }
            wi = wi + 1;
        }
        proof {
            assert forall|i1: int, j1: int|
                0 <= i1 < self.windows@.len() && 0 <= j1 < self.windows@.len() && i1
                    != j1 implies self.windows@[i1].window_id != self.windows@[j1].window_id by {
                assert(self.windows@[i1].window_id == mid.windows@[i1].window_id);
                assert(self.windows@[j1].window_id == mid.windows@[j1].window_id);
            };
            assert forall|i1: int, j1: int, t: TabId|
                0 <= i1 < self.windows@.len() && 0 <= j1 < self.windows@.len() && i1 != j1
                    && #[trigger] self.windows@[i1].tabs@.contains(t) implies !(#[trigger] self.windows@[j1].tabs@.contains(t)) by {
                assert(mid.windows@[i1].tabs@.contains(t));
                if self.windows@[j1].tabs@.contains(t) {
                    assert(mid.windows@[j1].tabs@.contains(t));
                }
            };
            assert(final(self).wf());
            assert forall|n: int| old(self).ids_below(n) implies final(self).ids_below(n) by {
                if old(self).ids_below(n) {
                    assert(mid.ids_below(n)) by {
                        let t_old = old(self).tabs@;
                        let t_new = mid.tabs@;
                        assert forall|k: int| 0 <= k < t_new.len() implies (#[trigger] t_new[k]).tab_id < n && (forall|m: int|
                            0 <= m < t_new[k].panes@.len() ==> #[trigger] t_new[k].panes@[m]
                                < n) by {
                            let i2 = tab_index_of(t_old, tab_id);
                            t_old.remove_ensures(i2);
                            let m2: int = if k < i2 {
                                k
                            } else {
                                k + 1
                            };
                            assert(t_new[k] == t_old[m2]);
                        };
                    };
                    assert forall|i1: int, k1: int|
                        0 <= i1 < self.windows@.len() && 0 <= k1
                            < self.windows@[i1].tabs@.len() implies #[trigger] self.windows@[i1].tabs@[k1] < n by {
                        let x = self.windows@[i1].tabs@[k1];
                        assert(self.windows@[i1].tabs@.contains(x));
                        assert(mid.windows@[i1].tabs@.contains(x));
                        let m2 = choose|m2: int|
                            0 <= m2 < mid.windows@[i1].tabs@.len() && mid.windows@[i1].tabs@[m2]
                                == x;
                        assert(mid.windows@[i1].tabs@[m2] < n);
                    };
                }
            };
        }
        r
    }
}

/// Whether `x` occurs in the list, decided by scanning it.
pub fn list_has(v: &Vec<usize>, x: usize) -> (r: bool)
    ensures
        r == v@.contains(x),
{
    let n = v.len();
    let mut i: usize = 0;
    while i < n
        invariant
            n == v.len(),
            i <= n,
            forall|j: int| 0 <= j < i ==> v@[j] != x,
        decreases n - i,
    {
        if v[i] == x {
            proof {
                assert(v@[i as int] == x);
            }
            return true;
        }
        i = i + 1;
    }
    proof {
        assert(!v@.contains(x));
    }
    false
}

/// Removes the occurrence of `id` from a duplicate-free list, keeping
/// the other elements in order.
pub fn remove_id_from_list(v: &mut Vec<usize>, id: usize)
    requires
        forall|i: int, j: int|
            0 <= i < old(v)@.len() && 0 <= j < old(v)@.len() && i != j ==> old(v)@[i] != old(
                v,
            )@[j],
    ensures
        !final(v)@.contains(id),
        forall|x: usize| x != id ==> (final(v)@.contains(x) <==> old(v)@.contains(x)),
        forall|x: usize| final(v)@.contains(x) ==> old(v)@.contains(x),
        forall|i: int, j: int|
            0 <= i < final(v)@.len() && 0 <= j < final(v)@.len() && i != j ==> final(v)@[i]
                != final(v)@[j],
        !old(v)@.contains(id) ==> final(v)@ == old(v)@,
{
    let n = v.len();
    let mut i: usize = 0;
    while i < n
        invariant
            n == v.len(),
            i <= n,
            *v == *old(v),
            forall|i1: int, j1: int|
                0 <= i1 < old(v)@.len() && 0 <= j1 < old(v)@.len() && i1 != j1 ==> old(v)@[i1]
                    != old(v)@[j1],
            forall|j: int| 0 <= j < i ==> v@[j] != id,
        decreases n - i,
    {
        if v[i] == id {
            let ghost s_old = v@;
            v.remove(i);
            proof {
                let s_new = v@;
                s_old.remove_ensures(i as int);
                assert(s_old[i as int] == id);
                assert forall|x: usize| s_new.contains(x) implies s_old.contains(x) by {
                    let k = choose|k: int| 0 <= k < s_new.len() && s_new[k] == x;
                    let m: int = if k < i as int {
                        k
                    } else {
                        k + 1
                    };
                    assert(s_new[k] == s_old[m]);
                };
                assert forall|x: usize| x != id && s_old.contains(x) implies s_new.contains(x) by {
                    let k = choose|k: int| 0 <= k < s_old.len() && s_old[k] == x;
                    assert(k != i as int);
                    if k < i as int {
                        assert(s_new[k] == x);
                    } else {
                        assert(s_new[k - 1] == x);
                    }
                };
                assert(!s_new.contains(id)) by {
                    if s_new.contains(id) {
                        let k = choose|k: int| 0 <= k < s_new.len() && s_new[k] == id;
                        let m: int = if k < i as int {
                            k
                        } else {
                            k + 1
                        };
                        assert(s_new[k] == s_old[m]);
                        assert(m != i as int);
                    }
                };
                assert forall|k1: int, k2: int|
                    0 <= k1 < s_new.len() && 0 <= k2 < s_new.len() && k1 != k2 implies s_new[k1]
                    != s_new[k2] by {
                    let m1: int = if k1 < i as int {
                        k1
                    } else {
                        k1 + 1
                    };
                    let m2: int = if k2 < i as int {
                        k2
                    } else {
                        k2 + 1
                    };
                    assert(s_new[k1] == s_old[m1] && s_new[k2] == s_old[m2]);
                };
            }
            return ;
        }
        i = i + 1;
    }
    proof {
        assert(!v@.contains(id));
    }
}

} // verus!
