use crate::catalog::Catalog;
use vstd::arithmetic::div_mod::{lemma_mod_multiples_vanish, lemma_small_mod};
use vstd::prelude::*;

verus! {

/// Cursor into the catalog: which tab is shown and which row is selected.
#[derive(Clone, Copy, PartialEq, Eq, Structural, Debug)]
pub struct LaunchState {
    pub current_tab: usize,
    pub current_selection: usize,
}

/// Tab index after stepping one tab to the left, wrapping past the first tab.
pub open spec fn prev_tab_index(t: int, n: int) -> int {
    (t + n - 1) % n
}

/// Tab index after stepping one tab to the right, wrapping past the last tab.
pub open spec fn next_tab_index(t: int, n: int) -> int {
    (t + 1) % n
}

/// Closed forms of the two wrapping steps on a valid tab index.
proof fn lemma_tab_index_forms(t: int, n: int)
    requires
        0 <= t < n,
    ensures
        prev_tab_index(t, n) == if t == 0 { n - 1 } else { t - 1 },
        next_tab_index(t, n) == if t + 1 == n { 0 } else { t + 1 },
{
    if t == 0 {
        lemma_small_mod((n - 1) as nat, n as nat);
    } else {
        lemma_mod_multiples_vanish(1, t - 1, n);
        lemma_small_mod((t - 1) as nat, n as nat);
    }
    if t + 1 == n {
        lemma_mod_multiples_vanish(1, 0, n);
        lemma_small_mod(0, n as nat);
    } else {
        lemma_small_mod((t + 1) as nat, n as nat);
    }
}

/// State after a previous-tab step among `n` tabs.
pub open spec fn spec_previous_tab(s: LaunchState, n: int) -> LaunchState {
    LaunchState { current_tab: prev_tab_index(s.current_tab as int, n) as usize, current_selection: 0 }
}

/// State after a next-tab step among `n` tabs.
pub open spec fn spec_next_tab(s: LaunchState, n: int) -> LaunchState {
    LaunchState { current_tab: next_tab_index(s.current_tab as int, n) as usize, current_selection: 0 }
}

/// State after a next-item step on a tab with `app_count` rows: the selection
/// moves down one row, clamped to the last row.
pub open spec fn spec_next_item(s: LaunchState, app_count: int) -> LaunchState {
    if s.current_selection + 1 < app_count {
        LaunchState { current_tab: s.current_tab, current_selection: (s.current_selection + 1) as usize }
    } else {
        s
    }
}

/// State after a previous-item step: the selection moves up one row, and the
/// step is a no-op at the first row.
pub open spec fn spec_previous_item(s: LaunchState) -> LaunchState {
    if s.current_selection > 0 {
        LaunchState { current_tab: s.current_tab, current_selection: (s.current_selection - 1) as usize }
    } else {
        s
    }
}

impl LaunchState {
    /// The state a fresh catalog starts in: first tab, first row.
    pub fn init() -> (s: LaunchState)
        ensures
            s == (LaunchState { current_tab: 0, current_selection: 0 }),
    {
        LaunchState { current_tab: 0, current_selection: 0 }
    }

    /// Step one tab to the left, wrapping, and reset the selection.
    pub fn previous_tab(&mut self, tab_count: usize) -> (redraw: bool)
        requires
            0 < tab_count,
            old(self).current_tab < tab_count,
        ensures
            *final(self) == spec_previous_tab(*old(self), tab_count as int),
            final(self).current_tab < tab_count,
            redraw,
    {
        proof {
            lemma_tab_index_forms(self.current_tab as int, tab_count as int);
        }
        if self.current_tab == 0 {
            self.current_tab = tab_count - 1;
        } else {
            self.current_tab = self.current_tab - 1;
        }
        self.current_selection = 0;
        true
    }

    /// Step one tab to the right, wrapping, and reset the selection.
    pub fn next_tab(&mut self, tab_count: usize) -> (redraw: bool)
        requires
            0 < tab_count,
            old(self).current_tab < tab_count,
        ensures
            *final(self) == spec_next_tab(*old(self), tab_count as int),
            final(self).current_tab < tab_count,
            redraw,
    {
        proof {
            lemma_tab_index_forms(self.current_tab as int, tab_count as int);
        }
        if self.current_tab + 1 == tab_count {
            self.current_tab = 0;
        } else {
            self.current_tab = self.current_tab + 1;
        }
        self.current_selection = 0;
        true
    }

    /// Move the selection one row down, clamped to the last row of the tab.
    pub fn next_item(&mut self, app_count: usize) -> (redraw: bool)
        ensures
            *final(self) == spec_next_item(*old(self), app_count as int),
            redraw == (old(self).current_selection + 1 < app_count),
            final(self).current_tab == old(self).current_tab,
    {
        if self.current_selection < usize::MAX && self.current_selection + 1 < app_count {
            self.current_selection = self.current_selection + 1;
            true
        } else {
            false
        }
    }

    /// Move the selection one row up; at the first row nothing changes and no
    /// redraw is requested.
    pub fn previous_item(&mut self) -> (redraw: bool)
        ensures
            *final(self) == spec_previous_item(*old(self)),
            redraw == (old(self).current_selection > 0),
            old(self).current_selection == 0 ==> *final(self) == *old(self),
    {
        if self.current_selection > 0 {
            self.current_selection = self.current_selection - 1;
            true
        } else {
            false
        }
    }
}

/// Which of the five recognised keys went down during one frame.
#[derive(Clone, Copy, PartialEq, Eq, Structural, Debug)]
pub struct FrameInput {
    pub previous_tab: bool,
    pub next_tab: bool,
    pub next_item: bool,
    pub previous_item: bool,
    pub confirm: bool,
}

/// What one frame of input asks the caller to do.
#[derive(Clone, Copy, PartialEq, Eq, Structural, Debug)]
pub struct FrameOutcome {
    pub redraw: bool,
    pub launch: bool,
}

/// The state after one frame of key presses: the four movement keys apply in
/// a fixed order — previous-tab, next-tab, next-item, previous-item — each
/// only if its key went down; confirm moves nothing.
pub open spec fn spec_frame(s: LaunchState, input: FrameInput, c: Catalog) -> LaunchState {
    let n = c.categories@.len() as int;
    let s1 = if input.previous_tab {
        spec_previous_tab(s, n)
    } else {
        s
    };
    let s2 = if input.next_tab {
        spec_next_tab(s1, n)
    } else {
        s1
    };
    let cnt = c.categories@[s2.current_tab as int].apps@.len() as int;
    let s3 = if input.next_item {
        spec_next_item(s2, cnt)
    } else {
        s2
    };
    if input.previous_item {
        spec_previous_item(s3)
    } else {
        s3
    }
}

/// Whether a frame's moves demand a rebuild of the visible list: a tab switch
/// always does, an item move only when it changed the selection.
pub open spec fn spec_frame_redraw(s: LaunchState, input: FrameInput, c: Catalog) -> bool {
    let n = c.categories@.len() as int;
    let s1 = if input.previous_tab {
        spec_previous_tab(s, n)
    } else {
        s
    };
    let s2 = if input.next_tab {
        spec_next_tab(s1, n)
    } else {
        s1
    };
    let cnt = c.categories@[s2.current_tab as int].apps@.len() as int;
    let s3 = if input.next_item {
        spec_next_item(s2, cnt)
    } else {
        s2
    };
    ||| input.previous_tab
    ||| input.next_tab
    ||| (input.next_item && s3 != s2)
    ||| (input.previous_item && s3.current_selection > 0)
}

impl LaunchState {
    /// Apply one frame of key presses against the catalog: the movement keys
    /// mutate the state in a fixed order, confirm requests a launch of
    /// whatever the moves left selected, and the outcome says whether the
    /// visible list must be rebuilt.
    pub fn handle_frame(&mut self, input: FrameInput, catalog: &Catalog) -> (o: FrameOutcome)
        requires
            catalog.categories@.len() > 0,
            old(self).current_tab < catalog.categories@.len(),
        ensures
            *final(self) == spec_frame(*old(self), input, *catalog),
            final(self).current_tab < catalog.categories@.len(),
            o.redraw == spec_frame_redraw(*old(self), input, *catalog),
            o.launch == input.confirm,
    {
        let tab_count = catalog.tab_count();
        let mut redraw = false;
        if input.previous_tab {
            let r = self.previous_tab(tab_count);
            redraw = redraw || r;
        }
        if input.next_tab {
            let r = self.next_tab(tab_count);
            redraw = redraw || r;
        }
        if input.next_item {
            let cnt = catalog.tab_app_count(self.current_tab);
            let r = self.next_item(cnt);
            redraw = redraw || r;
        }
        if input.previous_item {
            let r = self.previous_item();
            redraw = redraw || r;
        }
        FrameOutcome { redraw, launch: input.confirm }
    }
}

/// Law: a previous-tab step followed by a next-tab step (or the reverse)
/// returns to the starting tab, with the selection reset to zero by each step.
pub proof fn lemma_tab_round_trip(s: LaunchState, n: int)
    requires
        0 < n <= usize::MAX,
        s.current_tab < n,
    ensures
        spec_next_tab(spec_previous_tab(s, n), n).current_tab == s.current_tab,
        spec_next_tab(spec_previous_tab(s, n), n).current_selection == 0,
        spec_previous_tab(spec_next_tab(s, n), n).current_tab == s.current_tab,
        spec_previous_tab(spec_next_tab(s, n), n).current_selection == 0,
{
    lemma_tab_index_forms(s.current_tab as int, n);
    lemma_tab_index_forms(prev_tab_index(s.current_tab as int, n), n);
    lemma_tab_index_forms(next_tab_index(s.current_tab as int, n), n);
}

/// Law: the tab index wraps at both boundaries: previous-tab from tab 0 lands
/// on the last tab, and next-tab from the last tab lands on tab 0.
pub proof fn lemma_tab_wrap(s: LaunchState, n: int)
    requires
        0 < n <= usize::MAX,
        s.current_tab < n,
    ensures
        s.current_tab == 0 ==> spec_previous_tab(s, n).current_tab == n - 1,
        s.current_tab == n - 1 ==> spec_next_tab(s, n).current_tab == 0,
{
    lemma_tab_index_forms(s.current_tab as int, n);
}

} // verus!
