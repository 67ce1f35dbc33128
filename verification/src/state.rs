//! The list-navigation state machine: a selectable, wrap-around cursor over an
//! ordered sequence of items.
//!
//! Every operation is total, also on an empty sequence, and keeps the cursor
//! inside the sequence. Movement wraps only from the exact boundary index
//! (last for `next`, first for `previous`); a step that would overshoot the
//! boundary from the inside is clamped to the boundary instead, so the
//! selection stays within `[0, n)` after any operation.

use vstd::prelude::*;

verus! {

/// A cursor over an ordered sequence of items. The sequence itself is never
/// changed by navigation; only the selection moves.
#[derive(Debug)]
pub struct StatefulList<T> {
    /// The selected index, if any. When `Some(i)`, `i < items.len()`.
    pub selected: Option<usize>,
    /// The items the cursor ranges over.
    pub items: Vec<T>,
}

/// Where `next(step)` moves the cursor from `sel` over `n` items.
pub open spec fn spec_next(sel: Option<usize>, n: nat, step: usize) -> Option<usize> {
    if n == 0 {
        sel
    } else {
        match sel {
            None => Some(0usize),
            Some(i) => if i >= n - 1 {
                Some(0usize)
            } else if i + step >= n {
                Some((n - 1) as usize)
            } else {
                Some((i + step) as usize)
            },
        }
    }
}

/// Where `previous(step)` moves the cursor from `sel` over `n` items.
pub open spec fn spec_previous(sel: Option<usize>, n: nat, step: usize) -> Option<usize> {
    if n == 0 {
        sel
    } else {
        match sel {
            None => Some(0usize),
            Some(i) => if i == 0 {
                Some((n - 1) as usize)
            } else if step > i {
                Some(0usize)
            } else {
                Some((i - step) as usize)
            },
        }
    }
}

impl<T> StatefulList<T> {
    /// The selection is inside the sequence whenever it is set.
    pub open spec fn wf(self) -> bool {
        self.selected matches Some(i) ==> i < self.items@.len()
    }

    /// Builds a cursor over `items` with no selection.
    pub fn with_items(items: Vec<T>) -> (r: StatefulList<T>)
        ensures
            r.wf(),
            r.selected is None,
            r.items == items,
    {
        StatefulList { selected: None, items }
    }

    /// Moves the selection forward by `step`: an unselected cursor selects the
    /// first item, the last index wraps to the first, and any other index
    /// advances by `step`, clamped to the last index. On an empty sequence
    /// this is a no-op.
    pub fn next(&mut self, step: usize)
        requires
            old(self).wf(),
        ensures
            final(self).wf(),
            final(self).items == old(self).items,
            final(self).selected == spec_next(old(self).selected, old(self).items@.len(), step),
    {
        let n = self.items.len();
        if n == 0 {
            return ;
        }
        let i: usize = match self.selected {
            Some(i) => {
                if i >= n - 1 {
                    0
                } else if step >= n - i {
                    n - 1
                } else {
                    i + step
                }
            },
            None => 0,
        };
        self.selected = Some(i);
    }

    /// Moves the selection backward by `step`: an unselected cursor selects the
    /// first item, index 0 wraps to the last index, and any other index moves
    /// back by `step`, clamped to index 0. On an empty sequence this is a
    /// no-op.
    pub fn previous(&mut self, step: usize)
        requires
            old(self).wf(),
        ensures
            final(self).wf(),
            final(self).items == old(self).items,
            final(self).selected == spec_previous(
                old(self).selected,
                old(self).items@.len(),
                step,
            ),
    {
        let n = self.items.len();
        if n == 0 {
            return ;
        }
        let i: usize = match self.selected {
            Some(i) => {
                if i == 0 {
                    n - 1
                } else if step > i {
                    0
                } else {
                    i - step
                }
            },
            None => 0,
        };
        self.selected = Some(i);
    }

    /// Sets the selection to `index`, which the caller must keep inside the
    /// sequence.
    pub fn select(&mut self, index: usize)
        requires
            old(self).wf(),
            index < old(self).items@.len(),
        ensures
            final(self).wf(),
            final(self).items == old(self).items,
            final(self).selected == Some(index),
    {
        self.selected = Some(index);
    }

    /// Clears the selection.
    pub fn unselect(&mut self)
        requires
            old(self).wf(),
        ensures
            final(self).wf(),
            final(self).items == old(self).items,
            final(self).selected is None,
    {
        self.selected = None;
    }

    /// Selects the first item; a no-op on an empty sequence.
    pub fn to_first(&mut self)
        requires
            old(self).wf(),
        ensures
            final(self).wf(),
            final(self).items == old(self).items,
            final(self).selected == if old(self).items@.len() > 0 {
                Some(0usize)
            } else {
                old(self).selected
            },
    {
        if self.items.len() > 0 {
            self.selected = Some(0);
        }
    }

    /// Selects the last item; a no-op on an empty sequence.
    pub fn to_last(&mut self)
        requires
            old(self).wf(),
        ensures
            final(self).wf(),
            final(self).items == old(self).items,
            final(self).selected == if old(self).items@.len() > 0 {
                Some((old(self).items@.len() - 1) as usize)
            } else {
                old(self).selected
            },
    {
        let n = self.items.len();
        if n > 0 {
            self.selected = Some(n - 1);
        }
    }
}

/// `previous` undoes `next` under an equal step size when no wrap and no clamp
/// is involved: from a selected index `i` with `i + step` still inside the
/// sequence, `next(step)` lands on `i + step` and `previous(step)` returns to
/// `i`.
pub proof fn lemma_next_then_previous_inverse(sel: usize, n: nat, step: usize)
    requires
        n <= usize::MAX,
        1 <= step,
        sel + step < n,
    ensures
        spec_previous(spec_next(Some(sel), n, step), n, step) == Some(sel),
{
}

/// `next` undoes `previous` under an equal step size when no wrap and no
/// clamp is involved: from a selected index `i < n` with `step <= i`,
/// `previous(step)` lands on `i - step` and `next(step)` returns to `i`.
pub proof fn lemma_previous_then_next_inverse(sel: usize, n: nat, step: usize)
    requires
        n <= usize::MAX,
        1 <= step <= sel,
        sel < n,
    ensures
        spec_next(spec_previous(Some(sel), n, step), n, step) == Some(sel),
{
}

/// Unselect followed by `next(1)` (or any step) selects the first item of any
/// non-empty sequence.
pub proof fn lemma_unselect_then_next_selects_first(n: nat, step: usize)
    requires
        n > 0,
    ensures
        spec_next(None, n, step) == Some(0usize),
{
}

/// After any navigation step the selection stays inside the sequence: moving
/// from a well-placed cursor never produces an out-of-range index.
pub proof fn lemma_navigation_stays_in_range(sel: Option<usize>, n: nat, step: usize)
    requires
        sel matches Some(i) ==> i < n,
    ensures
        spec_next(sel, n, step) matches Some(i) ==> i < n,
        spec_previous(sel, n, step) matches Some(i) ==> i < n,
{
}

} // verus!
