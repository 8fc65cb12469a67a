//! Menu navigation: the decisions behind the dialogs — highlight
//! stepping with wrap-around, level availability, and scrolling. The
//! drawing and key reading around them live outside the library.

use vstd::prelude::*;

verus! {

/// What a menu interaction settles on.
#[derive(Clone, Copy, PartialEq, Eq, Structural, Debug)]
pub enum Selection {
    Play(usize),
    Help,
    Quit,
    Yes,
    No,
    Item(usize),
}

/// The largest element of the sequence, 0 when it is empty.
pub open spec fn spec_max(s: Seq<usize>) -> int
    decreases s.len(),
{
    if s.len() == 0 {
        0
    } else if s.last() as int > spec_max(s.drop_last()) {
        s.last() as int
    } else {
        spec_max(s.drop_last())
    }
}

/// The navigation rules shared by every dialog.
pub struct Menu;

impl Menu {
    /// Moves the highlight one entry up, wrapping to the last entry.
    pub fn step_up(current: usize, count: usize) -> (r: usize)
        requires
            0 < count,
            current < count,
        ensures
            r < count,
            r as int == if current == 0 { count - 1 } else { current - 1 },
    {
        if current == 0 {
            count - 1
        } else {
            current - 1
        }
    }

    /// Moves the highlight one entry down, wrapping to the first.
    pub fn step_down(current: usize, count: usize) -> (r: usize)
        requires
            0 < count,
            current < count,
        ensures
            r < count,
            r as int == if current + 1 == count { 0int } else { current + 1 },
    {
        if current + 1 == count {
            0
        } else {
            current + 1
        }
    }

    /// Steps the level highlight left; before the first level it wraps
    /// to the highest available one.
    pub fn step_level_left(current: usize, highest: usize) -> (r: usize)
        requires
            current <= highest,
        ensures
            r <= highest,
            r as int == if current == 0 { highest as int } else { current - 1 },
    {
        if current == 0 {
            highest
        } else {
            current - 1
        }
    }

    /// Steps the level highlight right; past the highest available
    /// level it wraps to the first.
    pub fn step_level_right(current: usize, highest: usize) -> (r: usize)
        requires
            current <= highest,
        ensures
            r <= highest,
            r as int == if current >= highest { 0 } else { current + 1 },
    {
        if current >= highest {
            0
        } else {
            current + 1
        }
    }

    /// The highest level open for selection: the highest completed
    /// one, capped at the last level; the first level when nothing is
    /// completed yet.
    pub fn highest_available(completed: &Vec<usize>, num_levels: usize) -> (r: usize)
        requires
            0 < num_levels,
        ensures
            r < num_levels,
            r as int == if spec_max(completed@) < num_levels - 1 {
                spec_max(completed@)
            } else {
                num_levels - 1
            },
    {
        let n = completed.len();
        let mut best: usize = 0;
        let mut k: usize = 0;
        while k < n
            invariant
                k <= n,
                n == completed@.len(),
                best as int == spec_max(completed@.subrange(0, k as int)),
            decreases n - k,
        {
            if completed[k] > best {
                best = completed[k];
            }
            proof {
                assert(completed@.subrange(0, k as int + 1).drop_last()
                    =~= completed@.subrange(0, k as int));
                assert(completed@.subrange(0, k as int + 1).last() == completed@[k as int]);
            }
            k = k + 1;
        }
        proof {
            assert(completed@.subrange(0, n as int) =~= completed@);
        }
        if best < num_levels - 1 {
            best
        } else {
            num_levels - 1
        }
    }

    /// Scrolls one line up, stopping at the top.
    pub fn scroll_up(start: usize) -> (r: usize)
        ensures
            r as int == if start == 0 { 0int } else { start - 1 },
    {
        if start == 0 {
            0
        } else {
            start - 1
        }
    }

    /// Scrolls one line down, stopping once the last of `total` lines
    /// is inside the `lines`-high window.
    pub fn scroll_down(start: usize, lines: usize, total: usize) -> (r: usize)
        ensures
            r as int == if start + lines >= total { start as int } else { start + 1 },
    {
        if lines >= total {
            start
        } else if start >= total - lines {
            start
        } else {
            start + 1
        }
    }
}

} // verus!
