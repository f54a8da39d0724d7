//! Which of the board's looks goes with what the board holds.

use vstd::prelude::*;

verus! {

/// The place, in a list of `colors` colors, of the color in which the count
/// `counter` is written: the first color for the count 1, the next for 2 and
/// so on, and the last color for every count beyond the list. `None` where
/// the list is empty.
pub fn bomb_counter_color_index(counter: u8, colors: usize) -> (index: Option<usize>)
    ensures
        index == if colors == 0 {
            None
        } else if counter == 0 {
            Some(0usize)
        } else if counter - 1 < colors {
            Some((counter - 1) as usize)
        } else {
            Some((colors - 1) as usize)
        },
{
    let wanted = counter.saturating_sub(1) as usize;
    if wanted < colors {
        Some(wanted)
    } else if colors > 0 {
        Some(colors - 1)
    } else {
        None
    }
}

} // verus!
