use vstd::prelude::*;

verus! {

/// The selection after moving to the next item (`ListState::select_next`):
/// the first item when nothing is selected; the index saturates.
pub open spec fn next_selection(s: Option<usize>) -> Option<usize> {
    match s {
        None => Some(0),
        Some(i) => Some(if i == usize::MAX { i } else { (i + 1) as usize }),
    }
}

/// The selection after moving to the previous item (`ListState::select_previous`):
/// the last item (`usize::MAX`, corrected when drawn) when nothing is selected.
pub open spec fn prev_selection(s: Option<usize>) -> Option<usize> {
    match s {
        None => Some(usize::MAX),
        Some(i) => Some(if i == 0 { 0 } else { (i - 1) as usize }),
    }
}

/// Moves a list selection to the next item.
pub fn select_next(s: &mut Option<usize>)
    ensures
        *final(s) == next_selection(*old(s)),
{
    *s = match *s {
        None => Some(0),
        Some(i) => Some(i.saturating_add(1)),
    };
}

/// Moves a list selection to the previous item.
pub fn select_previous(s: &mut Option<usize>)
    ensures
        *final(s) == prev_selection(*old(s)),
{
    *s = match *s {
        None => Some(usize::MAX),
        Some(i) => Some(i.saturating_sub(1)),
    };
}

} // verus!
