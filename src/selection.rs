//! Moving the selected line of the participants table.
use vstd::prelude::*;

verus! {

/// The line selected after moving down in a table of `len` lines: the next
/// one, wrapping to the first; no move in an empty table. No selection counts
/// as the first line.
pub open spec fn next_index(selected: Option<usize>, len: usize) -> Option<usize> {
    if len == 0 {
        selected
    } else {
        let s = selected.unwrap_or(0);
        Some(if s >= len - 1 { 0 } else { (s + 1) as usize })
    }
}

/// The line selected after moving up in a table of `len` lines: the previous
/// one, wrapping to the last; no move in an empty table. No selection counts
/// as the first line.
pub open spec fn previous_index(selected: Option<usize>, len: usize) -> Option<usize> {
    if len == 0 {
        selected
    } else {
        let s = selected.unwrap_or(0);
        Some(if s == 0 { (len - 1) as usize } else { (s - 1) as usize })
    }
}

/// Moves the selection down, as `next_index` says.
pub fn next_selection(selected: Option<usize>, len: usize) -> (r: Option<usize>)
    ensures
        r == next_index(selected, len),
        len > 0 ==> (r matches Some(i) && i < len),
{
    if len == 0 {
        return selected;
    }
    let s = match selected {
        Some(i) => i,
        None => 0,
    };
    if s >= len - 1 {
        Some(0)
    } else {
        Some(s + 1)
    }
}

/// Moves the selection up, as `previous_index` says.
pub fn previous_selection(selected: Option<usize>, len: usize) -> (r: Option<usize>)
    ensures
        r == previous_index(selected, len),
        len > 0 && (selected matches Some(s) ==> s < len) ==> (r matches Some(i) && i < len),
{
    if len == 0 {
        return selected;
    }
    let s = match selected {
        Some(i) => i,
        None => 0,
    };
    if s == 0 {
        Some(len - 1)
    } else {
        Some(s - 1)
    }
}

} // verus!
