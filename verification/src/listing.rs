//! What the two lists of the browser share: the selection that stays
//! within the list, and the scrolling of a window over the list.

use vstd::prelude::*;

verus! {

/// The selection after a list has changed: the last row where the old
/// selection is past the end, the first where the list is empty.
pub open spec fn clamped(selected: usize, count: nat) -> usize {
    if selected >= count {
        if count == 0 {
            0
        } else {
            (count - 1) as usize
        }
    } else {
        selected
    }
}

/// The offset of a window of `rows` rows over a list of `count` rows that
/// shows the row `selected`: the old offset moved as little as needed, and
/// not past the last full window. Without rows the offset stays.
pub open spec fn scrolled(selected: int, offset: int, rows: int, count: int) -> int {
    if rows == 0 {
        offset
    } else {
        let moved = if selected < offset {
            selected
        } else if selected >= offset + rows {
            selected + 1 - rows
        } else {
            offset
        };
        let last = if count >= rows {
            count - rows
        } else {
            0
        };
        if moved > last {
            last
        } else {
            moved
        }
    }
}

/// The selection after a list has changed.
pub fn clamp_selection(selected: usize, count: usize) -> (r: usize)
    ensures
        r == clamped(selected, count as nat),
{
    if selected >= count {
        if count == 0 {
            0
        } else {
            count - 1
        }
    } else {
        selected
    }
}

/// The offset that shows the row `selected`. With rows to show and a
/// selection within the list, the selection lies in the window.
pub fn scroll_to(selected: usize, offset: usize, rows: usize, count: usize) -> (r: usize)
    ensures
        r == scrolled(selected as int, offset as int, rows as int, count as int),
        rows > 0 && selected < count ==> r <= selected < r + rows,
{
    if rows == 0 {
        return offset;
    }
    let moved = if selected < offset {
        selected
    } else if selected - offset >= rows {
        selected - rows + 1
    } else {
        offset
    };
    let last = if count >= rows {
        count - rows
    } else {
        0
    };
    if moved > last {
        last
    } else {
        moved
    }
}

} // verus!
