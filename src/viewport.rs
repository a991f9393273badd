//! The window of lines that the terminal shows.
use vstd::prelude::*;

verus! {

/// The first visible row after scrolling as little as needed to show
/// `row` in a window of `height` rows that started at `scroll`.
pub open spec fn scrolled(scroll: int, row: int, height: int) -> int {
    let s = if row < scroll {
        row
    } else {
        scroll
    };
    if row >= s + height {
        row - height + 1
    } else {
        s
    }
}

/// Scrolling puts the row in the window whenever the window has a row.
pub proof fn lemma_scrolled_shows_row(scroll: int, row: int, height: int)
    requires
        height > 0,
    ensures
        scrolled(scroll, row, height) <= row < scrolled(scroll, row, height) + height,
{
}

#[derive(Debug, Clone, Copy, PartialEq, Eq, Structural)]
pub struct Viewport {
    pub scroll_offset: usize,
    pub width: usize,
    pub height: usize,
}

impl Viewport {
    /// Scrolls by the least amount that shows `cursor_row` in a window of
    /// `height` rows.
    pub fn ensure_visible(&mut self, cursor_row: usize, height: usize)
        requires
            height == 0 ==> cursor_row < usize::MAX,
        ensures
            final(self).scroll_offset == scrolled(
                old(self).scroll_offset as int,
                cursor_row as int,
                height as int,
            ),
            height > 0 ==> final(self).scroll_offset <= cursor_row < final(self).scroll_offset
                + height,
            final(self).width == old(self).width,
            final(self).height == old(self).height,
    {
        if cursor_row < self.scroll_offset {
            self.scroll_offset = cursor_row;
        }
        if cursor_row >= self.scroll_offset && cursor_row - self.scroll_offset >= height {
            if height == 0 {
                self.scroll_offset = cursor_row + 1;
            } else {
                self.scroll_offset = cursor_row - (height - 1);
            }
        }
    }

    /// The rows to draw: from the scroll offset up to a window's height
    /// further, but not past the last line.
    pub fn visible_range(&self, line_count: usize, height: usize) -> (r: (usize, usize))
        ensures
            r.0 == self.scroll_offset,
            r.1 == if self.scroll_offset + height < line_count {
                self.scroll_offset + height
            } else {
                line_count as int
            },
    {
        if height < line_count && self.scroll_offset < line_count - height {
            (self.scroll_offset, self.scroll_offset + height)
        } else {
            (self.scroll_offset, line_count)
        }
    }
}

} // verus!
