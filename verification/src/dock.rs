//! The agent dock's view state: the size of the terminal it shows and how far
//! the view is scrolled back. The pseudo-terminal and the emulator behind it
//! are the caller's.
use vstd::prelude::*;

verus! {

/// The dock's view of a docked program.
pub struct Dock {
    /// Rows and columns of the terminal, each at least 1.
    size: (u16, u16),
    /// Rows scrolled back from the live bottom (0 follows the output).
    scroll: usize,
    /// The command running in the dock, shown in the title and status line.
    program: String,
}

impl Dock {
    /// The size is at least one by one, and the view is scrolled back less
    /// than a `u16` of rows (it is capped by a row count when it grows).
    #[verifier::type_invariant]
    spec fn well_formed(self) -> bool {
        &&& self.size.0 >= 1
        &&& self.size.1 >= 1
        &&& self.scroll <= u16::MAX
    }

    /// Rows and columns.
    pub closed spec fn size_spec(self) -> (u16, u16) {
        self.size
    }

    /// Rows scrolled back.
    pub closed spec fn scroll_spec(self) -> usize {
        self.scroll
    }

    /// The label shown.
    pub closed spec fn program_spec(self) -> Seq<char> {
        self.program@
    }

    /// The view of a program labelled `label` started in a terminal of `rows`
    /// by `cols` (each at least 1), following its output.
    pub fn new(label: &str, rows: u16, cols: u16) -> (r: Dock)
        ensures
            r.size_spec() == (if rows < 1 { 1u16 } else { rows }, if cols < 1 { 1u16 } else { cols }),
            r.scroll_spec() == 0,
            r.program_spec() == label@,
    {
        let rows = if rows < 1 { 1 } else { rows };
        let cols = if cols < 1 { 1 } else { cols };
        Dock { size: (rows, cols), scroll: 0, program: String::from_str(label) }
    }

    /// Rows and columns.
    pub fn size(&self) -> (r: (u16, u16))
        ensures
            r == self.size_spec(),
            r.0 >= 1 && r.1 >= 1,
    {
        proof {
            use_type_invariant(self);
        }
        self.size
    }

    /// Rows scrolled back.
    pub fn scroll(&self) -> (r: usize)
        ensures
            r == self.scroll_spec(),
    {
        proof {
            use_type_invariant(self);
        }
        self.scroll
    }

    /// The label shown.
    pub fn program(&self) -> (r: &str)
        ensures
            r@ == self.program_spec(),
    {
        self.program.as_str()
    }

    /// Takes the size of the pane the dock is drawn in (each at least 1).
    /// Gives the new size when it changed, for the caller to resize the
    /// terminal and emulator; `None` when it is unchanged.
    pub fn resize(&mut self, rows: u16, cols: u16) -> (r: Option<(u16, u16)>)
        ensures
            ({
                let want = (if rows < 1 { 1u16 } else { rows }, if cols < 1 { 1u16 } else { cols });
                &&& final(self).size_spec() == want
                &&& final(self).program_spec() == old(self).program_spec()
                &&& final(self).scroll_spec() == old(self).scroll_spec()
                &&& if want == old(self).size_spec() {
                    r is None
                } else {
                    r == Some(want)
                }
            }),
    {
        proof {
            use_type_invariant(&*self);
        }
        let rows = if rows < 1 { 1 } else { rows };
        let cols = if cols < 1 { 1 } else { cols };
        if rows == self.size.0 && cols == self.size.1 {
            return None;
        }
        self.size = (rows, cols);
        Some((rows, cols))
    }
}

impl Dock {
    /// Half a screen of rows, at least one.
    pub open spec fn page(rows: u16) -> int {
        if rows / 2 < 1 {
            1
        } else {
            (rows / 2) as int
        }
    }

    /// Scrolls the view back by half a page, at most one screen back (the
    /// emulator cannot show more than that).
    pub fn scroll_page_up(&mut self)
        ensures
            final(self).size_spec() == old(self).size_spec(),
            final(self).program_spec() == old(self).program_spec(),
            final(self).scroll_spec() == ({
                let want = old(self).scroll_spec() + Dock::page(old(self).size_spec().0);
                let cap = old(self).size_spec().0 - 1;
                if want < cap {
                    want
                } else {
                    cap
                }
            }),
    {
        proof {
            use_type_invariant(&*self);
        }
        let half = (self.size.0 / 2) as usize;
        let page = if half < 1 { 1 } else { half };
        let cap = (self.size.0 - 1) as usize;
        let want = self.scroll + page;
        self.scroll = if want < cap { want } else { cap };
    }

    /// Scrolls the view forward by half a page, back to the live bottom at most.
    pub fn scroll_page_down(&mut self)
        ensures
            final(self).size_spec() == old(self).size_spec(),
            final(self).program_spec() == old(self).program_spec(),
            final(self).scroll_spec() == (if old(self).scroll_spec() > Dock::page(old(self).size_spec().0) {
                old(self).scroll_spec() - Dock::page(old(self).size_spec().0)
            } else {
                0
            }),
    {
        proof {
            use_type_invariant(&*self);
        }
        let half = (self.size.0 / 2) as usize;
        let page = if half < 1 { 1 } else { half };
        self.scroll = self.scroll.saturating_sub(page);
    }

    /// Jumps back to the live bottom (done on input, like a real terminal).
    pub fn scroll_reset(&mut self)
        ensures
            final(self).scroll_spec() == 0,
            final(self).size_spec() == old(self).size_spec(),
            final(self).program_spec() == old(self).program_spec(),
    {
        proof {
            use_type_invariant(&*self);
        }
        self.scroll = 0;
    }

    /// Whether the view is scrolled back.
    pub fn is_scrolled(&self) -> (r: bool)
        ensures
            r == (self.scroll_spec() > 0),
    {
        self.scroll > 0
    }
}

/// Where the terminal cursor is drawn in a pane at (`x`, `y`) of `width` by
/// `height` cells: nowhere when the program hides it or it lies outside the
/// pane, else at the pane's corner plus the cursor's row and column.
pub fn cursor_cell(hidden: bool, row: u16, col: u16, x: u16, y: u16, width: u16, height: u16) -> (r:
    Option<(u16, u16)>)
    requires
        x + width <= u16::MAX,
        y + height <= u16::MAX,
    ensures
        r == (if hidden || row >= height || col >= width {
            None
        } else {
            Some(((x + col) as u16, (y + row) as u16))
        }),
{
    if hidden {
        return None;
    }
    if row < height && col < width {
        Some((x + col, y + row))
    } else {
        None
    }
}

} // verus!
