//! How the rows of the screen are shared out.

use vstd::prelude::*;

verus! {

/// The number of rows that the box with the key bindings takes, borders included.
pub const ACTION_ROWS: u16 = 3;

/// A rectangle of the screen, in cells.
#[derive(Clone, Copy, Debug, PartialEq, Eq, Structural)]
pub struct Area {
    pub x: u16,
    pub y: u16,
    pub width: u16,
    pub height: u16,
}

/// The two boxes of the screen.
#[derive(Clone, Copy, Debug, PartialEq, Eq, Structural)]
pub struct Panes {
    /// The list of paths, at the top.
    pub list: Area,
    /// The key bindings, below the list.
    pub actions: Area,
}

/// The width and height that `tui::layout::Rect::new` makes of a width and
/// a height whose product is above `u16::MAX`.
pub uninterp spec fn clipped(width: u16, height: u16) -> (u16, u16);

/// Whether a rectangle of this size has no more cells than a `u16` counts.
pub open spec fn fits(width: u16, height: u16) -> bool {
    width * height <= u16::MAX
}

/// The rectangle at `x`, `y` that is made of a width and a height: they are
/// kept where the size fits, and cut down together where it does not.
pub open spec fn rect_of(x: u16, y: u16, width: u16, height: u16) -> Area {
    if fits(width, height) {
        Area { x, y, width, height }
    } else {
        Area { x, y, width: clipped(width, height).0, height: clipped(width, height).1 }
    }
}

/// Makes a rectangle with `tui::layout::Rect::new` and hands its four fields
/// out. Not proved: that the corner is kept, that a width and a height with a
/// product of at most `u16::MAX` are kept as well, and that any others come
/// out as a width and a height that depend on nothing but the two.
#[verifier::external_body]
fn rect(x: u16, y: u16, width: u16, height: u16) -> (area: Area)
    ensures
        area.x == x,
        area.y == y,
        fits(width, height) ==> area.width == width && area.height == height,
        !fits(width, height) ==> (area.width, area.height) == clipped(width, height),
{
    let rect = tui::layout::Rect::new(x, y, width, height);
    Area { x: rect.x, y: rect.y, width: rect.width, height: rect.height }
}

/// The boxes on a screen of `width` by `height` cells. The list takes all
/// rows but the last three, and the key bindings take three rows from where
/// the list ends, both at full width.
pub open spec fn panes_of(width: u16, height: u16) -> Panes
    recommends
        height >= ACTION_ROWS,
{
    let list = rect_of(0, 0, width, (height - ACTION_ROWS) as u16);
    Panes { list, actions: rect_of(0, list.height, width, ACTION_ROWS) }
}

/// Shares out the rows of a screen, or gives `None` for a screen too low to
/// hold the key bindings.
pub fn panes(width: u16, height: u16) -> (panes: Option<Panes>)
    ensures
        panes == if height >= ACTION_ROWS {
            Some(panes_of(width, height))
        } else {
            None
        },
{
    if height < ACTION_ROWS {
        None
    } else {
        let list = rect(0, 0, width, height - ACTION_ROWS);
        let actions = rect(0, list.height, width, ACTION_ROWS);
        Some(Panes { list, actions })
    }
}

/// On a screen with no more cells than a `u16` counts nothing is cut down:
/// the key bindings take the last three rows and the list all rows above
/// them.
pub proof fn lemma_panes_of_a_screen_that_fits(width: u16, height: u16)
    requires
        height >= ACTION_ROWS,
        fits(width, height),
    ensures
        panes_of(width, height) == (Panes {
            list: Area { x: 0, y: 0, width, height: (height - ACTION_ROWS) as u16 },
            actions: Area {
                x: 0,
                y: (height - ACTION_ROWS) as u16,
                width,
                height: ACTION_ROWS,
            },
        }),
{
    assert(width * (height - ACTION_ROWS) <= width * height) by (nonlinear_arith)
        requires
            0 <= width,
            ACTION_ROWS <= height,
    ;
    assert(width * ACTION_ROWS <= width * height) by (nonlinear_arith)
        requires
            0 <= width,
            ACTION_ROWS <= height,
    ;
}

} // verus!
