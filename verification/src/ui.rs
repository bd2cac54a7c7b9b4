//! The switcher dialog's selection: keyboard and mouse each move it, and
//! whichever moved last wins.
use vstd::prelude::*;
use crate::hook::Event;

verus! {

/// Selection state of an open dialog.
#[derive(Debug, Clone, Copy)]
pub struct Selection {
    /// Keyboard selection.
    pub kb: usize,
    /// Icon under the mouse.
    pub hover: usize,
    /// Whether the mouse moved after the keyboard.
    pub mouse_last: bool,
    /// Last mouse position seen, in client coordinates.
    pub last_pt: (i32, i32),
}

/// The effective selection: whichever of keyboard and mouse moved last; 0
/// with no dialog open.
pub open spec fn selection_of(dlg: Option<Selection>) -> usize {
    match dlg {
        Some(d) => if d.mouse_last {
            d.hover
        } else {
            d.kb
        },
        None => 0,
    }
}

impl Selection {
    /// A freshly shown dialog with the cursor at `cursor`: keyboard and
    /// hover both at `kb`, the keyboard in charge until the mouse actually
    /// moves (a new window under a still cursor gets a spurious move).
    pub fn new(kb: usize, cursor: (i32, i32)) -> (s: Selection)
        ensures
            s == (Selection { kb, hover: kb, mouse_last: false, last_pt: cursor }),
    {
        Selection { kb, hover: kb, mouse_last: false, last_pt: cursor }
    }

    /// The mouse was reported at `pt`; `inside` says whether that is inside
    /// the panel and `hover` which icon it is over. A report at the last
    /// position changes nothing; outside the panel only the position is
    /// remembered; inside, the mouse takes over the selection. Whether the
    /// effective selection needs a redraw.
    pub fn mouse_move(&mut self, pt: (i32, i32), inside: bool, hover: usize) -> (dirty: bool)
        ensures
            pt == old(self).last_pt ==> *final(self) == *old(self) && !dirty,
            pt != old(self).last_pt && !inside ==> *final(self) == (Selection {
                last_pt: pt,
                ..*old(self)
            }) && !dirty,
            pt != old(self).last_pt && inside ==> *final(self) == (Selection {
                last_pt: pt,
                hover,
                mouse_last: true,
                ..*old(self)
            }) && dirty == (!old(self).mouse_last || old(self).hover != hover),
    {
        if pt.0 == self.last_pt.0 && pt.1 == self.last_pt.1 {
            return false;
        }
        self.last_pt = pt;
        if !inside {
            return false;
        }
        let dirty = !self.mouse_last || self.hover != hover;
        self.hover = hover;
        self.mouse_last = true;
        dirty
    }
}

impl Selection {
    /// A click: inside the panel it selects the icon under the mouse and
    /// commits; outside it cancels.
    pub fn click(&mut self, inside: bool, hover: usize) -> (ev: Event)
        ensures
            inside ==> *final(self) == (Selection { hover, mouse_last: true, ..*old(self) }) && ev
                == Event::Commit,
            !inside ==> *final(self) == *old(self) && ev == Event::Cancel,
    {
        if inside {
            self.hover = hover;
            self.mouse_last = true;
            Event::Commit
        } else {
            Event::Cancel
        }
    }
}

/// Whether the client point `(x, y)` lies on a panel of `size`
/// (width, height).
pub fn in_panel(size: (i32, i32), x: i32, y: i32) -> (r: bool)
    ensures
        r == (0 <= x < size.0 && 0 <= y < size.1),
{
    x >= 0 && y >= 0 && x < size.0 && y < size.1
}

/// Top-left corner that centers a `w` × `h` panel in the work area
/// `(left, top, right, bottom)`.
pub fn centered_origin(work: (i32, i32, i32, i32), w: i32, h: i32) -> (r: (i32, i32))
    requires
        i32::MIN <= work.2 - work.0 <= i32::MAX,
        i32::MIN <= work.3 - work.1 <= i32::MAX,
        i32::MIN <= work.2 - work.0 - w <= i32::MAX,
        i32::MIN <= work.3 - work.1 - h <= i32::MAX,
        i32::MIN <= work.0 + trunc_half(work.2 - work.0 - w) <= i32::MAX,
        i32::MIN <= work.1 + trunc_half(work.3 - work.1 - h) <= i32::MAX,
    ensures
        r.0 == work.0 + trunc_half(work.2 - work.0 - w),
        r.1 == work.1 + trunc_half(work.3 - work.1 - h),
{
    let (left, top, right, bottom) = work;
    let dx = right - left - w;
    let dy = bottom - top - h;
    (left + half(dx), top + half(dy))
}

/// Half of `v`, rounded toward zero as `i32` division rounds.
pub open spec fn trunc_half(v: int) -> int {
    if v >= 0 {
        v / 2
    } else {
        -((-v) / 2)
    }
}

fn half(v: i32) -> (r: i32)
    ensures
        r == trunc_half(v as int),
{
    if v >= 0 {
        v / 2
    } else if v == i32::MIN {
        -0x4000_0000
    } else {
        -((-v) / 2)
    }
}

/// Keyboard moved the selection. Whether a dialog is open to redraw.
pub fn kb_select(dlg: &mut Option<Selection>, kb: usize) -> (open: bool)
    ensures
        open == old(dlg).is_some(),
        *final(dlg) == match *old(dlg) {
            Some(d) => Some(Selection { kb, mouse_last: false, ..d }),
            None => None,
        },
{
    match dlg {
        Some(d) => {
            d.kb = kb;
            d.mouse_last = false;
            true
        },
        None => false,
    }
}

/// Effective selection: whichever of keyboard and mouse moved last.
pub fn selection(dlg: &Option<Selection>) -> (r: usize)
    ensures
        r == selection_of(*dlg),
{
    match dlg {
        Some(d) => if d.mouse_last {
            d.hover
        } else {
            d.kb
        },
        None => 0,
    }
}

/// Whichever moved last wins: after a keyboard move the selection is the
/// keyboard's, after a mouse move inside the panel the hovered icon.
pub proof fn lemma_last_mover_wins(d: Selection, kb: usize, hover: usize)
    ensures
        selection_of(Some(Selection { kb, mouse_last: false, ..d })) == kb,
        selection_of(Some(Selection { hover, mouse_last: true, ..d })) == hover,
{
}

/// Sign-extended 16-bit value of the low 16 bits `u`.
pub open spec fn sign16(u: int) -> int {
    if u < 0x8000 {
        u
    } else {
        u - 0x10000
    }
}

fn to_signed16(u: u16) -> (r: i32)
    ensures
        r == sign16(u as int),
{
    if u < 0x8000 {
        u as i32
    } else {
        u as i32 - 0x10000
    }
}

/// Client coordinates packed in a mouse message: x in the low 16 bits, y
/// in the next 16, each signed (with the mouse captured they go outside
/// the client area).
pub fn mouse_coords(lparam: isize) -> (r: (i32, i32))
    ensures
        r.0 == sign16((lparam & 0xFFFF) as int),
        r.1 == sign16(((lparam >> 16) & 0xFFFF) as int),
{
    let lo = lparam & 0xFFFF;
    let hi = (lparam >> 16) & 0xFFFF;
    assert(0 <= lo <= 0xFFFF) by (bit_vector)
        requires
            lo == lparam & 0xFFFF,
    ;
    assert(0 <= hi <= 0xFFFF) by (bit_vector)
        requires
            hi == (lparam >> 16) & 0xFFFF,
    ;
    (to_signed16(lo as u16), to_signed16(hi as u16))
}

} // verus!
