//! Placement of the help overlay.
use vstd::prelude::*;

use ratatui::layout::{Constraint, Direction, Flex, Layout, Rect};

verus! {

/// A rectangle of terminal cells.
#[derive(Debug, Clone, Copy, PartialEq, Eq)]
pub struct Area {
    pub x: u16,
    pub y: u16,
    pub width: u16,
    pub height: u16,
}

/// The direction in which an area is split.
#[derive(Debug, Clone, Copy, PartialEq, Eq)]
pub enum Axis {
    Vertical,
    Horizontal,
}

/// A segment of length `len` centered in the span of `extent` cells from
/// `origin`, as (start, length). The span ends at the last cell a `u16`
/// coordinate reaches; the segment is `len` long, or the whole span when
/// that is shorter, and the cells left over are split evenly on both sides,
/// the odd one before the segment.
pub open spec fn centered_span(origin: u16, extent: u16, len: u16) -> (u16, u16) {
    let ext: int = if origin + extent > u16::MAX {
        u16::MAX - origin
    } else {
        extent as int
    };
    let seg: int = if len < ext {
        len as int
    } else {
        ext
    };
    ((origin + (ext - seg + 1) / 2) as u16, seg as u16)
}

/// Calls ratatui's `Layout::split` on a layout of one `Constraint::Length(len)`
/// segment along `axis` with `Flex::Center`, and returns the segment.
/// Claimed, as ratatui's layout source shows it: `changes_to_rects` keeps
/// the area's extent across the axis (x and width for a vertical split, y
/// and height for a horizontal one); along the axis the segment is placed
/// as [`centered_span`] says. The solver holds the segment inside the area
/// (whose end saturates at `u16::MAX`), keeps the two outer spacers equal
/// (a stronger constraint than the length, which gives way only when the
/// area is shorter), and the result is rounded from hundredths of a cell to
/// whole cells, so that a half cell left over rounds up. The split panics
/// only if the solver rejects the constraints, which one length constraint
/// in a bounded area does not make it do.
#[verifier::external_body]
fn split_centered(axis: Axis, len: u16, area: Area) -> (r: Area)
    ensures
        axis is Vertical ==> {
            &&& r.x == area.x && r.width == area.width
            &&& (r.y, r.height) == centered_span(area.y, area.height, len)
        },
        axis is Horizontal ==> {
            &&& r.y == area.y && r.height == area.height
            &&& (r.x, r.width) == centered_span(area.x, area.width, len)
        },
{
    let direction = match axis {
        Axis::Vertical => Direction::Vertical,
        Axis::Horizontal => Direction::Horizontal,
    };
    let rect = Rect { x: area.x, y: area.y, width: area.width, height: area.height };
    let r = Layout::new(direction, [Constraint::Length(len)]).flex(Flex::Center).split(rect)[0];
    Area { x: r.x, y: r.y, width: r.width, height: r.height }
}

/// The rectangle of a `width` x `height` box centered in `area`: first
/// centered vertically, then horizontally within that band.
pub open spec fn centered_area(width: u16, height: u16, area: Area) -> Area {
    let v = centered_span(area.y, area.height, height);
    let h = centered_span(area.x, area.width, width);
    Area { x: h.0, y: v.0, width: h.1, height: v.1 }
}

/// A `width` x `height` box centered in `area`, as the help overlay is
/// placed.
pub fn centered_rect(width: u16, height: u16, area: Area) -> (r: Area)
    ensures
        r == centered_area(width, height, area),
{
    let band = split_centered(Axis::Vertical, height, area);
    split_centered(Axis::Horizontal, width, band)
}

} // verus!
