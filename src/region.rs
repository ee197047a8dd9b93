//! The four border bands of a frame and the order in which a strip walks them.

use vstd::prelude::*;

use crate::settings::{Direction, StartCorner};

verus! {

/// An axis-aligned rectangle of pixels: columns `x .. x + width`, rows
/// `y .. y + height`.
#[derive(Clone, Copy, Debug, PartialEq, Eq, Structural)]
pub struct Region {
    pub x: usize,
    pub y: usize,
    pub width: usize,
    pub height: usize,
}

/// Index of the band along the top of the frame.
pub const TOP: usize = 0;

/// Index of the band along the right side of the frame.
pub const RIGHT: usize = 1;

/// Index of the band along the bottom of the frame.
pub const BOTTOM: usize = 2;

/// Index of the band along the left side of the frame.
pub const LEFT: usize = 3;

/// Order in which the long axis of a band is walked.
#[derive(Clone, Copy, Debug, PartialEq, Eq, Structural)]
pub enum ScanDirection {
    LeftToRight,
    RightToLeft,
    TopToBottom,
    BottomToTop,
}

impl ScanDirection {
    /// The walk runs along a row of pixels.
    pub open spec fn is_horizontal(self) -> bool {
        self is LeftToRight || self is RightToLeft
    }

    /// The same axis walked the other way.
    pub open spec fn spec_flipped(self) -> ScanDirection {
        match self {
            ScanDirection::LeftToRight => ScanDirection::RightToLeft,
            ScanDirection::RightToLeft => ScanDirection::LeftToRight,
            ScanDirection::TopToBottom => ScanDirection::BottomToTop,
            ScanDirection::BottomToTop => ScanDirection::TopToBottom,
        }
    }

    /// The same axis walked the other way.
    pub fn flipped(self) -> (r: ScanDirection)
        ensures
            r == self.spec_flipped(),
    {
        match self {
            ScanDirection::LeftToRight => ScanDirection::RightToLeft,
            ScanDirection::RightToLeft => ScanDirection::LeftToRight,
            ScanDirection::TopToBottom => ScanDirection::BottomToTop,
            ScanDirection::BottomToTop => ScanDirection::TopToBottom,
        }
    }
}

/// The band `edge` of a frame whose interior corner lies at
/// `(width, height)`, for a border `thickness` pixels deep.
///
/// The clockwise tiling gives the top band the full width and the right band
/// the full height, and insets the bottom and left bands by `thickness`; the
/// counter-clockwise tiling mirrors this.
pub open spec fn border_region(
    direction: Direction,
    edge: usize,
    width: usize,
    height: usize,
    thickness: usize,
) -> Region {
    match direction {
        Direction::CW => {
            if edge == TOP {
                Region { x: 0, y: 0, width: width, height: thickness }
            } else if edge == RIGHT {
                Region { x: width, y: 0, width: thickness, height: height }
            } else if edge == BOTTOM {
                Region { x: thickness, y: height, width: width, height: thickness }
            } else {
                Region { x: 0, y: thickness, width: thickness, height: height }
            }
        },
        Direction::CCW => {
            if edge == TOP {
                Region { x: thickness, y: 0, width: width, height: thickness }
            } else if edge == RIGHT {
                Region { x: width, y: thickness, width: thickness, height: height }
            } else if edge == BOTTOM {
                Region { x: 0, y: height, width: width, height: thickness }
            } else {
                Region { x: 0, y: 0, width: thickness, height: height }
            }
        },
    }
}

/// The four border bands, indexed by `TOP`, `RIGHT`, `BOTTOM` and `LEFT`.
pub fn border_regions(direction: Direction, width: usize, height: usize, thickness: usize) -> (r: [Region; 4])
    ensures
        forall|e: int| 0 <= e < 4 ==> r@[e] == border_region(direction, e as usize, width, height, thickness),
{
    let r = match direction {
        Direction::CW => [
            Region { x: 0, y: 0, width: width, height: thickness },
            Region { x: width, y: 0, width: thickness, height: height },
            Region { x: thickness, y: height, width: width, height: thickness },
            Region { x: 0, y: thickness, width: thickness, height: height },
        ],
        Direction::CCW => [
            Region { x: thickness, y: 0, width: width, height: thickness },
            Region { x: width, y: thickness, width: thickness, height: height },
            Region { x: 0, y: height, width: width, height: thickness },
            Region { x: 0, y: 0, width: thickness, height: height },
        ],
    };
    r
}

/// Position of a corner on the clockwise walk `TL, TR, BR, BL`; the band with
/// the same index starts at that corner when walked clockwise.
pub open spec fn corner_index(corner: StartCorner) -> usize {
    match corner {
        StartCorner::TL => 0,
        StartCorner::TR => 1,
        StartCorner::BR => 2,
        StartCorner::BL => 3,
    }
}

/// The band that a strip starting at `start` and winding in `direction` walks
/// as its `k`-th one: a rotation of the clockwise cycle
/// `TOP, RIGHT, BOTTOM, LEFT`, run backwards for the counter-clockwise winding.
pub open spec fn edge_at(start: StartCorner, direction: Direction, k: int) -> usize {
    let c = corner_index(start) as int;
    match direction {
        Direction::CW => ((c + k) % 4) as usize,
        Direction::CCW => ((c + 3 - k) % 4) as usize,
    }
}

/// How band `edge` is walked clockwise.
pub open spec fn clockwise_scan(edge: usize) -> ScanDirection {
    if edge == TOP {
        ScanDirection::LeftToRight
    } else if edge == RIGHT {
        ScanDirection::TopToBottom
    } else if edge == BOTTOM {
        ScanDirection::RightToLeft
    } else {
        ScanDirection::BottomToTop
    }
}

/// How the `k`-th band of the walk is scanned: counter-clockwise walks each
/// band the other way.
pub open spec fn scan_at(start: StartCorner, direction: Direction, k: int) -> ScanDirection {
    let s = clockwise_scan(edge_at(start, direction, k));
    match direction {
        Direction::CW => s,
        Direction::CCW => s.spec_flipped(),
    }
}

/// The bands in the order in which the strip walks them, each with the
/// direction in which it is scanned.
pub fn resolve_orientation(start: StartCorner, direction: Direction) -> (r: [(usize, ScanDirection); 4])
    ensures
        forall|k: int| 0 <= k < 4 ==> r@[k] == (edge_at(start, direction, k), scan_at(start, direction, k)),
{
    let c: usize = match start {
        StartCorner::TL => 0,
        StartCorner::TR => 1,
        StartCorner::BR => 2,
        StartCorner::BL => 3,
    };
    let cw = [
        ScanDirection::LeftToRight,
        ScanDirection::TopToBottom,
        ScanDirection::RightToLeft,
        ScanDirection::BottomToTop,
    ];
    let mut r = [(0usize, ScanDirection::LeftToRight); 4];
    let mut k: usize = 0;
    while k < 4
        invariant
            c == corner_index(start),
            k <= 4,
            forall|e: int| 0 <= e < 4 ==> cw@[e] == clockwise_scan(e as usize),
            forall|i: int| 0 <= i < k ==> r@[i] == (edge_at(start, direction, i), scan_at(start, direction, i)),
        decreases 4 - k,
    {
        let (edge, scan) = match direction {
            Direction::CW => {
                let edge = (c + k) % 4;
                (edge, cw[edge])
            },
            Direction::CCW => {
                let edge = (c + 3 - k) % 4;
                (edge, cw[edge].flipped())
            },
        };
        r[k] = (edge, scan);
        k = k + 1;
    }
    r
}

/// The two rectangles share no pixel.
pub open spec fn disjoint(a: Region, b: Region) -> bool {
    ||| a.x + a.width <= b.x
    ||| b.x + b.width <= a.x
    ||| a.y + a.height <= b.y
    ||| b.y + b.height <= a.y
}

/// The rectangle lies inside a frame of `frame_width` × `frame_height` pixels.
pub open spec fn inside(r: Region, frame_width: int, frame_height: int) -> bool {
    r.x + r.width <= frame_width && r.y + r.height <= frame_height
}

/// The pixel in column `x` of row `y` belongs to the rectangle.
pub open spec fn contains(r: Region, x: int, y: int) -> bool {
    r.x <= x < r.x + r.width && r.y <= y < r.y + r.height
}

/// Number of pixels of the rectangle.
pub open spec fn area(r: Region) -> int {
    r.width * r.height
}

/// The part of the frame that no band covers.
pub open spec fn interior(width: usize, height: usize, thickness: usize) -> Region {
    Region {
        x: thickness,
        y: thickness,
        width: (width - thickness) as usize,
        height: (height - thickness) as usize,
    }
}

/// In either tiling, the four bands of a border no deeper than the interior
/// corner's coordinates share no pixel with one another nor with the interior,
/// lie inside the `width + thickness` × `height + thickness` frame, and cover
/// together exactly as many pixels as the frame has outside the interior: the
/// bands and the interior tile the frame.
pub proof fn border_regions_tile_frame(direction: Direction, width: usize, height: usize, thickness: usize)
    requires
        0 < thickness <= width,
        thickness <= height,
    ensures
        forall|i: usize, j: usize|
            i < 4 && j < 4 && i != j ==> disjoint(
                #[trigger] border_region(direction, i, width, height, thickness),
                #[trigger] border_region(direction, j, width, height, thickness),
            ),
        forall|i: usize|
            i < 4 ==> disjoint(
                #[trigger] border_region(direction, i, width, height, thickness),
                interior(width, height, thickness),
            ),
        forall|i: usize|
            i < 4 ==> inside(
                #[trigger] border_region(direction, i, width, height, thickness),
                width + thickness,
                height + thickness,
            ),
        area(border_region(direction, TOP, width, height, thickness)) + area(
            border_region(direction, RIGHT, width, height, thickness),
        ) + area(border_region(direction, BOTTOM, width, height, thickness)) + area(
            border_region(direction, LEFT, width, height, thickness),
        ) == (width + thickness) * (height + thickness) - area(interior(width, height, thickness)),
{
    let w = width as int;
    let h = height as int;
    let t = thickness as int;
    assert(w * t + t * h + w * t + t * h == (w + t) * (h + t) - (w - t) * (h - t)) by (nonlinear_arith);
}

/// Every walk visits each of the four bands exactly once.
pub proof fn walk_visits_each_band_once(start: StartCorner, direction: Direction)
    ensures
        forall|k: int| 0 <= k < 4 ==> #[trigger] edge_at(start, direction, k) < 4,
        forall|k: int, l: int|
            0 <= k < 4 && 0 <= l < 4 && k != l ==> #[trigger] edge_at(start, direction, k)
                != #[trigger] edge_at(start, direction, l),
{
}

/// The corner at which a walk along band `edge` in direction `scan` begins.
pub open spec fn walk_from(edge: usize, scan: ScanDirection) -> StartCorner {
    match scan {
        ScanDirection::LeftToRight => if edge == BOTTOM { StartCorner::BL } else { StartCorner::TL },
        ScanDirection::RightToLeft => if edge == BOTTOM { StartCorner::BR } else { StartCorner::TR },
        ScanDirection::TopToBottom => if edge == RIGHT { StartCorner::TR } else { StartCorner::TL },
        ScanDirection::BottomToTop => if edge == RIGHT { StartCorner::BR } else { StartCorner::BL },
    }
}

/// The corner at which a walk along band `edge` in direction `scan` ends.
pub open spec fn walk_to(edge: usize, scan: ScanDirection) -> StartCorner {
    walk_from(edge, scan.spec_flipped())
}

/// The walk is one unbroken loop around the frame: it begins at the start
/// corner, each band is scanned along its own axis from the corner where the
/// previous band ended, and the last band ends back at the start corner.
pub proof fn walk_is_continuous(start: StartCorner, direction: Direction)
    ensures
        walk_from(edge_at(start, direction, 0), scan_at(start, direction, 0)) == start,
        forall|k: int|
            0 <= k < 3 ==> walk_to(#[trigger] edge_at(start, direction, k), scan_at(start, direction, k))
                == walk_from(edge_at(start, direction, k + 1), scan_at(start, direction, k + 1)),
        walk_to(edge_at(start, direction, 3), scan_at(start, direction, 3)) == start,
        forall|k: int|
            0 <= k < 4 ==> ((#[trigger] scan_at(start, direction, k)).is_horizontal() <==> (edge_at(
                start,
                direction,
                k,
            ) == TOP || edge_at(start, direction, k) == BOTTOM)),
{
}

} // verus!
