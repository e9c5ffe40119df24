//! Where the content of a picture lies, and the region to cut out around it.

use vstd::prelude::*;

verus! {

/// The rows and columns between which the ink of a picture lies.
#[derive(Clone, Copy, Debug, PartialEq, Eq, Structural)]
pub struct Extent {
    pub top: u32,
    pub bottom: u32,
    pub left: u32,
    pub right: u32,
}

/// A rectangle of pixels: its top left corner and its size.
#[derive(Clone, Copy, Debug, PartialEq, Eq, Structural)]
pub struct Region {
    pub x: u32,
    pub y: u32,
    pub width: u32,
    pub height: u32,
}

/// A picture reduced to what cropping reads: its width, its height and one
/// flag for each pixel, row after row from the top, that says whether the
/// pixel holds ink.
#[derive(Clone, Debug)]
pub struct Picture {
    pub width: u32,
    pub height: u32,
    pub ink: Vec<bool>,
}

impl Picture {
    /// Whether the picture holds one flag for each of its pixels.
    pub open spec fn well_formed(&self) -> bool {
        self.ink@.len() == self.width * self.height
    }

    /// The picture of the given size and flags; `None` where the flags are
    /// not one for each pixel.
    pub fn new(width: u32, height: u32, ink: Vec<bool>) -> (picture: Option<Picture>)
        ensures
            picture is Some <==> ink@.len() == width * height,
            picture matches Some(p) ==> p.well_formed() && p.width == width && p.height == height
                && p.ink == ink,
    {
        assert(0 <= width * height <= 0xffff_ffff * 0xffff_ffff) by (nonlinear_arith)
            requires
                0 <= width <= 0xffff_ffff,
                0 <= height <= 0xffff_ffff,
        ;
        if ink.len() as u64 == width as u64 * height as u64 {
            Some(Picture { width, height, ink })
        } else {
            None
        }
    }

    /// The extent of the ink of the picture.
    pub fn ink_extent(&self) -> (extent: Extent)
        requires
            self.well_formed(),
        ensures
            is_extent_of(extent, self.ink@, self.width as nat, self.height as nat),
    {
        extent_of(&self.ink, self.width, self.height)
    }

    /// The region to cut out of the picture around its ink, with `margin`
    /// pixels on each side as far as the picture goes; `None` where that is
    /// not more than one row and more than one column.
    pub fn content_region(&self, margin: u32) -> (region: Option<Region>)
        requires
            self.well_formed(),
            self.width > 0,
            self.height > 0,
        ensures
            exists|extent: Extent|
                is_extent_of(extent, self.ink@, self.width as nat, self.height as nat) && region
                    == region_around(extent, self.width as nat, self.height as nat, margin as nat),
    {
        let extent = self.ink_extent();
        region_of(extent, self.width, self.height, margin)
    }
}

/// Whether column `x` of row `y` is a pixel of a picture of the given size.
pub open spec fn is_pixel(x: int, y: int, width: nat, height: nat) -> bool {
    0 <= x < width && 0 <= y < height
}

/// Whether the pixel in column `x` of row `y` holds ink.
pub open spec fn inked(ink: Seq<bool>, width: nat, x: int, y: int) -> bool {
    ink[y * width + x]
}

/// Whether any pixel of the picture holds ink.
pub open spec fn has_ink(ink: Seq<bool>, width: nat, height: nat) -> bool {
    exists|x: int, y: int| is_pixel(x, y, width, height) && #[trigger] inked(ink, width, x, y)
}

/// Whether `extent` is the extent of the ink of the picture: the first and
/// the last row and the first and the last column that hold ink. A picture
/// without ink has its height as top, its width as left, and zero as bottom
/// and right.
pub open spec fn is_extent_of(extent: Extent, ink: Seq<bool>, width: nat, height: nat) -> bool {
    if has_ink(ink, width, height) {
        &&& forall|x: int, y: int|
            is_pixel(x, y, width, height) && #[trigger] inked(ink, width, x, y) ==> extent.left
                <= x <= extent.right && extent.top <= y <= extent.bottom
        &&& exists|x: int|
            is_pixel(x, extent.top as int, width, height) && #[trigger] inked(
                ink,
                width,
                x,
                extent.top as int,
            )
        &&& exists|x: int|
            is_pixel(x, extent.bottom as int, width, height) && #[trigger] inked(
                ink,
                width,
                x,
                extent.bottom as int,
            )
        &&& exists|y: int|
            is_pixel(extent.left as int, y, width, height) && #[trigger] inked(
                ink,
                width,
                extent.left as int,
                y,
            )
        &&& exists|y: int|
            is_pixel(extent.right as int, y, width, height) && #[trigger] inked(
                ink,
                width,
                extent.right as int,
                y,
            )
    } else {
        extent.top == height && extent.bottom == 0 && extent.left == width && extent.right == 0
    }
}

/// The region to cut out of a picture around `extent`: the extent widened
/// by `margin` on each side as far as the picture goes, where that spans
/// more than one row and more than one column.
pub open spec fn region_around(extent: Extent, width: nat, height: nat, margin: nat) -> Option<
    Region,
> {
    let top = if extent.top >= margin {
        extent.top - margin
    } else {
        0
    };
    let left = if extent.left >= margin {
        extent.left - margin
    } else {
        0
    };
    let bottom = if extent.bottom + margin <= height - 1 {
        extent.bottom + margin
    } else {
        height - 1
    };
    let right = if extent.right + margin <= width - 1 {
        extent.right + margin
    } else {
        width - 1
    };
    if top < bottom && left < right {
        Some(
            Region {
                x: left as u32,
                y: top as u32,
                width: (right - left + 1) as u32,
                height: (bottom - top + 1) as u32,
            },
        )
    } else {
        None
    }
}

/// The position of a pixel in the list of flags lies inside the list.
proof fn lemma_pixel_index(x: int, y: int, width: nat, height: nat)
    requires
        is_pixel(x, y, width, height),
    ensures
        0 <= y * width + x < width * height,
{
    assert(y * width + x < (y + 1) * width) by (nonlinear_arith)
        requires
            0 <= x < width,
    ;
    assert((y + 1) * width <= height * width) by (nonlinear_arith)
        requires
            0 <= y + 1 <= height,
    ;
    assert(0 <= y * width) by (nonlinear_arith)
        requires
            0 <= y,
    ;
    assert(height * width == width * height) by (nonlinear_arith);
}

/// The extent of the ink of a picture of the given size and flags.
fn extent_of(ink: &Vec<bool>, width: u32, height: u32) -> (extent: Extent)
    requires
        ink@.len() == width * height,
    ensures
        is_extent_of(extent, ink@, width as nat, height as nat),
{
    let ghost w = width as nat;
    let ghost h = height as nat;
    let mut extent = Extent { top: height, bottom: 0, left: width, right: 0 };
    let mut found = false;
    let ghost mut top_x: int = 0;
    let ghost mut bottom_x: int = 0;
    let ghost mut left_y: int = 0;
    let ghost mut right_y: int = 0;
    let mut y: u32 = 0;
    while y < height
        invariant
            w == width,
            h == height,
            ink@.len() == w * h,
            y <= height,
            found == has_ink(ink@, w, y as nat),
            !found ==> extent == (Extent { top: height, bottom: 0, left: width, right: 0 }),
            found ==> {
                &&& forall|px: int, py: int|
                    is_pixel(px, py, w, y as nat) && #[trigger] inked(ink@, w, px, py)
                        ==> extent.left <= px <= extent.right && extent.top <= py <= extent.bottom
                &&& is_pixel(top_x, extent.top as int, w, y as nat) && inked(
                    ink@,
                    w,
                    top_x,
                    extent.top as int,
                )
                &&& is_pixel(bottom_x, extent.bottom as int, w, y as nat) && inked(
                    ink@,
                    w,
                    bottom_x,
                    extent.bottom as int,
                )
                &&& is_pixel(extent.left as int, left_y, w, y as nat) && inked(
                    ink@,
                    w,
                    extent.left as int,
                    left_y,
                )
                &&& is_pixel(extent.right as int, right_y, w, y as nat) && inked(
                    ink@,
                    w,
                    extent.right as int,
                    right_y,
                )
            },
        decreases height - y,
    {
        let ghost found_above = found;
        let mut x: u32 = 0;
        while x < width
            invariant
                w == width,
                h == height,
                ink@.len() == w * h,
                y < height,
                x <= width,
                found_above == has_ink(ink@, w, y as nat),
                found <==> found_above || exists|px: int|
                    0 <= px < x && #[trigger] inked(ink@, w, px, y as int),
                !found ==> extent == (Extent { top: height, bottom: 0, left: width, right: 0 }),
                found ==> {
                    &&& forall|px: int, py: int|
                        (is_pixel(px, py, w, y as nat) || (py == y && 0 <= px < x))
                            && #[trigger] inked(ink@, w, px, py) ==> extent.left <= px
                            <= extent.right && extent.top <= py <= extent.bottom
                    &&& is_pixel(top_x, extent.top as int, w, (y + 1) as nat) && inked(
                        ink@,
                        w,
                        top_x,
                        extent.top as int,
                    )
                    &&& is_pixel(bottom_x, extent.bottom as int, w, (y + 1) as nat) && inked(
                        ink@,
                        w,
                        bottom_x,
                        extent.bottom as int,
                    )
                    &&& is_pixel(extent.left as int, left_y, w, (y + 1) as nat) && inked(
                        ink@,
                        w,
                        extent.left as int,
                        left_y,
                    )
                    &&& is_pixel(extent.right as int, right_y, w, (y + 1) as nat) && inked(
                        ink@,
                        w,
                        extent.right as int,
                        right_y,
                    )
                },
            decreases width - x,
        {
            let len = ink.len();
            proof {
                lemma_pixel_index(x as int, y as int, w, h);
                assert(0 <= y * width <= y * width + x < len);
            }
            let at: usize = y as usize * width as usize + x as usize;
            if ink[at] {
                assert(inked(ink@, w, x as int, y as int));
                if !found {
                    extent = Extent { top: y, bottom: y, left: x, right: x };
                    found = true;
                    proof {
                        top_x = x as int;
                        bottom_x = x as int;
                        left_y = y as int;
                        right_y = y as int;
                    }
                } else {
                    if y > extent.bottom {
                        extent.bottom = y;
                        proof {
                            bottom_x = x as int;
                        }
                    }
                    if x < extent.left {
                        extent.left = x;
                        proof {
                            left_y = y as int;
                        }
                    }
                    if x > extent.right {
                        extent.right = x;
                        proof {
                            right_y = y as int;
                        }
                    }
                }
            }
            x += 1;
        }
        proof {
            assert(found == has_ink(ink@, w, (y + 1) as nat)) by {
                if has_ink(ink@, w, (y + 1) as nat) {
                    let (px, py) = choose|px: int, py: int|
                        is_pixel(px, py, w, (y + 1) as nat) && #[trigger] inked(ink@, w, px, py);
                    if py < y {
                        assert(is_pixel(px, py, w, y as nat));
                    }
                }
                if found && !found_above {
                    let px = choose|px: int| 0 <= px < w && #[trigger] inked(ink@, w, px, y as int);
                    assert(is_pixel(px, y as int, w, (y + 1) as nat));
                }
                if found_above {
                    let (px, py) = choose|px: int, py: int|
                        is_pixel(px, py, w, y as nat) && #[trigger] inked(ink@, w, px, py);
                    assert(is_pixel(px, py, w, (y + 1) as nat));
                }
            }
        }
        y += 1;
    }
    extent
}

/// The region to cut out of a picture of the given size around `extent`,
/// with `margin` pixels on each side; `None` where that is not more than one
/// row and more than one column.
pub fn region_of(extent: Extent, width: u32, height: u32, margin: u32) -> (region: Option<Region>)
    requires
        width > 0,
        height > 0,
    ensures
        region == region_around(extent, width as nat, height as nat, margin as nat),
{
    let top: u32 = if extent.top >= margin {
        extent.top - margin
    } else {
        0
    };
    let left: u32 = if extent.left >= margin {
        extent.left - margin
    } else {
        0
    };
    let bottom: u32 = if extent.bottom as u64 + margin as u64 <= (height - 1) as u64 {
        extent.bottom + margin
    } else {
        height - 1
    };
    let right: u32 = if extent.right as u64 + margin as u64 <= (width - 1) as u64 {
        extent.right + margin
    } else {
        width - 1
    };
    if top < bottom && left < right {
        Some(Region { x: left, y: top, width: right - left + 1, height: bottom - top + 1 })
    } else {
        None
    }
}

} // verus!
