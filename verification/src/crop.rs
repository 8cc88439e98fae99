//! Image regions that are searched at native resolution.

use crate::binary::single::Single;
use crate::detection::Detection;
use vstd::prelude::*;

verus! {

/// The share of each image side that one tile of a tiled search covers: two
/// thirds.
pub const TILED_CROP_RATIO: u32 = 0x3f2a_aaab;

/// A rectangle of pixels.
#[derive(Clone, Copy, Debug, PartialEq, Eq, Structural)]
pub struct CropRegion {
    pub x: u32,
    pub y: u32,
    pub width: u32,
    pub height: u32,
}

/// `value` without its lowest bit, but at least two.
pub open spec fn even_size(value: int) -> int {
    if value < 2 {
        2
    } else {
        value - value % 2
    }
}

fn to_even_size(value: u32) -> (r: u32)
    ensures
        r == even_size(value as int),
{
    if value < 2 {
        2
    } else {
        value - value % 2
    }
}

/// The length of a crop that covers `ratio` of a side.
pub open spec fn crop_side(side: u32, ratio: Single) -> u32 {
    let scaled = Single::natural(side as nat).times(ratio).rounded().to_u32();
    even_size(
        if scaled < side {
            scaled as int
        } else {
            side as int
        },
    ) as u32
}

/// How far a crop can be moved along a side.
pub open spec fn crop_slack(side: u32, length: u32) -> u32 {
    if side > length {
        (side - length) as u32
    } else {
        0
    }
}

/// Where a crop starts so that `center`, a fraction of the side, is in its
/// middle as far as the image and an even start allow.
pub open spec fn crop_start(side: u32, length: u32, center: Single) -> u32 {
    let slack = crop_slack(side, length);
    let target = center.clamped(Single::natural(0), Single::natural(1)).times(
        Single::natural(side as nat),
    ).minus(Single::natural(length as nat).over(Single::natural(2)));
    let start = target.rounded().clamped(
        Single::natural(0),
        Single::natural(slack as nat),
    ).to_u32();
    let even = (start - start % 2) as u32;
    let last = (slack - slack % 2) as u32;
    if even < last {
        even
    } else {
        last
    }
}

fn side_of_crop(side: u32, ratio: Single) -> (r: u32)
    ensures
        r == crop_side(side, ratio),
{
    let scaled = Single::from_u64(side as u64).times(ratio).rounded().to_u32();
    to_even_size(
        if scaled < side {
            scaled
        } else {
            side
        },
    )
}

fn start_of_crop(side: u32, length: u32, center: Single) -> (r: u32)
    ensures
        r == crop_start(side, length, center),
{
    let zero = Single::from_u64(0);
    let slack: u32 = if side > length {
        side - length
    } else {
        0
    };
    proof {
        Single::lemma_naturals(0, 1);
        Single::lemma_naturals(0, slack as nat);
    }
    let target = center.clamped(zero, Single::from_u64(1)).times(
        Single::from_u64(side as u64),
    ).minus(Single::from_u64(length as u64).over(Single::from_u64(2)));
    let start = target.rounded().clamped(zero, Single::from_u64(slack as u64)).to_u32();
    let even: u32 = start - start % 2;
    let last: u32 = slack - slack % 2;
    if even < last {
        even
    } else {
        last
    }
}

impl CropRegion {
    /// The whole frame.
    pub open spec fn whole(width: u32, height: u32) -> CropRegion {
        CropRegion { x: 0, y: 0, width, height }
    }

    /// A crop of `ratio` of the frame around a point of it.
    pub open spec fn around(
        width: u32,
        height: u32,
        ratio: Single,
        center: (Single, Single),
    ) -> CropRegion {
        let w = crop_side(width, ratio);
        let h = crop_side(height, ratio);
        CropRegion {
            x: crop_start(width, w, center.0),
            y: crop_start(height, h, center.1),
            width: w,
            height: h,
        }
    }

    /// The tile in one of the four corners of the frame.
    pub open spec fn corner_tile(width: u32, height: u32, right: bool, bottom: bool) -> CropRegion {
        let ratio = Single { bits: TILED_CROP_RATIO };
        let w = crop_side(width, ratio);
        let h = crop_side(height, ratio);
        let slack_x = crop_slack(width, w);
        let slack_y = crop_slack(height, h);
        CropRegion {
            x: if right {
                (slack_x - slack_x % 2) as u32
            } else {
                0
            },
            y: if bottom {
                (slack_y - slack_y % 2) as u32
            } else {
                0
            },
            width: w,
            height: h,
        }
    }

    /// The four tiles, row by row.
    pub open spec fn tiles(width: u32, height: u32) -> Seq<CropRegion> {
        seq![
            CropRegion::corner_tile(width, height, false, false),
            CropRegion::corner_tile(width, height, true, false),
            CropRegion::corner_tile(width, height, false, true),
            CropRegion::corner_tile(width, height, true, true),
        ]
    }

    /// Whether a pixel lies in the region.
    pub open spec fn contains(self, px: int, py: int) -> bool {
        &&& self.x <= px < self.x + self.width
        &&& self.y <= py < self.y + self.height
    }

    /// Whether the region lies in a frame of that size.
    pub open spec fn within(self, width: u32, height: u32) -> bool {
        &&& self.x + self.width <= width
        &&& self.y + self.height <= height
    }

    /// A detection in fractions of the region, in fractions of the frame.
    pub open spec fn remapped(
        self,
        detection: Detection,
        frame_width: u32,
        frame_height: u32,
    ) -> Detection {
        let fw = Single::natural(frame_width as nat);
        let fh = Single::natural(frame_height as nat);
        let w = Single::natural(self.width as nat);
        let h = Single::natural(self.height as nat);
        Detection {
            center_x: Single::natural(self.x as nat).plus(detection.center_x.times(w)).over(fw),
            center_y: Single::natural(self.y as nat).plus(detection.center_y.times(h)).over(fh),
            width: detection.width.times(w.over(fw)),
            height: detection.height.times(h.over(fh)),
            ..detection
        }
    }

    /// The whole frame.
    pub fn full(width: u32, height: u32) -> (r: CropRegion)
        ensures
            r == CropRegion::whole(width, height),
    {
        CropRegion { x: 0, y: 0, width, height }
    }

    /// A crop of `ratio` of each side, around `center` as far as the frame allows;
    /// all its numbers are even.
    pub fn centered(width: u32, height: u32, ratio: Single, center: (Single, Single)) -> (r:
        CropRegion)
        ensures
            r == CropRegion::around(width, height, ratio, center),
    {
        let crop_width = side_of_crop(width, ratio);
        let crop_height = side_of_crop(height, ratio);
        let x = start_of_crop(width, crop_width, center.0);
        let y = start_of_crop(height, crop_height, center.1);
        CropRegion { x, y, width: crop_width, height: crop_height }
    }

    /// Four overlapping tiles, one in each corner of the frame, row by row.
    pub fn tiled_2x2(width: u32, height: u32) -> (r: [CropRegion; 4])
        ensures
            r@ == CropRegion::tiles(width, height),
    {
        let ratio = Single::from_bits(TILED_CROP_RATIO);
        let w = side_of_crop(width, ratio);
        let h = side_of_crop(height, ratio);
        let slack_x: u32 = if width > w {
            width - w
        } else {
            0
        };
        let slack_y: u32 = if height > h {
            height - h
        } else {
            0
        };
        let max_x: u32 = slack_x - slack_x % 2;
        let max_y: u32 = slack_y - slack_y % 2;
        let r = [
            CropRegion { x: 0, y: 0, width: w, height: h },
            CropRegion { x: max_x, y: 0, width: w, height: h },
            CropRegion { x: 0, y: max_y, width: w, height: h },
            CropRegion { x: max_x, y: max_y, width: w, height: h },
        ];
        assert(r@ =~= CropRegion::tiles(width, height));
        r
    }

    /// Maps a detection from fractions of the region to fractions of the frame.
    pub fn remap(self, detection: Detection, frame_width: u32, frame_height: u32) -> (r: Detection)
        ensures
            r == self.remapped(detection, frame_width, frame_height),
    {
        let fw = Single::from_u64(frame_width as u64);
        let fh = Single::from_u64(frame_height as u64);
        let w = Single::from_u64(self.width as u64);
        let h = Single::from_u64(self.height as u64);
        Detection {
            camera: detection.camera,
            class_id: detection.class_id,
            confidence: detection.confidence,
            center_x: Single::from_u64(self.x as u64).plus(detection.center_x.times(w)).over(fw),
            center_y: Single::from_u64(self.y as u64).plus(detection.center_y.times(h)).over(fh),
            width: detection.width.times(w.over(fw)),
            height: detection.height.times(h.over(fh)),
        }
    }
}

/// A centred crop has even numbers throughout, and lies in every frame that is
/// at least two pixels wide and high.
pub proof fn law_centered_crop_is_even_and_inside(
    width: u32,
    height: u32,
    ratio: Single,
    center: (Single, Single),
)
    ensures
        ({
            let r = CropRegion::around(width, height, ratio, center);
            &&& r.x % 2 == 0 && r.y % 2 == 0 && r.width % 2 == 0 && r.height % 2 == 0
            &&& r.width >= 2 && r.height >= 2
            &&& width >= 2 && height >= 2 ==> r.within(width, height)
        }),
{
}

/// Each of the four tiles has even numbers throughout, and lies in every frame
/// that is at least two pixels wide and high.
pub proof fn law_tiles_are_even_and_inside(width: u32, height: u32, i: int)
    requires
        0 <= i < 4,
    ensures
        ({
            let r = CropRegion::tiles(width, height)[i];
            &&& r.x % 2 == 0 && r.y % 2 == 0 && r.width % 2 == 0 && r.height % 2 == 0
            &&& width >= 2 && height >= 2 ==> r.within(width, height)
        }),
{
}

} // verus!
