//! Fitting an image into the square input of a model.

use crate::binary::single::Single;
use vstd::prelude::*;

verus! {

/// How an image lies in a square input: scaled, and padded on both sides.
#[derive(Clone, Copy, Debug, PartialEq, Eq, Structural)]
pub struct Letterbox {
    pub scale: Single,
    pub new_w: u32,
    pub new_h: u32,
    pub pad_x: Single,
    pub pad_y: Single,
}

/// The scale at which a `width` by `height` image just fits: the smaller of the
/// two ratios.
pub open spec fn fitting_scale(input_size: u32, width: u32, height: u32) -> Single {
    let input = Single::natural(input_size as nat);
    input.over(Single::natural(width as nat)).lesser(input.over(Single::natural(height as nat)))
}

/// The length of a side after scaling.
pub open spec fn scaled_side(side: u32, scale: Single) -> u32 {
    Single::natural(side as nat).times(scale).rounded().to_u32()
}

/// Half of what a scaled side leaves free.
pub open spec fn padding(input_size: u32, scaled: u32) -> Single {
    Single::natural((input_size - scaled) as nat).over(Single::natural(2))
}

impl Letterbox {
    /// No scaled side is longer than the input.
    pub open spec fn fits(input_size: u32, width: u32, height: u32) -> bool {
        let scale = fitting_scale(input_size, width, height);
        scaled_side(width, scale) <= input_size && scaled_side(height, scale) <= input_size
    }

    /// How a `width` by `height` image lies in the input.
    pub open spec fn of(input_size: u32, width: u32, height: u32) -> Letterbox {
        let scale = fitting_scale(input_size, width, height);
        let new_w = scaled_side(width, scale);
        let new_h = scaled_side(height, scale);
        Letterbox {
            scale,
            new_w,
            new_h,
            pad_x: padding(input_size, new_w),
            pad_y: padding(input_size, new_h),
        }
    }

    /// Scale and scaled sides, before any padding.
    fn scaled(input_size: u32, width: u32, height: u32) -> (r: (Single, u32, u32))
        ensures
            r.0 == fitting_scale(input_size, width, height),
            r.1 == scaled_side(width, r.0),
            r.2 == scaled_side(height, r.0),
    {
        let input = Single::from_u64(input_size as u64);
        let w = Single::from_u64(width as u64);
        let h = Single::from_u64(height as u64);
        let scale = input.over(w).lesser(input.over(h));
        (scale, w.times(scale).rounded().to_u32(), h.times(scale).rounded().to_u32())
    }

    /// How a `width` by `height` image lies in the input.
    pub fn new(input_size: u32, width: u32, height: u32) -> (r: Letterbox)
        requires
            Letterbox::fits(input_size, width, height),
        ensures
            r == Letterbox::of(input_size, width, height),
    {
        let (scale, new_w, new_h) = Letterbox::scaled(input_size, width, height);
        let two = Single::from_u64(2);
        Letterbox {
            scale,
            new_w,
            new_h,
            pad_x: Single::from_u64((input_size - new_w) as u64).over(two),
            pad_y: Single::from_u64((input_size - new_h) as u64).over(two),
        }
    }

    /// Whether no scaled side is longer than the input.
    pub fn has_room(input_size: u32, width: u32, height: u32) -> (r: bool)
        ensures
            r == Letterbox::fits(input_size, width, height),
    {
        let (_, new_w, new_h) = Letterbox::scaled(input_size, width, height);
        new_w <= input_size && new_h <= input_size
    }
}

} // verus!
