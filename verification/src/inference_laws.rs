//! What the device is asked for to look at a region, and where it reads.

use crate::binary::nearness::{finite, units};
use crate::binary::rounding::gap;
use crate::camera::CameraId;
use crate::crop::CropRegion;
use crate::detector::GpuNv12Frame;
use crate::gpu_buffers::{buffer_plan, GpuBuffers};
use crate::inference::{
    prepared_planes, region_addresses, DetectorSetUp, Nv12Planes, RegionInference,
};
use crate::region_laws::{fills_input, law_image_fills_the_input, longer};
use vstd::arithmetic::div_mod::{lemma_fundamental_div_mod, lemma_mod_bound};
use vstd::arithmetic::power2::{lemma_pow2_pos, pow2};
use vstd::prelude::*;

verus! {

impl DetectorSetUp {
    /// Whole frames of the set-up's size fill the model's input.
    pub open spec fn frames_fill_input(self) -> bool {
        1 <= self.input_size < 0x40_0000 && self.frame_width >= 1 && self.frame_height >= 1
            ==> fills_input(
            self.input_size,
            self.frame_width,
            self.frame_height,
            self.letterbox.scale,
            self.letterbox.pad_x,
            self.letterbox.pad_y,
        )
    }
}

/// The region that is looked at fills the model's input, whichever region it is; the
/// padding in pixels is the padding without its fraction; and the request is for that
/// region of the frame.
pub proof fn law_region_fills_the_input(
    set_up: DetectorSetUp,
    camera: CameraId,
    planes: Nv12Planes,
    rotation: i32,
    region: CropRegion,
    start: (u64, u64),
)
    requires
        set_up.frames_fill_input(),
        1 <= set_up.input_size < 0x40_0000,
        set_up.frame_width >= 1,
        set_up.frame_height >= 1,
        region.width >= 1,
        region.height >= 1,
    ensures
        ({
            let r = set_up.region_request(
                camera,
                planes,
                set_up.frame_width,
                set_up.frame_height,
                rotation,
                region,
                start,
            );
            &&& fills_input(
                set_up.input_size,
                region.width,
                region.height,
                r.scale,
                r.pad_x,
                r.pad_y,
            )
            &&& r.pad_x_pixels * pow2(149) <= units(r.pad_x) < (r.pad_x_pixels + 1) * pow2(149)
            &&& r.pad_y_pixels * pow2(149) <= units(r.pad_y) < (r.pad_y_pixels + 1) * pow2(149)
            &&& r.width == region.width && r.height == region.height
            &&& r.input_size == set_up.input_size
            &&& r.camera == camera && r.rotation == rotation
            &&& (r.y_ptr, r.uv_ptr) == start
            &&& r.tensor_f32 == set_up.buffers.tensor_f32
            &&& r.confidence_threshold == set_up.confidence_threshold
            &&& planes.y_pitch <= u32::MAX ==> r.y_pitch == planes.y_pitch
        }),
{
    law_image_fills_the_input(set_up.input_size, region.width, region.height);
    let r = set_up.region_request(
        camera,
        planes,
        set_up.frame_width,
        set_up.frame_height,
        rotation,
        region,
        start,
    );
    lemma_pixels(set_up, region, r);
}

proof fn lemma_pixels(set_up: DetectorSetUp, region: CropRegion, r: RegionInference)
    requires
        1 <= set_up.input_size < 0x40_0000,
        fills_input(set_up.input_size, region.width, region.height, r.scale, r.pad_x, r.pad_y),
        r.pad_x_pixels == r.pad_x.to_u32(),
        r.pad_y_pixels == r.pad_y.to_u32(),
    ensures
        r.pad_x_pixels * pow2(149) <= units(r.pad_x) < (r.pad_x_pixels + 1) * pow2(149),
        r.pad_y_pixels * pow2(149) <= units(r.pad_y) < (r.pad_y_pixels + 1) * pow2(149),
{
    let u = pow2(149) as int;
    lemma_pow2_pos(149);
    let all = set_up.input_size * u;
    let s = units(r.scale);
    let (sw, sh) = (s * region.width, s * region.height);
    assert(sw >= 0 && sh >= 0) by (nonlinear_arith)
        requires
            sw == s * region.width,
            sh == s * region.height,
            s > 0,
    ;
    assert(all <= 4194304 * u) by (nonlinear_arith)
        requires
            all == set_up.input_size * u,
            set_up.input_size < 4194304,
            u > 0,
    ;
    lemma_without_fraction(r.pad_x);
    lemma_without_fraction(r.pad_y);
}

proof fn lemma_without_fraction(s: crate::binary::single::Single)
    requires
        finite(s),
        0 <= units(s) <= 0x1000_0000 * pow2(149),
    ensures
        s.to_u32() * pow2(149) <= units(s) < (s.to_u32() + 1) * pow2(149),
{
    let u = pow2(149) as int;
    lemma_pow2_pos(149);
    reveal(crate::binary::single::Single::to_u32_spec);
    let x = units(s);
    lemma_fundamental_div_mod(x, u);
    lemma_mod_bound(x, u);
    let q = x / u;
    assert(q <= 0x1000_0000) by (nonlinear_arith)
        requires
            u * q <= x,
            x <= 0x1000_0000 * u,
            u > 0,
    ;
    assert(q >= 0) by (nonlinear_arith)
        requires
            x == u * q + x % u,
            x % u < u,
            x >= 0,
            u > 0,
    ;
    assert(s.to_u32() == q);
    assert(q * u == u * q && (q + 1) * u == u * q + u) by (nonlinear_arith);
}

/// Of two regions of a frame, the one whose longer side is the shorter is looked at with
/// the larger scale: a ball in it is seen at a higher resolution.
pub proof fn law_smaller_region_is_seen_larger(
    set_up: DetectorSetUp,
    camera: CameraId,
    planes: Nv12Planes,
    rotation: i32,
    small: CropRegion,
    large: CropRegion,
    start: (u64, u64),
)
    requires
        set_up.frames_fill_input(),
        1 <= set_up.input_size < 0x40_0000,
        set_up.frame_width >= 1,
        set_up.frame_height >= 1,
        small.width >= 1 && small.height >= 1,
        large.width >= 1 && large.height >= 1,
        longer(small.width, small.height) <= longer(large.width, large.height),
    ensures
        ({
            let (w, h) = (set_up.frame_width, set_up.frame_height);
            let a = set_up.region_request(camera, planes, w, h, rotation, small, start);
            let b = set_up.region_request(camera, planes, w, h, rotation, large, start);
            let (x, y) = (longer(small.width, small.height), longer(large.width, large.height));
            let all = set_up.input_size * pow2(149);
            &&& gap(units(a.scale) * x, units(b.scale) * y) * 524288 <= all
            &&& (units(b.scale) - units(a.scale)) * x * 524288 <= all
        }),
{
    let (w, h) = (set_up.frame_width, set_up.frame_height);
    let s = units(set_up.region_request(camera, planes, w, h, rotation, small, start).scale);
    let t = units(set_up.region_request(camera, planes, w, h, rotation, large, start).scale);
    let x = longer(small.width, small.height) as int;
    let y = longer(large.width, large.height) as int;
    law_region_fills_the_input(set_up, camera, planes, rotation, small, start);
    law_region_fills_the_input(set_up, camera, planes, rotation, large, start);
    assert((t - s) * x == t * x - s * x && t * x <= t * y) by (nonlinear_arith)
        requires
            t > 0,
            x <= y,
    ;
}

/// A region that is moved within the frame is read as many columns and rows further on
/// in the luma plane, and as many columns and half as many rows in the chroma plane; in
/// a frame that stands on its head, as far back.
pub proof fn law_region_is_read_where_it_lies(
    planes: Nv12Planes,
    frame_width: u32,
    frame_height: u32,
    rotation: i32,
    a: CropRegion,
    b: CropRegion,
)
    requires
        a.within(frame_width, frame_height),
        b.within(frame_width, frame_height),
        a.width == b.width && a.height == b.height,
        (b.y - a.y) % 2 == 0,
        region_addresses(planes, frame_width, frame_height, rotation, a) is Ok,
        region_addresses(planes, frame_width, frame_height, rotation, b) is Ok,
    ensures
        ({
            let p = region_addresses(planes, frame_width, frame_height, rotation, a)->Ok_0;
            let q = region_addresses(planes, frame_width, frame_height, rotation, b)->Ok_0;
            let dx = b.x - a.x;
            let dy = b.y - a.y;
            if rotation == 180 {
                &&& p.0 - q.0 == dy * planes.y_pitch + dx
                &&& p.1 - q.1 == (dy / 2) * planes.uv_pitch + dx
            } else {
                &&& q.0 - p.0 == dy * planes.y_pitch + dx
                &&& q.1 - p.1 == (dy / 2) * planes.uv_pitch + dx
            }
        }),
{
    let (m, n) = (planes.y_pitch as int, planes.uv_pitch as int);
    let dy = b.y - a.y;
    let (ya, yb) = (a.y as int, b.y as int);
    if rotation == 180 {
        let (ra, rb) = (frame_height - (a.y + a.height), frame_height - (b.y + b.height));
        assert(ra * m - rb * m == dy * m) by (nonlinear_arith)
            requires
                ra - rb == dy,
        ;
        assert(ra / 2 - rb / 2 == dy / 2);
        assert((ra / 2) * n - (rb / 2) * n == (dy / 2) * n) by (nonlinear_arith)
            requires
                ra / 2 - rb / 2 == dy / 2,
        ;
    } else {
        assert(yb * m - ya * m == dy * m) by (nonlinear_arith)
            requires
                yb - ya == dy,
        ;
        assert(yb / 2 - ya / 2 == dy / 2);
        assert((yb / 2) * n - (ya / 2) * n == (dy / 2) * n) by (nonlinear_arith)
            requires
                yb / 2 - ya / 2 == dy / 2,
        ;
    }
}

/// A region in the first corner of an upright frame, and one in the last corner of a
/// frame that stands on its head, are read from the start of both planes.
pub proof fn law_first_corner_is_read_from_the_start(
    planes: Nv12Planes,
    frame_width: u32,
    frame_height: u32,
    rotation: i32,
    region: CropRegion,
)
    requires
        region.within(frame_width, frame_height),
        rotation == 180 ==> region.x + region.width == frame_width && region.y + region.height
            == frame_height,
        rotation != 180 ==> region.x == 0 && region.y == 0,
    ensures
        region_addresses(planes, frame_width, frame_height, rotation, region) == Ok::<
            (u64, u64),
            Seq<char>,
        >((planes.y_ptr, planes.uv_ptr)),
{
    let (m, n) = (planes.y_pitch as int, planes.uv_pitch as int);
    assert(0 * m == 0 && 0 * n == 0);
    assert((0int / 2) * n == 0);
}

/// The planes that a frame is read from: its own where it has eight bits, and otherwise
/// the two that it is reduced into. These are written from the frame's own planes, the
/// luma at full height and the chroma at half of it, without gaps between the rows, and
/// they fit exactly into the buffers that were planned for frames of that size.
pub proof fn law_planes_are_read_from_where_they_are_written(
    buffers: GpuBuffers,
    frame: GpuNv12Frame,
    input_size: u32,
)
    requires
        frame.is_10bit ==> buffers.nv12_8bit_y != 0 && buffers.nv12_8bit_uv != 0,
        buffer_plan(input_size, frame.width, frame.height, frame.is_10bit) is Ok,
    ensures
        prepared_planes(buffers, frame) matches Ok((planes, conversions)) && {
            if frame.is_10bit {
                &&& conversions.len() == 2
                &&& conversions[0].target == planes.y_ptr && conversions[1].target == planes.uv_ptr
                &&& conversions[0].source == frame.y_ptr && conversions[1].source == frame.uv_ptr
                &&& conversions[0].source_pitch == frame.y_pitch && conversions[1].source_pitch
                    == frame.uv_pitch
                &&& conversions[0].width == planes.y_pitch && conversions[1].width
                    == planes.uv_pitch
                &&& planes.y_ptr == buffers.nv12_8bit_y && planes.uv_ptr == buffers.nv12_8bit_uv
                &&& buffer_plan(
                    input_size,
                    frame.width,
                    frame.height,
                    frame.is_10bit,
                )->Ok_0.eight_bit == Some(
                    (
                        (conversions[0].width * conversions[0].height) as usize,
                        (conversions[1].width * conversions[1].height) as usize,
                    ),
                )
                &&& conversions[0].width == frame.width && conversions[0].height == frame.height
                &&& 2 * conversions[1].height <= frame.height < 2 * conversions[1].height + 2
            } else {
                &&& conversions.len() == 0
                &&& planes.y_ptr == frame.y_ptr && planes.uv_ptr == frame.uv_ptr
                &&& planes.y_pitch == frame.y_pitch && planes.uv_pitch == frame.uv_pitch
            }
        },
{
}

/// The buffers of a detector hold a frame in three colours, the model's input in three
/// colours, and the same in four bytes per colour; a ten-bit stream has one byte for each
/// pixel besides, and one for each pixel of every second row.
pub proof fn law_buffers_hold_frame_and_input(
    input_size: u32,
    frame_width: u32,
    frame_height: u32,
    is_10bit: bool,
)
    ensures
        buffer_plan(input_size, frame_width, frame_height, is_10bit) matches Ok(plan) ==> {
            &&& plan.rgb == 3 * (frame_width * frame_height)
            &&& plan.resized == 3 * (input_size * input_size)
            &&& plan.tensor == 4 * plan.resized
            &&& plan.eight_bit is Some <==> is_10bit
            &&& plan.eight_bit matches Some((y, uv)) ==> 3 * y == plan.rgb && uv == frame_width * (
            frame_height / 2)
        },
        3 * (frame_width * frame_height) <= usize::MAX && 12 * (input_size * input_size)
            <= usize::MAX <==> buffer_plan(input_size, frame_width, frame_height, is_10bit) is Ok,
{
    let (w, h) = (frame_width as int, frame_height as int);
    assert(0 <= w * h && 0 <= w * (h / 2) <= w * h) by (nonlinear_arith)
        requires
            w >= 0,
            h >= 0,
    ;
    let i = input_size as int;
    assert(i * i >= 0) by (nonlinear_arith);
}

} // verus!
