//! Looking at one region of a frame in device memory.

use crate::binary::single::Single;
use crate::camera::CameraId;
use crate::crop::CropRegion;
use crate::detection::Detection;
use crate::detector::{DetectorError, GpuNv12Frame};
use crate::gpu_buffers::GpuBuffers;
use crate::letterbox::Letterbox;
use vstd::prelude::*;

verus! {

/// What a detector on frames of one size works with.
#[derive(Debug)]
pub struct DetectorSetUp {
    pub input_size: u32,
    pub confidence_threshold: Single,
    pub labels: Vec<String>,
    /// How a whole frame lies in the model's input.
    pub letterbox: Letterbox,
    pub buffers: GpuBuffers,
    pub frame_width: u32,
    pub frame_height: u32,
}

/// Two planes in device memory, with the bytes from row to row.
#[derive(Clone, Copy, Debug, PartialEq, Eq, Structural)]
pub struct Nv12Planes {
    pub y_ptr: u64,
    pub y_pitch: usize,
    pub uv_ptr: u64,
    pub uv_pitch: usize,
}

/// The reduction of one plane from ten bits to eight.
#[derive(Clone, Copy, Debug, PartialEq, Eq, Structural)]
pub struct PlaneConversion {
    pub source: u64,
    pub source_pitch: usize,
    pub target: u64,
    pub width: u32,
    pub height: u32,
}

/// All that an inference on one region needs.
#[derive(Clone, Copy, Debug, PartialEq, Eq, Structural)]
pub struct RegionInference {
    pub camera: CameraId,
    /// Where the region starts in the two planes.
    pub y_ptr: u64,
    pub uv_ptr: u64,
    pub tensor_f32: u64,
    pub y_pitch: u32,
    pub width: u32,
    pub height: u32,
    pub input_size: u32,
    pub rotation: i32,
    pub scale: Single,
    pub pad_x: Single,
    pub pad_y: Single,
    /// The padding in whole pixels.
    pub pad_x_pixels: u32,
    pub pad_y_pixels: u32,
    pub confidence_threshold: Single,
}

/// Where a region starts in the planes: in a frame that stands on its head, the
/// corner opposite to the one that is named.
pub open spec fn raw_corner(
    frame_width: u32,
    frame_height: u32,
    rotation: i32,
    region: CropRegion,
) -> (int, int) {
    if rotation == 180 {
        (
            if frame_width >= region.x + region.width {
                frame_width - (region.x + region.width)
            } else {
                0
            },
            if frame_height >= region.y + region.height {
                frame_height - (region.y + region.height)
            } else {
                0
            },
        )
    } else {
        (region.x as int, region.y as int)
    }
}

/// The addresses at which a region starts in the two planes, or which sum or
/// product is too large for an address. The tests are made in this order.
pub open spec fn region_addresses(
    planes: Nv12Planes,
    frame_width: u32,
    frame_height: u32,
    rotation: i32,
    region: CropRegion,
) -> Result<(u64, u64), Seq<char>> {
    let (x, y) = raw_corner(frame_width, frame_height, rotation, region);
    let y_offset = y * planes.y_pitch + x;
    let uv_offset = (y / 2) * planes.uv_pitch + x;
    if y_offset > u64::MAX {
        Err("NV12 Y crop offset overflow"@)
    } else if uv_offset > u64::MAX {
        Err("NV12 UV crop offset overflow"@)
    } else if planes.y_ptr + y_offset > u64::MAX {
        Err("NV12 Y pointer overflow"@)
    } else if planes.uv_ptr + uv_offset > u64::MAX {
        Err("NV12 UV pointer overflow"@)
    } else {
        Ok(((planes.y_ptr + y_offset) as u64, (planes.uv_ptr + uv_offset) as u64))
    }
}

/// `row * pitch + column`, as far as it is an address.
fn plane_offset(row: u32, pitch: usize, column: u32) -> (r: Option<u64>)
    ensures
        r == if row * pitch + column <= u64::MAX {
            Some((row * pitch + column) as u64)
        } else {
            None
        },
{
    match (row as u64).checked_mul(pitch as u64) {
        Some(v) => v.checked_add(column as u64),
        None => None,
    }
}

/// The end of a region can be numbered.
pub open spec fn region_ends(region: CropRegion) -> bool {
    region.x + region.width <= u32::MAX && region.y + region.height <= u32::MAX
}

pub(crate) fn failed(text: &str) -> (r: DetectorError)
    ensures
        r.says(text@),
{
    DetectorError::InferenceFailed(text.to_owned())
}

/// Computes the addresses at which a region starts in the two planes.
pub fn locate_region(
    planes: Nv12Planes,
    frame_width: u32,
    frame_height: u32,
    rotation: i32,
    region: CropRegion,
) -> (r: Result<(u64, u64), DetectorError>)
    requires
        rotation == 180 ==> region_ends(region),
    ensures
        match region_addresses(planes, frame_width, frame_height, rotation, region) {
            Ok(a) => r == Ok::<(u64, u64), DetectorError>(a),
            Err(text) => r matches Err(e) && e.says(text),
        },
{
    let (raw_x, raw_y): (u32, u32) = if rotation == 180 {
        (
            frame_width.saturating_sub(region.x + region.width),
            frame_height.saturating_sub(region.y + region.height),
        )
    } else {
        (region.x, region.y)
    };
    let y_offset = match plane_offset(raw_y, planes.y_pitch, raw_x) {
        Some(v) => v,
        None => {
            return Err(failed("NV12 Y crop offset overflow"));
        },
    };
    let uv_offset = match plane_offset(raw_y / 2, planes.uv_pitch, raw_x) {
        Some(v) => v,
        None => {
            return Err(failed("NV12 UV crop offset overflow"));
        },
    };
    let y = match planes.y_ptr.checked_add(y_offset) {
        Some(v) => v,
        None => {
            return Err(failed("NV12 Y pointer overflow"));
        },
    };
    let uv = match planes.uv_ptr.checked_add(uv_offset) {
        Some(v) => v,
        None => {
            return Err(failed("NV12 UV pointer overflow"));
        },
    };
    Ok((y, uv))
}

/// The planes to read a frame from, and what has to be converted first.
pub open spec fn prepared_planes(buffers: GpuBuffers, frame: GpuNv12Frame) -> Result<
    (Nv12Planes, Seq<PlaneConversion>),
    Seq<char>,
> {
    if !frame.is_10bit {
        Ok(
            (
                Nv12Planes {
                    y_ptr: frame.y_ptr,
                    y_pitch: frame.y_pitch,
                    uv_ptr: frame.uv_ptr,
                    uv_pitch: frame.uv_pitch,
                },
                seq![],
            ),
        )
    } else if buffers.nv12_8bit_y == 0 || buffers.nv12_8bit_uv == 0 {
        Err("P010 frame received but no conversion buffers allocated"@)
    } else {
        Ok(
            (
                Nv12Planes {
                    y_ptr: buffers.nv12_8bit_y,
                    y_pitch: frame.width as usize,
                    uv_ptr: buffers.nv12_8bit_uv,
                    uv_pitch: frame.width as usize,
                },
                seq![
                    PlaneConversion {
                        source: frame.y_ptr,
                        source_pitch: frame.y_pitch,
                        target: buffers.nv12_8bit_y,
                        width: frame.width,
                        height: frame.height,
                    },
                    PlaneConversion {
                        source: frame.uv_ptr,
                        source_pitch: frame.uv_pitch,
                        target: buffers.nv12_8bit_uv,
                        width: frame.width,
                        height: (frame.height / 2) as u32,
                    },
                ],
            ),
        )
    }
}

impl DetectorSetUp {
    /// Finds out which planes to read a frame from, and what has to be converted
    /// first: the two planes of a ten-bit frame, the luma before the chroma.
    pub fn prepared_nv12(&self, frame: &GpuNv12Frame) -> (r: Result<
        (Nv12Planes, Vec<PlaneConversion>),
        DetectorError,
    >)
        ensures
            match prepared_planes(self.buffers, *frame) {
                Ok((planes, conversions)) => r matches Ok(p) && p.0 == planes && p.1@
                    == conversions,
                Err(text) => r matches Err(e) && e.says(text),
            },
    {
        let mut conversions: Vec<PlaneConversion> = Vec::new();
        if !frame.is_10bit {
            return Ok(
                (
                    Nv12Planes {
                        y_ptr: frame.y_ptr,
                        y_pitch: frame.y_pitch,
                        uv_ptr: frame.uv_ptr,
                        uv_pitch: frame.uv_pitch,
                    },
                    conversions,
                ),
            );
        }
        if self.buffers.nv12_8bit_y == 0 || self.buffers.nv12_8bit_uv == 0 {
            return Err(failed("P010 frame received but no conversion buffers allocated"));
        }
        conversions.push(
            PlaneConversion {
                source: frame.y_ptr,
                source_pitch: frame.y_pitch,
                target: self.buffers.nv12_8bit_y,
                width: frame.width,
                height: frame.height,
            },
        );
        conversions.push(
            PlaneConversion {
                source: frame.uv_ptr,
                source_pitch: frame.uv_pitch,
                target: self.buffers.nv12_8bit_uv,
                width: frame.width,
                height: frame.height / 2,
            },
        );
        proof {
            assert(conversions@ =~= prepared_planes(self.buffers, *frame)->Ok_0.1);
        }
        Ok(
            (
                Nv12Planes {
                    y_ptr: self.buffers.nv12_8bit_y,
                    y_pitch: frame.width as usize,
                    uv_ptr: self.buffers.nv12_8bit_uv,
                    uv_pitch: frame.width as usize,
                },
                conversions,
            ),
        )
    }
}

/// Detections in fractions of a region, in fractions of the frame.
pub open spec fn all_remapped(
    detections: Seq<Detection>,
    region: CropRegion,
    frame_width: u32,
    frame_height: u32,
) -> Seq<Detection> {
    detections.map_values(|d: Detection| region.remapped(d, frame_width, frame_height))
}

/// Maps what was found in a region to the frame.
pub fn remap_all(
    detections: &[Detection],
    region: CropRegion,
    frame_width: u32,
    frame_height: u32,
) -> (r: Vec<Detection>)
    ensures
        r@ == all_remapped(detections@, region, frame_width, frame_height),
{
    let mut r: Vec<Detection> = Vec::new();
    let mut i: usize = 0;
    while i < detections.len()
        invariant
            i <= detections@.len(),
            r@ =~= all_remapped(detections@.take(i as int), region, frame_width, frame_height),
        decreases detections@.len() - i,
    {
        r.push(region.remap(detections[i], frame_width, frame_height));
        i = i + 1;
    }
    proof {
        assert(detections@.take(i as int) =~= detections@);
    }
    r
}

impl DetectorSetUp {
    /// How a region lies in the model's input.
    pub open spec fn region_letterbox(
        self,
        frame_width: u32,
        frame_height: u32,
        region: CropRegion,
    ) -> Letterbox {
        if region == CropRegion::whole(frame_width, frame_height) {
            self.letterbox
        } else {
            Letterbox::of(self.input_size, region.width, region.height)
        }
    }

    /// The region can be scaled into the model's input.
    pub open spec fn region_fits(
        self,
        frame_width: u32,
        frame_height: u32,
        region: CropRegion,
    ) -> bool {
        region == CropRegion::whole(frame_width, frame_height) || Letterbox::fits(
            self.input_size,
            region.width,
            region.height,
        )
    }

    /// What the device is asked for to look at a region that starts at these two
    /// addresses.
    pub open spec fn region_request(
        self,
        camera: CameraId,
        planes: Nv12Planes,
        frame_width: u32,
        frame_height: u32,
        rotation: i32,
        region: CropRegion,
        start: (u64, u64),
    ) -> RegionInference {
        let b = self.region_letterbox(frame_width, frame_height, region);
        RegionInference {
            camera,
            y_ptr: start.0,
            uv_ptr: start.1,
            tensor_f32: self.buffers.tensor_f32,
            y_pitch: (planes.y_pitch as int % 0x1_0000_0000) as u32,
            width: region.width,
            height: region.height,
            input_size: self.input_size,
            rotation,
            scale: b.scale,
            pad_x: b.pad_x,
            pad_y: b.pad_y,
            pad_x_pixels: b.pad_x.to_u32(),
            pad_y_pixels: b.pad_y.to_u32(),
            confidence_threshold: self.confidence_threshold,
        }
    }

    /// Puts together what the device is asked for to look at one region of a frame.
    pub fn infer_region(
        &self,
        camera: CameraId,
        planes: Nv12Planes,
        frame_width: u32,
        frame_height: u32,
        rotation: i32,
        region: CropRegion,
    ) -> (r: Result<RegionInference, DetectorError>)
        requires
            rotation == 180 ==> region_ends(region),
            self.region_fits(frame_width, frame_height, region),
        ensures
            match region_addresses(planes, frame_width, frame_height, rotation, region) {
                Ok(start) => r == Ok::<RegionInference, DetectorError>(
                    self.region_request(
                        camera,
                        planes,
                        frame_width,
                        frame_height,
                        rotation,
                        region,
                        start,
                    ),
                ),
                Err(text) => r matches Err(e) && e.says(text),
            },
    {
        let start = match locate_region(planes, frame_width, frame_height, rotation, region) {
            Ok(start) => start,
            Err(e) => {
                return Err(e);
            },
        };
        let b = if region == CropRegion::full(frame_width, frame_height) {
            self.letterbox
        } else {
            Letterbox::new(self.input_size, region.width, region.height)
        };
        Ok(
            RegionInference {
                camera,
                y_ptr: start.0,
                uv_ptr: start.1,
                tensor_f32: self.buffers.tensor_f32,
                y_pitch: (planes.y_pitch as u64 % 0x1_0000_0000) as u32,
                width: region.width,
                height: region.height,
                input_size: self.input_size,
                rotation,
                scale: b.scale,
                pad_x: b.pad_x,
                pad_y: b.pad_y,
                pad_x_pixels: b.pad_x.to_u32(),
                pad_y_pixels: b.pad_y.to_u32(),
                confidence_threshold: self.confidence_threshold,
            },
        )
    }
}

} // verus!
