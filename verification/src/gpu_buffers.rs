//! The device buffers of a detector.

use vstd::prelude::*;

verus! {

/// The device buffers of a detector, by address. Zero stands for none.
#[derive(Clone, Copy, Debug, PartialEq, Eq, Structural)]
pub struct GpuBuffers {
    pub rgb_u8: u64,
    pub rgb_scratch: u64,
    pub resized_u8: u64,
    pub tensor_f32: u64,
    pub nv12_8bit_y: u64,
    pub nv12_8bit_uv: u64,
}

/// The sizes in bytes of a detector's device buffers. A ten-bit stream needs two
/// more, in which its frames are reduced to eight bits.
#[derive(Clone, Copy, Debug, PartialEq, Eq)]
pub struct BufferPlan {
    pub rgb: usize,
    pub resized: usize,
    pub tensor: usize,
    pub eight_bit: Option<(usize, usize)>,
}

/// Sizes that no address space holds.
#[derive(Clone, Copy, Debug, PartialEq, Eq, Structural)]
pub enum BufferPlanError {
    Rgb,
    Resized,
    Tensor,
}

impl BufferPlanError {
    /// What is wrong, in words.
    pub open spec fn text(self) -> Seq<char> {
        match self {
            BufferPlanError::Rgb => "frame dimensions overflow for rgb_size"@,
            BufferPlanError::Resized => "input dimensions overflow for resized_size"@,
            BufferPlanError::Tensor => "input dimensions overflow for tensor_size"@,
        }
    }

    /// What is wrong, in words.
    pub fn message(self) -> (r: &'static str)
        ensures
            r@ == self.text(),
    {
        match self {
            BufferPlanError::Rgb => "frame dimensions overflow for rgb_size",
            BufferPlanError::Resized => "input dimensions overflow for resized_size",
            BufferPlanError::Tensor => "input dimensions overflow for tensor_size",
        }
    }
}

/// The sizes of the buffers, as far as they can be addressed.
pub open spec fn buffer_plan(
    input_size: u32,
    frame_width: u32,
    frame_height: u32,
    is_10bit: bool,
) -> Result<BufferPlan, BufferPlanError> {
    let frame = frame_width * frame_height;
    let input = input_size * input_size;
    if frame * 3 > usize::MAX {
        Err(BufferPlanError::Rgb)
    } else if input * 3 > usize::MAX {
        Err(BufferPlanError::Resized)
    } else if input * 12 > usize::MAX {
        Err(BufferPlanError::Tensor)
    } else {
        Ok(
            BufferPlan {
                rgb: (frame * 3) as usize,
                resized: (input * 3) as usize,
                tensor: (input * 12) as usize,
                eight_bit: if is_10bit {
                    Some((frame as usize, (frame_width * (frame_height as int / 2)) as usize))
                } else {
                    None
                },
            },
        )
    }
}

/// Three bytes for each element of an area, as far as they can be addressed.
fn three_planes(width: u32, height: u32) -> (r: Option<usize>)
    ensures
        r == if width * height * 3 <= usize::MAX {
            Some((width * height * 3) as usize)
        } else {
            None
        },
{
    match (width as usize).checked_mul(height as usize) {
        Some(v) => v.checked_mul(3),
        None => None,
    }
}

impl BufferPlan {
    /// Sizes the buffers for a model and its frames.
    pub fn new(input_size: u32, frame_width: u32, frame_height: u32, is_10bit: bool) -> (r: Result<
        BufferPlan,
        BufferPlanError,
    >)
        ensures
            r == buffer_plan(input_size, frame_width, frame_height, is_10bit),
    {
        let rgb = match three_planes(frame_width, frame_height) {
            Some(v) => v,
            None => {
                return Err(BufferPlanError::Rgb);
            },
        };
        let resized = match three_planes(input_size, input_size) {
            Some(v) => v,
            None => {
                return Err(BufferPlanError::Resized);
            },
        };
        let tensor = match resized.checked_mul(4) {
            Some(v) => v,
            None => {
                return Err(BufferPlanError::Tensor);
            },
        };
        let eight_bit = if is_10bit {
            proof {
                let w = frame_width as int;
                let h = frame_height as int;
                assert(0 <= w * h <= usize::MAX && 0 <= w * (h / 2) <= w * h) by (nonlinear_arith)
                    requires
                        w >= 0,
                        h >= 0,
                        w * h * 3 <= usize::MAX,
                ;
            }
            Some(
                (
                    frame_width as usize * frame_height as usize,
                    frame_width as usize * (frame_height as usize / 2),
                ),
            )
        } else {
            None
        };
        Ok(BufferPlan { rgb, resized, tensor, eight_bit })
    }
}

impl GpuBuffers {
    /// No buffer is there yet.
    pub open spec fn none() -> GpuBuffers {
        GpuBuffers {
            rgb_u8: 0,
            rgb_scratch: 0,
            resized_u8: 0,
            tensor_f32: 0,
            nv12_8bit_y: 0,
            nv12_8bit_uv: 0,
        }
    }
}

/// One device buffer, with the name that failures to free it are told under.
#[derive(Clone, Copy, Debug)]
pub struct NamedBuffer {
    pub name: &'static str,
    pub address: u64,
}

impl GpuBuffers {
    /// All buffers, in the order in which they are freed.
    pub open spec fn listed(self) -> Seq<(Seq<char>, u64)> {
        seq![
            ("rgb_u8"@, self.rgb_u8),
            ("rgb_scratch"@, self.rgb_scratch),
            ("resized_u8"@, self.resized_u8),
            ("tensor_f32"@, self.tensor_f32),
            ("nv12_8bit_y"@, self.nv12_8bit_y),
            ("nv12_8bit_uv"@, self.nv12_8bit_uv),
        ]
    }

    /// The buffers that have to be freed, in order: those that are there.
    pub fn to_free(&self) -> (r: Vec<NamedBuffer>)
        ensures
            r@.map_values(|b: NamedBuffer| (b.name@, b.address)) == self.listed().filter(
                |b: (Seq<char>, u64)| b.1 != 0,
            ),
    {
        let all = [
            NamedBuffer { name: "rgb_u8", address: self.rgb_u8 },
            NamedBuffer { name: "rgb_scratch", address: self.rgb_scratch },
            NamedBuffer { name: "resized_u8", address: self.resized_u8 },
            NamedBuffer { name: "tensor_f32", address: self.tensor_f32 },
            NamedBuffer { name: "nv12_8bit_y", address: self.nv12_8bit_y },
            NamedBuffer { name: "nv12_8bit_uv", address: self.nv12_8bit_uv },
        ];
        let ghost there = |b: (Seq<char>, u64)| b.1 != 0;
        let ghost pair = |b: NamedBuffer| (b.name@, b.address);
        let mut r: Vec<NamedBuffer> = Vec::new();
        let mut i: usize = 0;
        proof {
            assert(all@.map_values(pair) =~= self.listed());
            reveal(Seq::filter);
            assert(r@.map_values(pair) =~= self.listed().take(0).filter(there));
        }
        while i < 6
            invariant
                i <= 6,
                there == (|b: (Seq<char>, u64)| b.1 != 0),
                pair == (|b: NamedBuffer| (b.name@, b.address)),
                all@.map_values(pair) == self.listed(),
                r@.map_values(pair) == self.listed().take(i as int).filter(there),
            decreases 6 - i,
        {
            proof {
                reveal(Seq::filter);
                assert(all@.map_values(pair)[i as int] == pair(all@[i as int]));
                assert(self.listed().take(i + 1).drop_last() =~= self.listed().take(i as int));
            }
            let ghost old_r = r@;
            if all[i].address != 0 {
                r.push(all[i]);
                assert(r@.map_values(pair) =~= old_r.map_values(pair).push(pair(all@[i as int])));
            }
            i = i + 1;
        }
        proof {
            assert(self.listed().take(6) =~= self.listed());
        }
        r
    }
}

/// Every buffer is listed once.
pub proof fn law_every_buffer_is_listed(b: GpuBuffers)
    ensures
        b.listed().len() == 6,
        b.listed().contains(("rgb_u8"@, b.rgb_u8)),
        b.listed().contains(("rgb_scratch"@, b.rgb_scratch)),
        b.listed().contains(("resized_u8"@, b.resized_u8)),
        b.listed().contains(("tensor_f32"@, b.tensor_f32)),
        b.listed().contains(("nv12_8bit_y"@, b.nv12_8bit_y)),
        b.listed().contains(("nv12_8bit_uv"@, b.nv12_8bit_uv)),
{
    let l = b.listed();
    assert(l[0] == ("rgb_u8"@, b.rgb_u8));
    assert(l[1] == ("rgb_scratch"@, b.rgb_scratch));
    assert(l[2] == ("resized_u8"@, b.resized_u8));
    assert(l[3] == ("tensor_f32"@, b.tensor_f32));
    assert(l[4] == ("nv12_8bit_y"@, b.nv12_8bit_y));
    assert(l[5] == ("nv12_8bit_uv"@, b.nv12_8bit_uv));
}

} // verus!
