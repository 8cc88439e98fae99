//! Memory that CUDA and Vulkan share.
//!
//! CUDA allocates memory and exports a handle to it; Vulkan imports the handle as
//! the memory of a buffer or an image. This module decides sizes and formats, which
//! kind of memory is taken, and what has to be released where a step fails.

use vstd::prelude::*;

verus! {

/// The texture formats in use.
#[derive(Clone, Copy, Debug, PartialEq, Eq, Structural)]
pub enum TextureFormat {
    R8Unorm,
    Rg8Unorm,
    R16Unorm,
    Rg16Unorm,
    Rgba8Unorm,
    Rgba8UnormSrgb,
}

impl TextureFormat {
    /// Bytes per pixel: the channels by the bytes of each.
    pub open spec fn pixel_bytes(self) -> int {
        match self {
            TextureFormat::R8Unorm => 1,
            TextureFormat::Rg8Unorm => 2,
            TextureFormat::R16Unorm => 2,
            TextureFormat::Rg16Unorm => 4,
            TextureFormat::Rgba8Unorm => 4,
            TextureFormat::Rgba8UnormSrgb => 4,
        }
    }

    /// The number that Vulkan knows the format by.
    pub open spec fn vk_number(self) -> int {
        match self {
            TextureFormat::R8Unorm => 9,
            TextureFormat::Rg8Unorm => 16,
            TextureFormat::R16Unorm => 70,
            TextureFormat::Rg16Unorm => 77,
            TextureFormat::Rgba8Unorm => 37,
            TextureFormat::Rgba8UnormSrgb => 43,
        }
    }
}

/// Bytes per pixel.
pub fn format_bytes_per_pixel(format: TextureFormat) -> (r: usize)
    ensures
        r == format.pixel_bytes(),
        1 <= r <= 4,
{
    match format {
        TextureFormat::R8Unorm => 1,
        TextureFormat::Rg8Unorm => 2,
        TextureFormat::R16Unorm => 2,
        TextureFormat::Rg16Unorm => 4,
        TextureFormat::Rgba8Unorm => 4,
        TextureFormat::Rgba8UnormSrgb => 4,
    }
}

/// The number that Vulkan knows the format by.
pub fn wgpu_format_to_vk(format: TextureFormat) -> (r: i32)
    ensures
        r == format.vk_number(),
{
    match format {
        TextureFormat::R8Unorm => 9,
        TextureFormat::Rg8Unorm => 16,
        TextureFormat::R16Unorm => 70,
        TextureFormat::Rg16Unorm => 77,
        TextureFormat::Rgba8Unorm => 37,
        TextureFormat::Rgba8UnormSrgb => 43,
    }
}

/// `wgpu::COPY_BYTES_PER_ROW_ALIGNMENT`: rows of a buffer that is copied to a
/// texture start at multiples of this many bytes, which wgpu sets to 256.
#[verifier::external_body]
fn copy_row_alignment() -> (r: u32)
    ensures
        r == 256,
{
    wgpu::COPY_BYTES_PER_ROW_ALIGNMENT
}

/// `bytes` rounded up to a multiple of 256.
pub open spec fn padded_row(bytes: int) -> int {
    ((bytes + 255) / 256) * 256
}

/// The bytes from row to row of a buffer.
pub open spec fn buffer_pitch(width: u32, format: TextureFormat) -> int {
    padded_row(width * format.pixel_bytes())
}

/// Rounding up to a multiple of 256, by quotient and remainder.
proof fn lemma_padded_row(bytes: int)
    requires
        bytes >= 0,
    ensures
        padded_row(bytes) == if bytes % 256 > 0 {
            (bytes / 256 + 1) * 256
        } else {
            (bytes / 256) * 256
        },
        bytes <= padded_row(bytes) <= bytes + 255,
        padded_row(bytes) % 256 == 0,
{
}

/// Computes the bytes from row to row of a buffer: the bytes of a row, rounded up so
/// that rows can be copied.
pub fn aligned_buffer_pitch(width: u32, format: TextureFormat) -> (r: usize)
    requires
        buffer_pitch(width, format) <= usize::MAX,
    ensures
        r == buffer_pitch(width, format),
{
    proof {
        lemma_padded_row(width * format.pixel_bytes());
        assert(width * format.pixel_bytes() >= 0);
    }
    let alignment = copy_row_alignment() as usize;
    let row_bytes = width as usize * format_bytes_per_pixel(format);
    let rows: usize = if row_bytes % alignment > 0 {
        row_bytes / alignment + 1
    } else {
        row_bytes / alignment
    };
    rows * alignment
}

/// Rows of a buffer hold all pixels, start where copies need them to, and waste less
/// than one step of the alignment.
pub proof fn law_buffer_rows_can_be_copied(width: u32, format: TextureFormat)
    ensures
        buffer_pitch(width, format) % 256 == 0,
        width * format.pixel_bytes() <= buffer_pitch(width, format) < width * format.pixel_bytes()
            + 256,
{
    lemma_padded_row(width * format.pixel_bytes());
}

/// The size of a buffer or an image whose rows are padded.
pub open spec fn shared_size(width: u32, height: u32, format: TextureFormat) -> int {
    buffer_pitch(width, format) * height
}

/// The bytes from row to row, and the bytes in all.
#[derive(Clone, Copy, Debug, PartialEq, Eq, Structural)]
pub struct SharedLayout {
    pub pitch: usize,
    pub size: usize,
}

impl SharedLayout {
    /// Lays out memory for that many pixels, for a buffer or for the first
    /// allocation of an image.
    pub fn new(width: u32, height: u32, format: TextureFormat) -> (r: SharedLayout)
        requires
            buffer_pitch(width, format) <= usize::MAX,
            shared_size(width, height, format) <= usize::MAX,
        ensures
            r.pitch == buffer_pitch(width, format),
            r.size == shared_size(width, height, format),
    {
        let pitch = aligned_buffer_pitch(width, format);
        SharedLayout { pitch, size: pitch * height as usize }
    }

    /// Whether memory for that many pixels can be addressed.
    pub fn can_be_addressed(width: u32, height: u32, format: TextureFormat) -> (r: bool)
        ensures
            r == (buffer_pitch(width, format) <= usize::MAX && shared_size(width, height, format)
                <= usize::MAX),
    {
        let bpp: u64 = format_bytes_per_pixel(format) as u64;
        proof {
            assert(0 <= width * bpp <= 0xffff_ffff * 4) by (nonlinear_arith)
                requires
                    0 <= width <= 0xffff_ffff,
                    0 <= bpp <= 4,
            ;
        }
        let row_bytes: u64 = width as u64 * bpp;
        proof {
            lemma_padded_row(row_bytes as int);
        }
        let pitch: u64 = (row_bytes + 255) / 256 * 256;
        proof {
            assert(0 <= pitch * height <= 0x5_0000_0000 * 0xffff_ffff) by (nonlinear_arith)
                requires
                    0 <= pitch <= 0x5_0000_0000,
                    0 <= height <= 0xffff_ffff,
            ;
        }
        let size: u128 = pitch as u128 * height as u128;
        pitch as u128 <= usize::MAX as u128 && size <= usize::MAX as u128
    }
}

/// How the pixels of a stream are stored.
#[derive(Clone, Copy, Debug, PartialEq, Eq, Structural)]
pub enum GpuPixelFormat {
    /// Eight bits.
    Nv12,
    /// Ten bits in sixteen.
    P010,
}

/// One of the two planes of an image.
#[derive(Clone, Copy, Debug, PartialEq, Eq, Structural)]
pub enum Nv12Plane {
    /// Luma, at full resolution.
    Y,
    /// Chroma, at half the resolution in both directions.
    Uv,
}

impl GpuPixelFormat {
    /// The format of a plane.
    pub open spec fn plane_format(self, plane: Nv12Plane) -> TextureFormat {
        match (self, plane) {
            (GpuPixelFormat::Nv12, Nv12Plane::Y) => TextureFormat::R8Unorm,
            (GpuPixelFormat::Nv12, Nv12Plane::Uv) => TextureFormat::Rg8Unorm,
            (GpuPixelFormat::P010, Nv12Plane::Y) => TextureFormat::R16Unorm,
            (GpuPixelFormat::P010, Nv12Plane::Uv) => TextureFormat::Rg16Unorm,
        }
    }

    /// The format of the luma plane.
    pub fn y_format(self) -> (r: TextureFormat)
        ensures
            r == self.plane_format(Nv12Plane::Y),
    {
        match self {
            GpuPixelFormat::Nv12 => TextureFormat::R8Unorm,
            GpuPixelFormat::P010 => TextureFormat::R16Unorm,
        }
    }

    /// The format of the chroma plane.
    pub fn uv_format(self) -> (r: TextureFormat)
        ensures
            r == self.plane_format(Nv12Plane::Uv),
    {
        match self {
            GpuPixelFormat::Nv12 => TextureFormat::Rg8Unorm,
            GpuPixelFormat::P010 => TextureFormat::Rg16Unorm,
        }
    }
}

/// The size and the format of a plane.
#[derive(Clone, Copy, Debug, PartialEq, Eq, Structural)]
pub struct PlaneShape {
    pub width: u32,
    pub height: u32,
    pub format: TextureFormat,
}

/// The size and the format of a plane of an image.
pub open spec fn plane_shape(
    width: u32,
    height: u32,
    plane: Nv12Plane,
    pixel_format: GpuPixelFormat,
) -> PlaneShape {
    PlaneShape {
        width: if plane == Nv12Plane::Y {
            width
        } else {
            (width / 2) as u32
        },
        height: if plane == Nv12Plane::Y {
            height
        } else {
            (height / 2) as u32
        },
        format: pixel_format.plane_format(plane),
    }
}

impl Nv12Plane {
    /// The size and the format of the plane of an image.
    pub fn shape(self, width: u32, height: u32, pixel_format: GpuPixelFormat) -> (r: PlaneShape)
        ensures
            r == plane_shape(width, height, self, pixel_format),
    {
        match self {
            Nv12Plane::Y => PlaneShape { width, height, format: pixel_format.y_format() },
            Nv12Plane::Uv => PlaneShape {
                width: width / 2,
                height: height / 2,
                format: pixel_format.uv_format(),
            },
        }
    }
}

/// Both planes of an image of even width have rows of the same length.
pub proof fn law_planes_share_their_pitch(
    width: u32,
    height: u32,
    pixel_format: GpuPixelFormat,
)
    requires
        width % 2 == 0,
    ensures
        ({
            let y = plane_shape(width, height, Nv12Plane::Y, pixel_format);
            let uv = plane_shape(width, height, Nv12Plane::Uv, pixel_format);
            buffer_pitch(y.width, y.format) == buffer_pitch(uv.width, uv.format)
        }),
{
}

/// The property of memory that lies on the device.
pub const DEVICE_LOCAL: u32 = 1;

/// A memory type is allowed, and has the property.
pub open spec fn type_suits(type_bits: u32, flags: Seq<u32>, required: u32, i: int) -> bool {
    &&& 0 <= i < 32
    &&& type_bits & (1u32 << (i as u32)) != 0
    &&& flags[i] & required == required
}

/// The first memory type that is allowed and has the property.
pub open spec fn first_type(type_bits: u32, flags: Seq<u32>, required: u32) -> Option<int>
    decreases flags.len(),
{
    if flags.len() == 0 {
        None
    } else {
        match first_type(type_bits, flags.drop_last(), required) {
            Some(i) => Some(i),
            None => if type_suits(type_bits, flags, required, flags.len() - 1) {
                Some(flags.len() - 1)
            } else {
                None
            },
        }
    }
}

/// The memory type to import into: the first that is allowed and lies on the device,
/// or else the first that is allowed.
pub open spec fn import_type(type_bits: u32, flags: Seq<u32>) -> Option<int> {
    match first_type(type_bits, flags, DEVICE_LOCAL) {
        Some(i) => Some(i),
        None => first_type(type_bits, flags, 0),
    }
}

proof fn lemma_first_type_prefix(type_bits: u32, flags: Seq<u32>, required: u32, n: int)
    requires
        0 <= n <= flags.len(),
        first_type(type_bits, flags.take(n), required) is Some,
    ensures
        first_type(type_bits, flags, required) == first_type(type_bits, flags.take(n), required),
    decreases flags.len() - n,
{
    if n < flags.len() {
        assert(flags.take(n + 1).drop_last() =~= flags.take(n));
        lemma_first_type_prefix(type_bits, flags, required, n + 1);
    } else {
        assert(flags.take(n) =~= flags);
    }
}

fn find_type(type_bits: u32, flags: &[u32], required: u32) -> (r: Option<u32>)
    requires
        flags@.len() <= 32,
    ensures
        match r {
            Some(i) => first_type(type_bits, flags@, required) == Some(i as int),
            None => first_type(type_bits, flags@, required) is None,
        },
{
    let mut i: u32 = 0;
    while (i as usize) < flags.len()
        invariant
            i <= flags@.len() <= 32,
            first_type(type_bits, flags@.take(i as int), required) is None,
        decreases flags@.len() - i,
    {
        proof {
            assert(flags@.take(i + 1).drop_last() =~= flags@.take(i as int));
            assert(flags@.take(i + 1)[i as int] == flags@[i as int]);
        }
        if type_bits & (1u32 << i) != 0 && flags[i as usize] & required == required {
            proof {
                lemma_first_type_prefix(type_bits, flags@, required, i + 1);
            }
            return Some(i);
        }
        i = i + 1;
    }
    proof {
        assert(flags@.take(i as int) =~= flags@);
    }
    None
}

/// Picks the memory type to import into, from the properties of all types.
pub fn pick_memory_type(type_bits: u32, flags: &[u32]) -> (r: Option<u32>)
    requires
        flags@.len() <= 32,
    ensures
        match r {
            Some(i) => import_type(type_bits, flags@) == Some(i as int),
            None => import_type(type_bits, flags@) is None,
        },
{
    match find_type(type_bits, flags, DEVICE_LOCAL) {
        Some(i) => Some(i),
        None => find_type(type_bits, flags, 0),
    }
}

proof fn lemma_first_type(type_bits: u32, flags: Seq<u32>, required: u32)
    ensures
        first_type(type_bits, flags, required) matches Some(i) ==> {
            &&& 0 <= i < flags.len()
            &&& type_suits(type_bits, flags, required, i)
        },
        first_type(type_bits, flags, required) is None ==> forall|i: int|
            0 <= i < flags.len() ==> !#[trigger] type_suits(type_bits, flags, required, i),
    decreases flags.len(),
{
    if flags.len() > 0 {
        let init = flags.drop_last();
        lemma_first_type(type_bits, init, required);
        if first_type(type_bits, flags, required) is None {
            assert forall|i: int| 0 <= i < flags.len() implies !#[trigger] type_suits(
                type_bits,
                flags,
                required,
                i,
            ) by {
                if i < init.len() {
                    assert(!type_suits(type_bits, init, required, i));
                }
            }
        }
    }
}

/// The memory type that is picked is allowed, and it lies on the device wherever an
/// allowed one does; none is picked only where none is allowed.
pub proof fn law_picked_memory_is_allowed(type_bits: u32, flags: Seq<u32>)
    ensures
        import_type(type_bits, flags) matches Some(i) ==> {
            &&& 0 <= i < flags.len()
            &&& type_bits & (1u32 << (i as u32)) != 0
        },
        forall|k: int|
            0 <= k < flags.len() && #[trigger] type_suits(type_bits, flags, DEVICE_LOCAL, k) ==> (
            import_type(type_bits, flags) matches Some(i) && type_suits(
                type_bits,
                flags,
                DEVICE_LOCAL,
                i,
            )),
        forall|k: int|
            0 <= k < flags.len() && #[trigger] type_suits(type_bits, flags, 0, k) ==> import_type(
                type_bits,
                flags,
            ) is Some,
{
    lemma_first_type(type_bits, flags, DEVICE_LOCAL);
    lemma_first_type(type_bits, flags, 0);
}

/// The planes of an image: luma has one channel at full size, chroma two at half the
/// size in both directions, and a channel has as many bytes as a sample of the stream.
pub proof fn law_planes_have_their_channels(
    width: u32,
    height: u32,
    pixel_format: GpuPixelFormat,
)
    ensures
        ({
            let y = plane_shape(width, height, Nv12Plane::Y, pixel_format);
            let uv = plane_shape(width, height, Nv12Plane::Uv, pixel_format);
            let bytes = if pixel_format == GpuPixelFormat::P010 {
                2int
            } else {
                1
            };
            &&& y.width == width && y.height == height
            &&& 2 * uv.width <= width < 2 * uv.width + 2
            &&& 2 * uv.height <= height < 2 * uv.height + 2
            &&& y.format.pixel_bytes() == bytes
            &&& uv.format.pixel_bytes() == 2 * bytes
            &&& y.format != uv.format
        }),
{
}

/// Formats that differ have different numbers.
pub proof fn law_formats_are_told_apart(a: TextureFormat, b: TextureFormat)
    ensures
        a.vk_number() == b.vk_number() ==> a == b,
        1 <= a.pixel_bytes() <= 4,
{
}

/// Memory whose rows are padded holds every row of every image, and one more row needs
/// one more pitch.
pub proof fn law_memory_holds_every_row(width: u32, height: u32, format: TextureFormat)
    requires
        height < u32::MAX,
    ensures
        shared_size(width, 0, format) == 0,
        shared_size(width, (height + 1) as u32, format) - shared_size(width, height, format)
            == buffer_pitch(width, format),
        shared_size(width, height, format) >= height * (width * format.pixel_bytes()),
{
    let p = buffer_pitch(width, format);
    let h = height as int;
    let row = width * format.pixel_bytes();
    law_buffer_rows_can_be_copied(width, format);
    assert(p * 0 == 0 && p * (h + 1) - p * h == p && p * h >= h * row) by (nonlinear_arith)
        requires
            p >= row,
            h >= 0,
    ;
}

/// The memory type that is picked is the first that is allowed and lies on the device,
/// if any is both; otherwise the first that is allowed.
pub proof fn law_picked_memory_comes_first(type_bits: u32, flags: Seq<u32>, k: int)
    requires
        0 <= k < flags.len(),
        k < 32,
        type_bits & (1u32 << (k as u32)) != 0,
    ensures
        import_type(type_bits, flags) matches Some(i) && {
            &&& 0 <= i < flags.len() && i < 32
            &&& type_bits & (1u32 << (i as u32)) != 0
            &&& flags[k] & 1 == 1 ==> flags[i] & 1 == 1 && i <= k
            &&& flags[i] & 1 != 1 ==> flags[k] & 1 != 1 && i <= k
        },
{
    lemma_first_type(type_bits, flags, DEVICE_LOCAL);
    lemma_first_type(type_bits, flags, 0);
    let x = flags[k];
    assert(x & 0 == 0) by (bit_vector);
    assert(type_suits(type_bits, flags, 0, k));
    lemma_first_is_least(type_bits, flags, 0, k);
    let i = import_type(type_bits, flags)->0;
    if flags[k] & 1 == 1 {
        assert(type_suits(type_bits, flags, DEVICE_LOCAL, k));
        lemma_first_is_least(type_bits, flags, DEVICE_LOCAL, k);
    }
    if first_type(type_bits, flags, DEVICE_LOCAL) is None && flags[i] & 1 == 1 {
        assert(type_suits(type_bits, flags, DEVICE_LOCAL, i));
    }
}

proof fn lemma_first_is_least(type_bits: u32, flags: Seq<u32>, required: u32, k: int)
    requires
        0 <= k < flags.len(),
        type_suits(type_bits, flags, required, k),
    ensures
        first_type(type_bits, flags, required) matches Some(i) && i <= k,
    decreases flags.len(),
{
    let init = flags.drop_last();
    lemma_first_type(type_bits, init, required);
    if k < init.len() {
        assert(type_suits(type_bits, init, required, k));
        lemma_first_is_least(type_bits, init, required, k);
    }
}

} // verus!
