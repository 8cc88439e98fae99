//! What the cylindrical renderer hands to its shader.

use crate::binary::double::Double;
use crate::binary::single::Single;
use vstd::prelude::*;

verus! {

/// One half.
pub const HALF: u32 = 0x3f00_0000;

/// How the panorama is laid out.
#[derive(Clone, Copy, Debug, PartialEq, Eq, Structural)]
pub struct CylindricalStereoProjectionConfig {
    pub yaw_span_rad: Single,
    pub yaw_center_rad: Single,
    pub vertical_fov_rad: Single,
    pub blend_width: Single,
}

/// How the pixels of a camera come in.
#[derive(Clone, Copy, Debug, PartialEq, Eq, Structural)]
pub enum InputFormat {
    Yuv420p,
    Nv12,
    Bgra,
}

impl InputFormat {
    /// The number that the shader knows the format by.
    pub open spec fn number(self) -> u32 {
        match self {
            InputFormat::Yuv420p => 0,
            InputFormat::Nv12 => 1,
            InputFormat::Bgra => 2,
        }
    }
}

/// A calibrated camera.
#[derive(Clone, Copy, Debug, PartialEq, Eq)]
pub struct CameraParams {
    pub width: u32,
    pub height: u32,
    pub fx: Double,
    pub fy: Double,
    pub cx: Double,
    pub cy: Double,
    pub d: [Double; 4],
}

/// What the shader is told of one camera.
#[derive(Clone, Copy, Debug, PartialEq, Eq)]
pub struct CameraUniforms {
    /// The inverse of the camera plane's transform, column by column.
    pub inv_model: [[Single; 4]; 4],
    pub intrinsics: [Single; 4],
    pub dist: [Single; 4],
    pub color_scale: [Single; 4],
    /// Three offsets, and the plane's aspect ratio.
    pub color_offset: [Single; 4],
    pub flags: [u32; 4],
}

/// All that the shader is told.
#[derive(Clone, Copy, Debug, PartialEq, Eq)]
pub struct Uniforms {
    pub left: CameraUniforms,
    pub right: CameraUniforms,
    pub camera_position: [Single; 4],
    pub projection: [Single; 4],
}

/// Sixteen numbers as four columns.
pub open spec fn is_columns(s: Seq<Single>, columns: [[Single; 4]; 4]) -> bool {
    forall|i: int, j: int|
        0 <= i < 4 && 0 <= j < 4 ==> #[trigger] columns@[i]@[j] == s[4 * i + j]
}

/// Splits a matrix, which is stored column by column, into its columns.
pub fn matrix_columns(s: &[Single; 16]) -> (r: [[Single; 4]; 4])
    ensures
        is_columns(s@, r),
{
    [
        [s[0], s[1], s[2], s[3]],
        [s[4], s[5], s[6], s[7]],
        [s[8], s[9], s[10], s[11]],
        [s[12], s[13], s[14], s[15]],
    ]
}

/// A length in pixels as a share of a side.
pub open spec fn share_of_side(length: Double, side: u32) -> Single {
    Single::narrowed(length).over(Single::natural(side as nat))
}

impl CameraUniforms {
    /// What the shader is told of a camera.
    pub open spec fn tells(
        self,
        inv: Seq<Single>,
        c: CameraParams,
        aspect: Single,
        format: InputFormat,
        flip: bool,
        full: bool,
    ) -> bool {
        let zero = Single::natural(0);
        let one = Single::natural(1);
        &&& is_columns(inv, self.inv_model)
        &&& self.intrinsics@ == seq![
            share_of_side(c.fx, c.width),
            share_of_side(c.fy, c.height),
            share_of_side(c.cx, c.width),
            share_of_side(c.cy, c.height),
        ]
        &&& self.dist@ == c.d@.map_values(|v: Double| Single::narrowed(v))
        &&& self.color_scale@ == seq![one, one, one, zero]
        &&& self.color_offset@ == seq![zero, zero, zero, aspect]
        &&& self.flags@ == seq![
            0u32,
            format.number(),
            if flip {
                1u32
            } else {
                0u32
            },
            if full {
                1u32
            } else {
                0u32
            },
        ]
    }
}

/// Gathers what the shader is told of a camera.
pub fn camera_uniforms(
    inv: &[Single; 16],
    c: &CameraParams,
    aspect: Single,
    format: InputFormat,
    flip: bool,
    full: bool,
) -> (r: CameraUniforms)
    ensures
        r.tells(inv@, *c, aspect, format, flip, full),
{
    let w = Single::from_u64(c.width as u64);
    let h = Single::from_u64(c.height as u64);
    let zero = Single::from_u64(0);
    let one = Single::from_u64(1);
    let kind: u32 = match format {
        InputFormat::Yuv420p => 0,
        InputFormat::Nv12 => 1,
        InputFormat::Bgra => 2,
    };
    let flipped: u32 = if flip {
        1
    } else {
        0
    };
    let ranged: u32 = if full {
        1
    } else {
        0
    };
    let r = CameraUniforms {
        inv_model: matrix_columns(inv),
        intrinsics: [
            Single::from_double(c.fx).over(w),
            Single::from_double(c.fy).over(h),
            Single::from_double(c.cx).over(w),
            Single::from_double(c.cy).over(h),
        ],
        dist: [
            Single::from_double(c.d[0]),
            Single::from_double(c.d[1]),
            Single::from_double(c.d[2]),
            Single::from_double(c.d[3]),
        ],
        color_scale: [one, one, one, zero],
        color_offset: [zero, zero, zero, aspect],
        flags: [0, kind, flipped, ranged],
    };
    proof {
        assert(r.intrinsics@ =~= seq![
            share_of_side(c.fx, c.width),
            share_of_side(c.fy, c.height),
            share_of_side(c.cx, c.width),
            share_of_side(c.cy, c.height),
        ]);
        assert(r.dist@ =~= c.d@.map_values(|v: Double| Single::narrowed(v)));
        assert(r.color_scale@ =~= seq![one, one, one, zero]);
        assert(r.color_offset@ =~= seq![zero, zero, zero, aspect]);
        assert(r.flags@ =~= seq![0u32, kind, flipped, ranged]);
    }
    r
}

/// The bits of single-precision numbers.
pub open spec fn bits_of(s: Seq<Single>) -> Seq<u32> {
    s.map_values(|x: Single| x.bits)
}

impl CameraUniforms {
    /// The words of the camera's part, in the order of its fields.
    pub open spec fn words(self) -> Seq<u32> {
        bits_of(self.inv_model@[0]@) + bits_of(self.inv_model@[1]@) + bits_of(
            self.inv_model@[2]@,
        ) + bits_of(self.inv_model@[3]@) + bits_of(self.intrinsics@) + bits_of(self.dist@)
            + bits_of(self.color_scale@) + bits_of(self.color_offset@) + self.flags@
    }

    fn push_words(&self, words: &mut Vec<u32>)
        ensures
            final(words)@ == old(words)@ + self.words(),
    {
        push_bits(&self.inv_model[0], words);
        push_bits(&self.inv_model[1], words);
        push_bits(&self.inv_model[2], words);
        push_bits(&self.inv_model[3], words);
        push_bits(&self.intrinsics, words);
        push_bits(&self.dist, words);
        push_bits(&self.color_scale, words);
        push_bits(&self.color_offset, words);
        let mut i: usize = 0;
        let ghost before = words@;
        while i < 4
            invariant
                i <= 4,
                words@ =~= before + self.flags@.take(i as int),
            decreases 4 - i,
        {
            words.push(self.flags[i]);
            i = i + 1;
        }
        proof {
            assert(self.flags@.take(4) =~= self.flags@);
            assert(words@ =~= old(words)@ + self.words());
        }
    }
}

fn push_bits(numbers: &[Single; 4], words: &mut Vec<u32>)
    ensures
        final(words)@ == old(words)@ + bits_of(numbers@),
{
    let ghost before = words@;
    let mut i: usize = 0;
    while i < 4
        invariant
            i <= 4,
            words@ =~= before + bits_of(numbers@).take(i as int),
        decreases 4 - i,
    {
        words.push(numbers[i].to_bits());
        i = i + 1;
    }
    proof {
        assert(bits_of(numbers@).take(4) =~= bits_of(numbers@));
    }
}

impl Uniforms {
    /// The words of the uniform block, in the order of its fields.
    pub open spec fn words(self) -> Seq<u32> {
        self.left.words() + self.right.words() + bits_of(self.camera_position@) + bits_of(
            self.projection@,
        )
    }

    /// The words of the uniform block.
    pub fn to_words(&self) -> (r: Vec<u32>)
        ensures
            r@ == self.words(),
    {
        let mut words: Vec<u32> = Vec::new();
        self.left.push_words(&mut words);
        self.right.push_words(&mut words);
        push_bits(&self.camera_position, &mut words);
        push_bits(&self.projection, &mut words);
        assert(words@ =~= self.words());
        words
    }

    /// The bytes of the uniform block, as the device reads them.
    pub fn to_bytes(&self) -> (r: Vec<u8>)
        ensures
            in_machine_order(self.words(), r@),
            r@.len() == UNIFORM_BYTES,
    {
        proof {
            law_uniform_block_is_full(*self);
        }
        words_as_bytes(self.to_words().as_slice())
    }
}

/// The size of the uniform block.
pub const UNIFORM_BYTES: usize = 320;

/// The uniform block has no gaps: two cameras of nine groups of four words, and two
/// groups besides.
pub proof fn law_uniform_block_is_full(u: Uniforms)
    ensures
        u.left.words().len() == 36,
        u.right.words().len() == 36,
        u.words().len() * 4 == UNIFORM_BYTES,
{
}

/// The byte of a word at a place, counted from the lowest.
pub open spec fn byte_of(word: u32, i: int) -> u8 {
    if i == 0 {
        (word % 0x100) as u8
    } else if i == 1 {
        (word / 0x100 % 0x100) as u8
    } else if i == 2 {
        (word / 0x1_0000 % 0x100) as u8
    } else {
        (word / 0x100_0000) as u8
    }
}

/// The bytes are those of the words, in the machine's order: the lowest first in all
/// of them, or the highest first in all.
pub open spec fn in_machine_order(words: Seq<u32>, bytes: Seq<u8>) -> bool {
    &&& bytes.len() == 4 * words.len()
    &&& {
        ||| forall|k: int, i: int|
            0 <= k < words.len() && 0 <= i < 4 ==> bytes[4 * k + i] == #[trigger] byte_of(
                words[k],
                i,
            )
        ||| forall|k: int, i: int|
            0 <= k < words.len() && 0 <= i < 4 ==> bytes[4 * k + (3 - i)] == #[trigger] byte_of(
                words[k],
                i,
            )
    }
}

/// `bytemuck::cast_slice`: a slice of words seen as the bytes in which they are
/// stored, four for each word, lowest first or highest first as the machine stores
/// them. It cannot fail for bytes, which have neither alignment nor a size to fit.
#[verifier::external_body]
fn words_as_bytes(words: &[u32]) -> (r: Vec<u8>)
    ensures
        in_machine_order(words@, r@),
{
    bytemuck::cast_slice::<u32, u8>(words).to_vec()
}

/// What the scene tells the renderer.
#[derive(Clone, Copy, Debug, PartialEq, Eq)]
pub struct SceneView {
    pub camera_position: [Single; 3],
    pub plane_aspect: Single,
    /// The inverses of the two planes' transforms, column by column.
    pub left_inverse: [Single; 16],
    pub right_inverse: [Single; 16],
}

/// The settings of the renderer.
#[derive(Clone, Copy, Debug, PartialEq, Eq)]
pub struct CylindricalRenderer {
    pub config: CylindricalStereoProjectionConfig,
    pub input_format: InputFormat,
    pub flip_180: [bool; 2],
    pub is_full_range: bool,
}

/// `r` is the tangent of half the vertical field of view, given what tangents are
/// taken to be.
pub open spec fn half_tangent<T: Fn(Single) -> Single>(
    tan: T,
    c: CylindricalStereoProjectionConfig,
    r: Single,
) -> bool {
    tan.ensures((c.vertical_fov_rad.times(Single { bits: HALF }),), r)
}

impl CylindricalRenderer {
    /// A renderer for upright cameras of limited range.
    pub fn new(input_format: InputFormat, config: CylindricalStereoProjectionConfig) -> (r:
        CylindricalRenderer)
        ensures
            r.config == config,
            r.input_format == input_format,
            r.flip_180@ == seq![false, false],
            !r.is_full_range,
    {
        let r = CylindricalRenderer {
            config,
            input_format,
            flip_180: [false, false],
            is_full_range: false,
        };
        assert(r.flip_180@ =~= seq![false, false]);
        r
    }

    /// Says which cameras stand on their heads.
    pub fn set_flip_180(&mut self, left: bool, right: bool)
        ensures
            final(self).config == old(self).config,
            final(self).input_format == old(self).input_format,
            final(self).flip_180@ == seq![left, right],
            final(self).is_full_range == old(self).is_full_range,
    {
        self.flip_180 = [left, right];
        assert(self.flip_180@ =~= seq![left, right]);
    }

    /// Says whether samples use the full range.
    pub fn set_full_range(&mut self, value: bool)
        ensures
            *final(self) == (CylindricalRenderer { is_full_range: value, ..*old(self) }),
    {
        self.is_full_range = value;
    }

    /// What the shader is told, given what the tangent of half the field of view is
    /// taken to be.
    pub open spec fn told<T: Fn(Single) -> Single>(
        self,
        scene: SceneView,
        left: CameraParams,
        right: CameraParams,
        tan: T,
        u: Uniforms,
    ) -> bool {
        &&& u.left.tells(
            scene.left_inverse@,
            left,
            scene.plane_aspect,
            self.input_format,
            self.flip_180@[0],
            self.is_full_range,
        )
        &&& u.right.tells(
            scene.right_inverse@,
            right,
            scene.plane_aspect,
            self.input_format,
            self.flip_180@[1],
            self.is_full_range,
        )
        &&& u.camera_position@ == scene.camera_position@.push(Single::natural(0))
        &&& u.projection@[0] == self.config.yaw_span_rad
        &&& u.projection@[1] == self.config.yaw_center_rad
        &&& half_tangent(tan, self.config, u.projection@[2])
        &&& u.projection@[3] == self.config.blend_width
    }

    /// Gathers what the shader is told for one frame.
    pub fn uniforms<T: Fn(Single) -> Single>(
        &self,
        scene: &SceneView,
        left: &CameraParams,
        right: &CameraParams,
        tan: &T,
    ) -> (r: Uniforms)
        requires
            forall|x: Single| tan.requires((x,)),
        ensures
            self.told(*scene, *left, *right, *tan, r),
    {
        let r = Uniforms {
            left: camera_uniforms(
                &scene.left_inverse,
                left,
                scene.plane_aspect,
                self.input_format,
                self.flip_180[0],
                self.is_full_range,
            ),
            right: camera_uniforms(
                &scene.right_inverse,
                right,
                scene.plane_aspect,
                self.input_format,
                self.flip_180[1],
                self.is_full_range,
            ),
            camera_position: [
                scene.camera_position[0],
                scene.camera_position[1],
                scene.camera_position[2],
                Single::from_u64(0),
            ],
            projection: [
                self.config.yaw_span_rad,
                self.config.yaw_center_rad,
                tan(self.config.vertical_fov_rad.times(Single::from_bits(HALF))),
                self.config.blend_width,
            ],
        };
        assert(r.camera_position@ =~= scene.camera_position@.push(Single::natural(0)));
        r
    }
}

/// The yaw of a column of the output.
pub open spec fn column_yaw(u: Single, c: CylindricalStereoProjectionConfig) -> Single {
    c.yaw_center_rad.plus(u.minus(Single { bits: HALF }).times(c.yaw_span_rad))
}

/// The height on the cylinder of a row of the output, given the tangent of half the
/// field of view.
pub open spec fn row_height(v: Single, half_tan: Single) -> Single {
    let half = Single { bits: HALF };
    half.minus(v).times(Single::natural(2)).times(half_tan)
}

/// `r` is the yaw and the pitch of the place `uv` in the output.
pub open spec fn directed<T: Fn(Single) -> Single, A: Fn(Single) -> Single>(
    uv: [Single; 2],
    c: CylindricalStereoProjectionConfig,
    tan: T,
    atan: A,
    r: [Single; 2],
) -> bool {
    &&& r@[0] == column_yaw(uv@[0], c)
    &&& exists|half_tan: Single|
        #![trigger half_tangent(tan, c, half_tan)]
        half_tangent(tan, c, half_tan) && atan.ensures((row_height(uv@[1], half_tan),), r@[1])
}

/// Converts a place in the output to yaw and pitch.
pub fn output_uv_to_yaw_pitch<T: Fn(Single) -> Single, A: Fn(Single) -> Single>(
    uv: [Single; 2],
    c: CylindricalStereoProjectionConfig,
    tan: &T,
    atan: &A,
) -> (r: [Single; 2])
    requires
        forall|x: Single| tan.requires((x,)),
        forall|x: Single| atan.requires((x,)),
    ensures
        directed(uv, c, *tan, *atan, r),
{
    let half = Single::from_bits(HALF);
    let half_tan = tan(c.vertical_fov_rad.times(half));
    assert(half_tangent(*tan, c, half_tan));
    [
        c.yaw_center_rad.plus(uv[0].minus(half).times(c.yaw_span_rad)),
        atan(half.minus(uv[1]).times(Single::from_u64(2)).times(half_tan)),
    ]
}

/// The column of the output for a yaw.
pub open spec fn yaw_column(yaw: Single, c: CylindricalStereoProjectionConfig) -> Single {
    let half = Single { bits: HALF };
    half.plus(yaw.minus(c.yaw_center_rad).over(c.yaw_span_rad))
}

/// The row of the output for a height on the cylinder, given the tangent of half the
/// field of view.
pub open spec fn height_row(height: Single, half_tan: Single) -> Single {
    let half = Single { bits: HALF };
    half.minus(height.over(Single::natural(2).times(half_tan)))
}

/// `r` is the place in the output of the yaw and the pitch `v`.
pub open spec fn placed<T: Fn(Single) -> Single>(
    v: [Single; 2],
    c: CylindricalStereoProjectionConfig,
    tan: T,
    r: [Single; 2],
) -> bool {
    &&& r@[0] == yaw_column(v@[0], c)
    &&& exists|height: Single, half_tan: Single|
        #![trigger tan.ensures((v@[1],), height), half_tangent(tan, c, half_tan)]
        tan.ensures((v@[1],), height) && half_tangent(tan, c, half_tan) && r@[1] == height_row(
            height,
            half_tan,
        )
}

/// Converts yaw and pitch to a place in the output.
pub fn yaw_pitch_to_output_uv<T: Fn(Single) -> Single>(
    v: [Single; 2],
    c: CylindricalStereoProjectionConfig,
    tan: &T,
) -> (r: [Single; 2])
    requires
        forall|x: Single| tan.requires((x,)),
    ensures
        placed(v, c, *tan, r),
{
    let half = Single::from_bits(HALF);
    let height = tan(v[1]);
    let half_tan = tan(c.vertical_fov_rad.times(half));
    assert(half_tangent(*tan, c, half_tan));
    [
        half.plus(v[0].minus(c.yaw_center_rad).over(c.yaw_span_rad)),
        half.minus(height.over(Single::from_u64(2).times(half_tan))),
    ]
}

} // verus!
