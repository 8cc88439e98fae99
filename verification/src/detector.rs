//! What detectors take and how they fail.

use crate::text::joined;
use vstd::prelude::*;

verus! {

/// Why a detector has no answer.
#[derive(Debug, PartialEq, Eq)]
pub enum DetectorError {
    /// An inference, or a step that it needs, failed.
    InferenceFailed(String),
    /// The frame is not of a kind that the detector takes.
    UnsupportedFrameKind,
}

/// A failure as mathematical values.
pub enum ErrorModel {
    Inference(Seq<char>),
    Unsupported,
}

impl View for DetectorError {
    type V = ErrorModel;

    open spec fn view(&self) -> ErrorModel {
        match self {
            DetectorError::InferenceFailed(m) => ErrorModel::Inference(m@),
            DetectorError::UnsupportedFrameKind => ErrorModel::Unsupported,
        }
    }
}

impl Clone for DetectorError {
    fn clone(&self) -> (r: DetectorError)
        ensures
            r@ == self@,
    {
        match self {
            DetectorError::InferenceFailed(m) => DetectorError::InferenceFailed(m.clone()),
            DetectorError::UnsupportedFrameKind => DetectorError::UnsupportedFrameKind,
        }
    }
}

impl DetectorError {
    /// A failed inference with that text.
    pub open spec fn says(self, text: Seq<char>) -> bool {
        self@ == ErrorModel::Inference(text)
    }
}

/// The steps of an inference that run on the device.
#[derive(Clone, Copy, Debug, PartialEq, Eq, Structural)]
pub enum DeviceStage {
    Context,
    LumaConversion,
    ChromaConversion,
    ColourConversion,
    TensorWrap,
    Run,
    Extract,
}

impl DeviceStage {
    /// How a failure of the stage is introduced.
    pub open spec fn label(self) -> Seq<char> {
        match self {
            DeviceStage::Context => "cuda_ensure_context: "@,
            DeviceStage::LumaConversion => "P010->NV12 Y conversion: "@,
            DeviceStage::ChromaConversion => "P010->NV12 UV conversion: "@,
            DeviceStage::ColourConversion => "NV12->RGB CHW: "@,
            DeviceStage::TensorWrap => "GPU tensor wrap: "@,
            DeviceStage::Run => "ort run: "@,
            DeviceStage::Extract => "output extract: "@,
        }
    }

    /// The error for a failure of the stage.
    pub fn failure(self, reason: &str) -> (r: DetectorError)
        ensures
            r.says(self.label() + reason@),
    {
        let label = match self {
            DeviceStage::Context => "cuda_ensure_context: ",
            DeviceStage::LumaConversion => "P010->NV12 Y conversion: ",
            DeviceStage::ChromaConversion => "P010->NV12 UV conversion: ",
            DeviceStage::ColourConversion => "NV12->RGB CHW: ",
            DeviceStage::TensorWrap => "GPU tensor wrap: ",
            DeviceStage::Run => "ort run: ",
            DeviceStage::Extract => "output extract: ",
        };
        DetectorError::InferenceFailed(joined(label, reason))
    }
}

/// An image in device memory: a plane of luma and one of interleaved chroma.
#[derive(Clone, Copy, Debug, PartialEq, Eq, Structural)]
pub struct GpuNv12Frame {
    pub y_ptr: u64,
    pub y_pitch: usize,
    pub uv_ptr: u64,
    pub uv_pitch: usize,
    pub width: u32,
    pub height: u32,
    /// In degrees.
    pub rotation: i32,
    pub is_10bit: bool,
}

/// An image to run a detector on.
#[derive(Clone, Copy, Debug, PartialEq, Eq, Structural)]
pub enum DetectorFrame {
    /// In the memory of a CUDA device.
    Cuda(GpuNv12Frame),
    /// Anywhere else.
    Other,
}

} // verus!
