//! The steps by which Vulkan takes over memory of CUDA as an image.
//!
//! Each step is done outside and reported here; a failure comes with the error to
//! return.

use crate::interop::{image_memory_type, CudaInteropError, VulkanStep};
use crate::vulkan::{buffer_pitch, import_type, shared_size, SharedLayout, TextureFormat};
use vstd::prelude::*;

verus! {

/// How far the import of an image has come.
#[derive(Clone, Copy, Debug, PartialEq, Eq, Structural)]
pub enum ImageStage {
    /// CUDA is to allocate and export memory.
    Sharing,
    /// The device is to be looked up.
    Resolving { alloc_size: usize },
    /// The image is to be created.
    Creating { alloc_size: usize },
    /// Its demands on memory, and the bytes from row to row, are to be found out.
    Measuring { alloc_size: usize },
    /// Memory is to be made of the handle.
    Allocating { alloc_size: usize, pitch: usize, memory_type: u32 },
    /// The memory is to be bound to the image.
    Binding { pitch: usize },
    /// All is done: CUDA writes rows that lie so many bytes apart.
    Bound { pitch: usize },
    /// A step failed.
    Failed,
}

/// The import of an image.
#[derive(Clone, Copy, Debug, PartialEq, Eq)]
pub struct ImageImport {
    pub width: u32,
    pub height: u32,
    pub format: TextureFormat,
    /// The memory that CUDA is asked for.
    pub layout: SharedLayout,
    pub stage: ImageStage,
}

impl ImageImport {
    /// The import at another stage.
    pub open spec fn at(self, stage: ImageStage) -> ImageImport {
        ImageImport { stage, ..self }
    }

    /// The step failed on the Vulkan side, with that text.
    pub open spec fn failed(
        self,
        before: ImageImport,
        r: Result<(), CudaInteropError>,
        text: Seq<char>,
    ) -> bool {
        &&& self == before.at(ImageStage::Failed)
        &&& r matches Err(e) && e.says(text)
    }

    /// CUDA allocated and exported so many bytes, or not. Its own error is passed on.
    pub fn shared(&mut self, outcome: Result<usize, CudaInteropError>) -> (r: Result<
        (),
        CudaInteropError,
    >)
        requires
            old(self).stage == ImageStage::Sharing,
        ensures
            match outcome {
                Ok(alloc_size) => r is Ok && *final(self) == old(self).at(
                    ImageStage::Resolving { alloc_size },
                ),
                Err(e) => r == Err::<(), CudaInteropError>(e) && *final(self) == old(self).at(
                    ImageStage::Failed,
                ),
            },
    {
        match outcome {
            Ok(alloc_size) => {
                self.stage = ImageStage::Resolving { alloc_size };
                Ok(())
            },
            Err(e) => {
                self.stage = ImageStage::Failed;
                Err(e)
            },
        }
    }

    /// The device is driven by Vulkan, or not.
    pub fn resolved(&mut self, vulkan: bool) -> (r: Result<(), CudaInteropError>)
        requires
            old(self).stage is Resolving,
        ensures
            if vulkan {
                r is Ok && *final(self) == old(self).at(
                    ImageStage::Creating { alloc_size: old(self).stage->Resolving_alloc_size },
                )
            } else {
                r == Err::<(), CudaInteropError>(CudaInteropError::NotVulkan) && *final(self)
                    == old(self).at(ImageStage::Failed)
            },
    {
        if !vulkan {
            self.stage = ImageStage::Failed;
            return Err(CudaInteropError::NotVulkan);
        }
        if let ImageStage::Resolving { alloc_size } = self.stage {
            self.stage = ImageStage::Creating { alloc_size };
        }
        Ok(())
    }

    /// The image was created, or not.
    pub fn created(&mut self, outcome: Result<(), String>) -> (r: Result<(), CudaInteropError>)
        requires
            old(self).stage is Creating,
        ensures
            match outcome {
                Ok(_) => r is Ok && *final(self) == old(self).at(
                    ImageStage::Measuring { alloc_size: old(self).stage->Creating_alloc_size },
                ),
                Err(reason) => final(self).failed(
                    *old(self),
                    r,
                    VulkanStep::CreateImage.label() + reason@,
                ),
            },
    {
        match outcome {
            Ok(_) => {
                if let ImageStage::Creating { alloc_size } = self.stage {
                    self.stage = ImageStage::Measuring { alloc_size };
                }
                Ok(())
            },
            Err(reason) => {
                self.stage = ImageStage::Failed;
                Err(VulkanStep::CreateImage.failure(reason.as_str()))
            },
        }
    }

    /// The driver has said how many bytes lie from row to row and which types of
    /// memory are allowed; the properties of all types are known. All that CUDA
    /// allocated is imported.
    pub fn measured(&mut self, pitch: usize, type_bits: u32, flags: &[u32]) -> (r: Result<
        (),
        CudaInteropError,
    >)
        requires
            old(self).stage is Measuring,
            flags@.len() <= 32,
        ensures
            match import_type(type_bits, flags@) {
                Some(i) => r is Ok && *final(self) == old(self).at(
                    ImageStage::Allocating {
                        alloc_size: old(self).stage->Measuring_alloc_size,
                        pitch,
                        memory_type: i as u32,
                    },
                ),
                None => final(self).failed(
                    *old(self),
                    r,
                    "no compatible memory type for imported image"@,
                ),
            },
    {
        match image_memory_type(type_bits, flags) {
            Ok(memory_type) => {
                if let ImageStage::Measuring { alloc_size } = self.stage {
                    self.stage = ImageStage::Allocating { alloc_size, pitch, memory_type };
                }
                Ok(())
            },
            Err(e) => {
                self.stage = ImageStage::Failed;
                Err(e)
            },
        }
    }

    /// Memory was made of the handle, or not.
    pub fn allocated(&mut self, outcome: Result<(), String>) -> (r: Result<(), CudaInteropError>)
        requires
            old(self).stage is Allocating,
        ensures
            match outcome {
                Ok(_) => r is Ok && *final(self) == old(self).at(
                    ImageStage::Binding { pitch: old(self).stage->Allocating_pitch },
                ),
                Err(reason) => final(self).failed(
                    *old(self),
                    r,
                    VulkanStep::AllocateImageMemory.label() + reason@,
                ),
            },
    {
        match outcome {
            Ok(_) => {
                if let ImageStage::Allocating { pitch, .. } = self.stage {
                    self.stage = ImageStage::Binding { pitch };
                }
                Ok(())
            },
            Err(reason) => {
                self.stage = ImageStage::Failed;
                Err(VulkanStep::AllocateImageMemory.failure(reason.as_str()))
            },
        }
    }

    /// The memory was bound to the image, or not.
    pub fn bound(&mut self, outcome: Result<(), String>) -> (r: Result<(), CudaInteropError>)
        requires
            old(self).stage is Binding,
        ensures
            match outcome {
                Ok(_) => r is Ok && *final(self) == old(self).at(
                    ImageStage::Bound { pitch: old(self).stage->Binding_pitch },
                ),
                Err(reason) => final(self).failed(
                    *old(self),
                    r,
                    VulkanStep::BindImageMemory.label() + reason@,
                ),
            },
    {
        match outcome {
            Ok(_) => {
                if let ImageStage::Binding { pitch } = self.stage {
                    self.stage = ImageStage::Bound { pitch };
                }
                Ok(())
            },
            Err(reason) => {
                self.stage = ImageStage::Failed;
                Err(VulkanStep::BindImageMemory.failure(reason.as_str()))
            },
        }
    }
}

/// Starts the import of an image over memory of CUDA, which is asked for as much as
/// padded rows take.
pub fn create_shared_texture(width: u32, height: u32, format: TextureFormat) -> (r: ImageImport)
    requires
        buffer_pitch(width, format) <= usize::MAX,
        shared_size(width, height, format) <= usize::MAX,
    ensures
        r.width == width,
        r.height == height,
        r.format == format,
        r.layout.pitch == buffer_pitch(width, format),
        r.layout.size == shared_size(width, height, format),
        r.stage == ImageStage::Sharing,
{
    let layout = SharedLayout::new(width, height, format);
    ImageImport { width, height, format, layout, stage: ImageStage::Sharing }
}

} // verus!
