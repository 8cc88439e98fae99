//! The steps by which Vulkan takes over what CUDA shares with it, and back.
//!
//! Each step is done outside and reported here; a failure comes with the list of
//! what has to be released.

use crate::text::{decimal, decimal_text, joined};
use crate::vulkan::{import_type, pick_memory_type, SharedLayout};
use vstd::prelude::*;

verus! {

/// Why memory cannot be shared.
#[derive(Debug, PartialEq, Eq)]
pub enum CudaInteropError {
    /// The graphics device is not driven by Vulkan.
    NotVulkan,
    /// A step on the Vulkan side failed.
    VulkanError(String),
    /// A step on the CUDA side failed.
    CudaError(String),
}

impl CudaInteropError {
    /// A Vulkan failure with that text.
    pub open spec fn says(self, text: Seq<char>) -> bool {
        match self {
            CudaInteropError::VulkanError(m) => m@ == text,
            _ => false,
        }
    }
}

/// Something to release after a failure.
#[derive(Clone, Copy, Debug, PartialEq, Eq, Structural)]
pub enum Release {
    DestroyBuffer,
    DestroySemaphore,
    FreeMemory,
    /// Close the exported handle, which nobody has taken over.
    CloseHandle,
}

/// A failed step: what to release, in order, and the error to return.
#[derive(Debug)]
pub struct ImportFailure {
    pub release: Vec<Release>,
    pub error: CudaInteropError,
}

/// How far the import of a buffer has come.
#[derive(Clone, Copy, Debug, PartialEq, Eq, Structural)]
pub enum BufferStage {
    /// The buffer is to be created.
    Creating,
    /// Its demands on memory are to be found out.
    Measuring,
    /// Memory is to be made of the handle.
    Allocating { memory_size: u64, memory_type: u32 },
    /// The memory is to be bound to the buffer.
    Binding { memory_size: u64 },
    /// All is done.
    Bound { memory_size: u64 },
    /// A step failed.
    Failed,
}

impl BufferStage {
    /// What is held at the stage, in the order in which it is released. From the
    /// allocation on, the handle belongs to Vulkan.
    pub open spec fn held(self) -> Seq<Release> {
        match self {
            BufferStage::Creating => seq![Release::CloseHandle],
            BufferStage::Measuring => seq![Release::DestroyBuffer, Release::CloseHandle],
            BufferStage::Allocating { .. } => seq![Release::DestroyBuffer, Release::CloseHandle],
            BufferStage::Binding { .. } => seq![Release::DestroyBuffer, Release::FreeMemory],
            BufferStage::Bound { .. } => seq![Release::DestroyBuffer, Release::FreeMemory],
            BufferStage::Failed => seq![],
        }
    }
}

/// The import of a buffer.
#[derive(Debug)]
pub struct BufferImport {
    pub layout: SharedLayout,
    /// The bytes that CUDA allocated.
    pub alloc_size: usize,
    pub label: String,
    pub stage: BufferStage,
}

fn vulkan_error(text: String) -> (r: CudaInteropError)
    ensures
        r.says(text@),
{
    CudaInteropError::VulkanError(text)
}

/// `head`, the label, `middle` and the reason, one after the other.
fn labelled(head: &str, label: &str, middle: &str, reason: &str) -> (r: String)
    ensures
        r@ == head@ + label@ + middle@ + reason@,
{
    let mut r = joined(head, label);
    r.append(middle);
    r.append(reason);
    r
}

impl BufferImport {
    /// Everything but the stage is the same.
    pub open spec fn same_but_stage(self, other: BufferImport) -> bool {
        &&& self.layout == other.layout
        &&& self.alloc_size == other.alloc_size
        &&& self.label == other.label
    }

    /// The step failed: all that was held is to be released, and the error has that
    /// text.
    pub open spec fn failed(
        self,
        before: BufferImport,
        r: Result<(), ImportFailure>,
        text: Seq<char>,
    ) -> bool {
        &&& self.stage == BufferStage::Failed
        &&& r matches Err(f) && f.release@ == before.stage.held() && f.error.says(text)
    }

    fn fail(&mut self, error: CudaInteropError) -> (r: Result<(), ImportFailure>)
        ensures
            final(self).same_but_stage(*old(self)),
            final(self).stage == BufferStage::Failed,
            r matches Err(f) && f.release@ == old(self).stage.held() && f.error == error,
    {
        let ghost before = self.stage;
        let mut release: Vec<Release> = Vec::new();
        match self.stage {
            BufferStage::Creating => {
                release.push(Release::CloseHandle);
            },
            BufferStage::Measuring => {
                release.push(Release::DestroyBuffer);
                release.push(Release::CloseHandle);
            },
            BufferStage::Allocating { .. } => {
                release.push(Release::DestroyBuffer);
                release.push(Release::CloseHandle);
            },
            BufferStage::Binding { .. } => {
                release.push(Release::DestroyBuffer);
                release.push(Release::FreeMemory);
            },
            BufferStage::Bound { .. } => {
                release.push(Release::DestroyBuffer);
                release.push(Release::FreeMemory);
            },
            BufferStage::Failed => {},
        }
        assert(release@ =~= before.held());
        self.stage = BufferStage::Failed;
        Err(ImportFailure { release, error })
    }

    /// The buffer was created, or not.
    pub fn created(&mut self, outcome: Result<(), String>) -> (r: Result<(), ImportFailure>)
        requires
            old(self).stage == BufferStage::Creating,
        ensures
            final(self).same_but_stage(*old(self)),
            match outcome {
                Ok(_) => r is Ok && final(self).stage == BufferStage::Measuring,
                Err(reason) => final(self).failed(
                    *old(self),
                    r,
                    "vkCreateBuffer ("@ + old(self).label@ + "): "@ + reason@,
                ),
            },
    {
        match outcome {
            Ok(_) => {
                self.stage = BufferStage::Measuring;
                Ok(())
            },
            Err(reason) => {
                let text = labelled("vkCreateBuffer (", self.label.as_str(), "): ", reason.as_str());
                self.fail(vulkan_error(text))
            },
        }
    }

    /// The buffer's demands on memory are known: its size, the types allowed, and
    /// the properties of all types. More than CUDA allocated cannot be had.
    pub fn measured(&mut self, size: u64, type_bits: u32, flags: &[u32]) -> (r: Result<
        (),
        ImportFailure,
    >)
        requires
            old(self).stage == BufferStage::Measuring,
            flags@.len() <= 32,
        ensures
            final(self).same_but_stage(*old(self)),
            if size > old(self).alloc_size {
                final(self).failed(
                    *old(self),
                    r,
                    old(self).label@ + " Vulkan buffer requires "@ + decimal(size as nat)
                        + " bytes but CUDA allocated "@ + decimal(old(self).alloc_size as nat),
                )
            } else {
                match import_type(type_bits, flags@) {
                    Some(i) => r is Ok && final(self).stage == (BufferStage::Allocating {
                        memory_size: size,
                        memory_type: i as u32,
                    }),
                    None => final(self).failed(
                        *old(self),
                        r,
                        "no compatible memory type for imported buffer "@ + old(self).label@,
                    ),
                }
            },
    {
        if size > self.alloc_size as u64 {
            let mut text = joined(self.label.as_str(), " Vulkan buffer requires ");
            text.append(decimal_text(size).as_str());
            text.append(" bytes but CUDA allocated ");
            text.append(decimal_text(self.alloc_size as u64).as_str());
            return self.fail(vulkan_error(text));
        }
        match pick_memory_type(type_bits, flags) {
            Some(memory_type) => {
                self.stage = BufferStage::Allocating { memory_size: size, memory_type };
                Ok(())
            },
            None => {
                let text = joined(
                    "no compatible memory type for imported buffer ",
                    self.label.as_str(),
                );
                self.fail(vulkan_error(text))
            },
        }
    }

    /// Memory was made of the handle, or not.
    pub fn allocated(&mut self, outcome: Result<(), String>) -> (r: Result<(), ImportFailure>)
        requires
            old(self).stage is Allocating,
        ensures
            final(self).same_but_stage(*old(self)),
            match outcome {
                Ok(_) => r is Ok && final(self).stage == (BufferStage::Binding {
                    memory_size: old(self).stage->Allocating_memory_size,
                }),
                Err(reason) => final(self).failed(
                    *old(self),
                    r,
                    "vkAllocateMemory ("@ + old(self).label@ + " OPAQUE_FD): "@ + reason@,
                ),
            },
    {
        match outcome {
            Ok(_) => {
                if let BufferStage::Allocating { memory_size, .. } = self.stage {
                    self.stage = BufferStage::Binding { memory_size };
                }
                Ok(())
            },
            Err(reason) => {
                let text = labelled(
                    "vkAllocateMemory (",
                    self.label.as_str(),
                    " OPAQUE_FD): ",
                    reason.as_str(),
                );
                self.fail(vulkan_error(text))
            },
        }
    }

    /// The memory was bound to the buffer, or not.
    pub fn bound(&mut self, outcome: Result<(), String>) -> (r: Result<(), ImportFailure>)
        requires
            old(self).stage is Binding,
        ensures
            final(self).same_but_stage(*old(self)),
            match outcome {
                Ok(_) => r is Ok && final(self).stage == (BufferStage::Bound {
                    memory_size: old(self).stage->Binding_memory_size,
                }),
                Err(reason) => final(self).failed(
                    *old(self),
                    r,
                    "vkBindBufferMemory ("@ + old(self).label@ + "): "@ + reason@,
                ),
            },
    {
        match outcome {
            Ok(_) => {
                if let BufferStage::Binding { memory_size } = self.stage {
                    self.stage = BufferStage::Bound { memory_size };
                }
                Ok(())
            },
            Err(reason) => {
                let text = labelled(
                    "vkBindBufferMemory (",
                    self.label.as_str(),
                    "): ",
                    reason.as_str(),
                );
                self.fail(vulkan_error(text))
            },
        }
    }
}

/// Starts the import of a buffer over memory that CUDA has allocated and exported.
pub fn create_shared_buffer(layout: SharedLayout, alloc_size: usize, label: String) -> (r:
    BufferImport)
    ensures
        r == (BufferImport { layout, alloc_size, label, stage: BufferStage::Creating }),
{
    BufferImport { layout, alloc_size, label, stage: BufferStage::Creating }
}

/// At every stage nothing is held twice, and the exported handle is held exactly as
/// long as no memory was made of it.
pub proof fn law_handle_has_one_owner(stage: BufferStage)
    requires
        stage != BufferStage::Failed,
    ensures
        stage.held().no_duplicates(),
        stage.held().contains(Release::CloseHandle) != stage.held().contains(Release::FreeMemory),
        stage.held().contains(Release::DestroyBuffer) <==> stage != BufferStage::Creating,
{
    let h = stage.held();
    assert(h[0] == h[0]);
    if stage != BufferStage::Creating {
        assert(h[0] == Release::DestroyBuffer && h.len() == 2);
        assert(h.contains(h[0]) && h.contains(h[1]));
    } else {
        assert(h.contains(h[0]) && h.len() == 1);
    }
}

/// The steps on the Vulkan side that are done without a label.
#[derive(Clone, Copy, Debug, PartialEq, Eq, Structural)]
pub enum VulkanStep {
    CreateImage,
    AllocateImageMemory,
    BindImageMemory,
    ListExtensions,
    CreateSemaphore,
    ExportSemaphore,
    FinalWait,
}

impl VulkanStep {
    /// How a failure of the step is introduced.
    pub open spec fn label(self) -> Seq<char> {
        match self {
            VulkanStep::CreateImage => "vkCreateImage: "@,
            VulkanStep::AllocateImageMemory => "vkAllocateMemory (import fd): "@,
            VulkanStep::BindImageMemory => "vkBindImageMemory: "@,
            VulkanStep::ListExtensions => "vkEnumerateDeviceExtensionProperties: "@,
            VulkanStep::CreateSemaphore => "vkCreateSemaphore: "@,
            VulkanStep::ExportSemaphore => "vkGetSemaphoreFdKHR: "@,
            VulkanStep::FinalWait => "wait for final Vulkan work: "@,
        }
    }

    /// The error for a failure of the step.
    pub fn failure(self, reason: &str) -> (r: CudaInteropError)
        ensures
            r.says(self.label() + reason@),
    {
        let label = match self {
            VulkanStep::CreateImage => "vkCreateImage: ",
            VulkanStep::AllocateImageMemory => "vkAllocateMemory (import fd): ",
            VulkanStep::BindImageMemory => "vkBindImageMemory: ",
            VulkanStep::ListExtensions => "vkEnumerateDeviceExtensionProperties: ",
            VulkanStep::CreateSemaphore => "vkCreateSemaphore: ",
            VulkanStep::ExportSemaphore => "vkGetSemaphoreFdKHR: ",
            VulkanStep::FinalWait => "wait for final Vulkan work: ",
        };
        vulkan_error(joined(label, reason))
    }
}

/// Picks the memory type to import an image into.
pub fn image_memory_type(type_bits: u32, flags: &[u32]) -> (r: Result<u32, CudaInteropError>)
    requires
        flags@.len() <= 32,
    ensures
        match import_type(type_bits, flags@) {
            Some(i) => r matches Ok(n) && n == i,
            None => r matches Err(e) && e.says("no compatible memory type for imported image"@),
        },
{
    match pick_memory_type(type_bits, flags) {
        Some(i) => Ok(i),
        None => Err(vulkan_error("no compatible memory type for imported image".to_owned())),
    }
}

/// Waits for all submitted work, once, before shared things are torn down: what the
/// wait came to.
pub fn wait_for_vulkan_idle(outcome: Result<(), String>) -> (r: Result<(), CudaInteropError>)
    ensures
        match outcome {
            Ok(_) => r is Ok,
            Err(reason) => r matches Err(e) && e.says(VulkanStep::FinalWait.label() + reason@),
        },
{
    match outcome {
        Ok(_) => Ok(()),
        Err(reason) => Err(VulkanStep::FinalWait.failure(reason.as_str())),
    }
}

/// A semaphore that CUDA and Vulkan share, by its handle on either side.
#[derive(Clone, Copy, Debug, PartialEq, Eq, Structural)]
pub struct SharedSemaphore {
    pub vk: u64,
    pub cuda: u64,
}

/// A step by which a shared semaphore is torn down.
#[derive(Clone, Copy, Debug, PartialEq, Eq, Structural)]
pub enum TeardownStep {
    /// Complete the work of CUDA: a last signal may still be on its way.
    SynchronizeCuda,
    /// Destroy the handle on the side of CUDA.
    DestroyCuda { semaphore: u64 },
    /// Destroy the handle on the side of Vulkan.
    DestroyVulkan { semaphore: u64 },
}

impl SharedSemaphore {
    /// The steps by which the semaphore is torn down. Each is taken, though one before
    /// it fails: the work of CUDA is completed before either handle goes, and that of
    /// CUDA goes first.
    pub fn teardown(&self) -> (r: [TeardownStep; 3])
        ensures
            r@ == seq![
                TeardownStep::SynchronizeCuda,
                TeardownStep::DestroyCuda { semaphore: self.cuda },
                TeardownStep::DestroyVulkan { semaphore: self.vk },
            ],
    {
        let r = [
            TeardownStep::SynchronizeCuda,
            TeardownStep::DestroyCuda { semaphore: self.cuda },
            TeardownStep::DestroyVulkan { semaphore: self.vk },
        ];
        assert(r@ =~= seq![
            TeardownStep::SynchronizeCuda,
            TeardownStep::DestroyCuda { semaphore: self.cuda },
            TeardownStep::DestroyVulkan { semaphore: self.vk },
        ]);
        r
    }

    /// The handle on the side of Vulkan.
    pub fn vk_semaphore(&self) -> (r: u64)
        ensures
            r == self.vk,
    {
        self.vk
    }

    /// The handle on the side of CUDA.
    pub fn cuda_semaphore(&self) -> (r: u64)
        ensures
            r == self.cuda,
    {
        self.cuda
    }
}

/// How far a semaphore that is to be shared has come.
#[derive(Clone, Copy, Debug, PartialEq, Eq, Structural)]
pub enum SemaphoreStage {
    /// The device's extensions are to be listed.
    Listing,
    /// The semaphore is to be created.
    Creating,
    /// It is to be exported.
    Exporting { vk: u64 },
    /// CUDA is to import it.
    Importing { vk: u64 },
    /// All is done.
    Shared { semaphore: SharedSemaphore },
    /// A step failed.
    Failed,
}

impl SemaphoreStage {
    /// What is held at the stage. The exported handle belongs to CUDA.
    pub open spec fn held(self) -> Seq<Release> {
        match self {
            SemaphoreStage::Exporting { .. } => seq![Release::DestroySemaphore],
            SemaphoreStage::Importing { .. } => seq![Release::DestroySemaphore],
            SemaphoreStage::Shared { .. } => seq![Release::DestroySemaphore],
            _ => seq![],
        }
    }

    /// The step failed: all that was held is to be released.
    pub open spec fn failed(self, before: SemaphoreStage, r: Result<(), ImportFailure>) -> bool {
        &&& self == SemaphoreStage::Failed
        &&& r matches Err(f) && f.release@ == before.held()
    }

    fn fail(&mut self, error: CudaInteropError) -> (r: Result<(), ImportFailure>)
        ensures
            final(self).failed(*old(self), r),
            r matches Err(f) && f.error == error,
    {
        let ghost before = *self;
        let mut release: Vec<Release> = Vec::new();
        match *self {
            SemaphoreStage::Exporting { .. } => {
                release.push(Release::DestroySemaphore);
            },
            SemaphoreStage::Importing { .. } => {
                release.push(Release::DestroySemaphore);
            },
            SemaphoreStage::Shared { .. } => {
                release.push(Release::DestroySemaphore);
            },
            _ => {},
        }
        assert(release@ =~= before.held());
        *self = SemaphoreStage::Failed;
        Err(ImportFailure { release, error })
    }

    /// The device's extensions were listed, or not. Without the one that exports
    /// semaphores none can be shared.
    pub fn listed(&mut self, outcome: Result<Vec<String>, String>) -> (r: Result<(), ImportFailure>)
        requires
            *old(self) == SemaphoreStage::Listing,
        ensures
            match outcome {
                Ok(names) => if exports_semaphores(names@) {
                    r is Ok && *final(self) == SemaphoreStage::Creating
                } else {
                    final(self).failed(*old(self), r) && r->Err_0.error.says(
                        "VK_KHR_external_semaphore_fd is unavailable"@,
                    )
                },
                Err(reason) => final(self).failed(*old(self), r) && r->Err_0.error.says(
                    VulkanStep::ListExtensions.label() + reason@,
                ),
            },
    {
        match outcome {
            Ok(names) => if names_extension(names.as_slice()) {
                *self = SemaphoreStage::Creating;
                Ok(())
            } else {
                self.fail(vulkan_error("VK_KHR_external_semaphore_fd is unavailable".to_owned()))
            },
            Err(reason) => self.fail(VulkanStep::ListExtensions.failure(reason.as_str())),
        }
    }

    /// The semaphore was created, or not.
    pub fn created(&mut self, outcome: Result<u64, String>) -> (r: Result<(), ImportFailure>)
        requires
            *old(self) == SemaphoreStage::Creating,
        ensures
            match outcome {
                Ok(vk) => r is Ok && *final(self) == (SemaphoreStage::Exporting { vk }),
                Err(reason) => final(self).failed(*old(self), r) && r->Err_0.error.says(
                    VulkanStep::CreateSemaphore.label() + reason@,
                ),
            },
    {
        match outcome {
            Ok(vk) => {
                *self = SemaphoreStage::Exporting { vk };
                Ok(())
            },
            Err(reason) => self.fail(VulkanStep::CreateSemaphore.failure(reason.as_str())),
        }
    }

    /// The semaphore was exported, or not.
    pub fn exported(&mut self, outcome: Result<(), String>) -> (r: Result<(), ImportFailure>)
        requires
            *old(self) is Exporting,
        ensures
            match outcome {
                Ok(_) => r is Ok && *final(self) == (SemaphoreStage::Importing {
                    vk: (*old(self))->Exporting_vk,
                }),
                Err(reason) => final(self).failed(*old(self), r) && r->Err_0.error.says(
                    VulkanStep::ExportSemaphore.label() + reason@,
                ),
            },
    {
        match outcome {
            Ok(_) => {
                if let SemaphoreStage::Exporting { vk } = *self {
                    *self = SemaphoreStage::Importing { vk };
                }
                Ok(())
            },
            Err(reason) => self.fail(VulkanStep::ExportSemaphore.failure(reason.as_str())),
        }
    }

    /// CUDA imported the semaphore, or not. Its own error is passed on.
    pub fn imported(&mut self, outcome: Result<u64, CudaInteropError>) -> (r: Result<
        (),
        ImportFailure,
    >)
        requires
            *old(self) is Importing,
        ensures
            match outcome {
                Ok(cuda) => r is Ok && *final(self) == (SemaphoreStage::Shared {
                    semaphore: SharedSemaphore { vk: (*old(self))->Importing_vk, cuda },
                }),
                Err(e) => final(self).failed(*old(self), r) && r->Err_0.error == e,
            },
    {
        match outcome {
            Ok(cuda) => {
                if let SemaphoreStage::Importing { vk } = *self {
                    *self = SemaphoreStage::Shared { semaphore: SharedSemaphore { vk, cuda } };
                }
                Ok(())
            },
            Err(e) => self.fail(e),
        }
    }
}

/// The extension that exports semaphores is among the names.
pub open spec fn exports_semaphores(names: Seq<String>) -> bool {
    exists|i: int|
        0 <= i < names.len() && (#[trigger] names[i])@ == "VK_KHR_external_semaphore_fd"@
}

fn names_extension(names: &[String]) -> (r: bool)
    ensures
        r == exports_semaphores(names@),
{
    let wanted = "VK_KHR_external_semaphore_fd".to_owned();
    let mut i: usize = 0;
    while i < names.len()
        invariant
            i <= names@.len(),
            wanted@ == "VK_KHR_external_semaphore_fd"@,
            forall|k: int|
                0 <= k < i ==> (#[trigger] names@[k])@ != "VK_KHR_external_semaphore_fd"@,
        decreases names@.len() - i,
    {
        if names[i] == wanted {
            return true;
        }
        i = i + 1;
    }
    false
}

/// Starts to make a semaphore that CUDA and Vulkan share.
pub fn create_shared_semaphore() -> (r: SemaphoreStage)
    ensures
        r == SemaphoreStage::Listing,
{
    SemaphoreStage::Listing
}

/// Something that is put on a queue for its next submission, or the submission.
#[derive(Clone, Copy, Debug, PartialEq, Eq, Structural)]
pub enum QueueStep {
    /// The submission waits for the semaphore before it transfers anything.
    Wait { semaphore: u64 },
    /// The submission signals the semaphore when it is done.
    Signal { semaphore: u64 },
    /// An empty submission.
    Submit,
}

/// All waits, and then all signals.
pub open spec fn handoff_steps(waits: Seq<u64>, completions: Seq<u64>) -> Seq<QueueStep> {
    waits.map_values(|s: u64| QueueStep::Wait { semaphore: s }) + completions.map_values(
        |s: u64| QueueStep::Signal { semaphore: s },
    )
}

/// Lists what is put on the queue so that the next submission waits for CUDA and
/// tells it when it is done. Nothing is put there unless the queue is one of Vulkan.
pub fn stage_cuda_buffer_handoff(vulkan: bool, waits: &[u64], completions: &[u64]) -> (r: Result<
    Vec<QueueStep>,
    CudaInteropError,
>)
    ensures
        if vulkan {
            r matches Ok(v) && v@ == handoff_steps(waits@, completions@)
        } else {
            r == Err::<Vec<QueueStep>, CudaInteropError>(CudaInteropError::NotVulkan)
        },
{
    if !vulkan {
        return Err(CudaInteropError::NotVulkan);
    }
    let mut v: Vec<QueueStep> = Vec::new();
    let ghost all = handoff_steps(waits@, completions@);
    let mut i: usize = 0;
    while i < waits.len()
        invariant
            i <= waits@.len(),
            all == handoff_steps(waits@, completions@),
            v@ =~= all.take(i as int),
        decreases waits@.len() - i,
    {
        v.push(QueueStep::Wait { semaphore: waits[i] });
        i = i + 1;
    }
    let mut k: usize = 0;
    while k < completions.len()
        invariant
            k <= completions@.len(),
            all == handoff_steps(waits@, completions@),
            v@ =~= all.take(waits@.len() + k),
        decreases completions@.len() - k,
    {
        v.push(QueueStep::Signal { semaphore: completions[k] });
        k = k + 1;
    }
    assert(v@ =~= all);
    Ok(v)
}

/// Lists what is put on the queue so that the next submission waits for CUDA.
pub fn stage_cuda_semaphore_waits(vulkan: bool, semaphores: &[u64]) -> (r: Result<
    Vec<QueueStep>,
    CudaInteropError,
>)
    ensures
        if vulkan {
            r matches Ok(v) && v@ == handoff_steps(semaphores@, seq![])
        } else {
            r == Err::<Vec<QueueStep>, CudaInteropError>(CudaInteropError::NotVulkan)
        },
{
    let none: [u64; 0] = [];
    assert(none@ =~= seq![]);
    stage_cuda_buffer_handoff(vulkan, semaphores, &none)
}

/// Lists what is put on the queue for a frame that is not copied: its semaphores are
/// waited for and signalled all the same, by an empty submission.
pub fn consume_cuda_semaphore_signals(vulkan: bool, ready: &[u64], completions: &[u64]) -> (r:
    Result<Vec<QueueStep>, CudaInteropError>)
    ensures
        if vulkan {
            r matches Ok(v) && v@ == handoff_steps(ready@, completions@).push(QueueStep::Submit)
        } else {
            r == Err::<Vec<QueueStep>, CudaInteropError>(CudaInteropError::NotVulkan)
        },
{
    match stage_cuda_buffer_handoff(vulkan, ready, completions) {
        Ok(mut v) => {
            v.push(QueueStep::Submit);
            Ok(v)
        },
        Err(e) => Err(e),
    }
}

/// Every semaphore that was signalled by CUDA is waited for before any is signalled
/// back, in the order in which they were given.
pub proof fn law_waits_come_before_signals(waits: Seq<u64>, completions: Seq<u64>, i: int, j: int)
    requires
        0 <= i < waits.len(),
        0 <= j < completions.len(),
    ensures
        ({
            let steps = handoff_steps(waits, completions);
            &&& steps.len() == waits.len() + completions.len()
            &&& steps[i] == (QueueStep::Wait { semaphore: waits[i] })
            &&& steps[waits.len() + j] == (QueueStep::Signal { semaphore: completions[j] })
        }),
{
}

/// A semaphore has to be destroyed after a failure exactly if it was created, and nothing
/// else has to be released for it.
pub proof fn law_created_semaphore_is_destroyed(stage: SemaphoreStage)
    ensures
        stage.held().len() <= 1,
        stage.held().contains(Release::DestroySemaphore) <==> (stage is Exporting || stage
            is Importing || stage is Shared),
        forall|i: int|
            0 <= i < stage.held().len() ==> #[trigger] stage.held()[i] == Release::DestroySemaphore,
{
    if stage.held().len() > 0 {
        assert(stage.held().contains(stage.held()[0]));
    }
}

} // verus!
