//! Memory that CUDA and Vulkan share.

use ash::vk::Format;
use reco::image_import::{create_shared_texture, ImageImport, ImageStage};
use reco::interop::{
    consume_cuda_semaphore_signals, create_shared_buffer, create_shared_semaphore,
    image_memory_type, stage_cuda_buffer_handoff, stage_cuda_semaphore_waits,
    wait_for_vulkan_idle, BufferImport, BufferStage, CudaInteropError, ImportFailure, QueueStep,
    Release, SemaphoreStage, TeardownStep, VulkanStep,
};
use reco::vulkan::{
    aligned_buffer_pitch, format_bytes_per_pixel, pick_memory_type, wgpu_format_to_vk,
    GpuPixelFormat, Nv12Plane, SharedLayout, TextureFormat,
};

#[test]
fn nv12_and_p010_plane_pitches_are_copy_aligned() {
    assert_eq!(aligned_buffer_pitch(3840, TextureFormat::R8Unorm), 3840);
    assert_eq!(aligned_buffer_pitch(1920, TextureFormat::Rg8Unorm), 3840);
    assert_eq!(aligned_buffer_pitch(3840, TextureFormat::R16Unorm), 7680);
    assert_eq!(aligned_buffer_pitch(1920, TextureFormat::Rg16Unorm), 7680);

    // A width whose byte rows are not naturally 256-byte aligned must
    // preserve tight CUDA copies while padding Vulkan's row stride.
    assert_eq!(aligned_buffer_pitch(1920, TextureFormat::R8Unorm), 2048);
    assert_eq!(aligned_buffer_pitch(960, TextureFormat::Rg8Unorm), 2048);
}

#[test]
fn formats_have_their_sizes_and_numbers() {
    for (format, bytes, vk, wgpu_format) in [
        (TextureFormat::R8Unorm, 1, Format::R8_UNORM, wgpu::TextureFormat::R8Unorm),
        (TextureFormat::Rg8Unorm, 2, Format::R8G8_UNORM, wgpu::TextureFormat::Rg8Unorm),
        (TextureFormat::R16Unorm, 2, Format::R16_UNORM, wgpu::TextureFormat::R16Unorm),
        (TextureFormat::Rg16Unorm, 4, Format::R16G16_UNORM, wgpu::TextureFormat::Rg16Unorm),
        (TextureFormat::Rgba8Unorm, 4, Format::R8G8B8A8_UNORM, wgpu::TextureFormat::Rgba8Unorm),
        (TextureFormat::Rgba8UnormSrgb, 4, Format::R8G8B8A8_SRGB, wgpu::TextureFormat::Rgba8UnormSrgb),
    ] {
        assert_eq!(format_bytes_per_pixel(format), bytes);
        assert_eq!(wgpu_format_to_vk(format), vk.as_raw());
        assert_eq!(wgpu_format.block_copy_size(None), Some(bytes as u32));
    }
}

#[test]
fn layouts_pad_every_row() {
    let layout = SharedLayout::new(1920, 1080, TextureFormat::R8Unorm);
    assert_eq!((layout.pitch, layout.size), (2048, 2_211_840));
    let empty = SharedLayout::new(0, 1080, TextureFormat::R8Unorm);
    assert_eq!((empty.pitch, empty.size), (0, 0));
    assert!(SharedLayout::can_be_addressed(3840, 2160, TextureFormat::Rg16Unorm));
    assert!(!SharedLayout::can_be_addressed(u32::MAX, u32::MAX, TextureFormat::Rgba8Unorm));
}

#[test]
fn planes_have_their_shapes() {
    let y = Nv12Plane::Y.shape(3840, 2160, GpuPixelFormat::Nv12);
    assert_eq!((y.width, y.height, y.format), (3840, 2160, TextureFormat::R8Unorm));
    let uv = Nv12Plane::Uv.shape(3841, 2161, GpuPixelFormat::P010);
    assert_eq!((uv.width, uv.height, uv.format), (1920, 1080, TextureFormat::Rg16Unorm));
    for format in [GpuPixelFormat::Nv12, GpuPixelFormat::P010] {
        let y = Nv12Plane::Y.shape(1918, 1080, format);
        let uv = Nv12Plane::Uv.shape(1918, 1080, format);
        assert_eq!(
            aligned_buffer_pitch(y.width, y.format),
            aligned_buffer_pitch(uv.width, uv.format)
        );
    }
    assert_eq!(GpuPixelFormat::P010.y_format(), TextureFormat::R16Unorm);
    assert_eq!(GpuPixelFormat::Nv12.uv_format(), TextureFormat::Rg8Unorm);
}

#[test]
fn memory_on_the_device_is_preferred() {
    let local = ash::vk::MemoryPropertyFlags::DEVICE_LOCAL.as_raw();
    let visible = ash::vk::MemoryPropertyFlags::HOST_VISIBLE.as_raw();
    assert_eq!(pick_memory_type(0b111, &[visible, local | visible, local]), Some(1));
    assert_eq!(pick_memory_type(0b101, &[visible, local, local]), Some(2));
    assert_eq!(pick_memory_type(0b010, &[local, visible, local]), Some(1));
    assert_eq!(pick_memory_type(0b1000, &[local, local, local]), None);
    assert_eq!(pick_memory_type(0x8000_0000, &[local; 32]), Some(31));
    assert_eq!(image_memory_type(0b10, &[local, local]), Ok(1));
    assert_eq!(
        image_memory_type(0, &[local]),
        Err(CudaInteropError::VulkanError("no compatible memory type for imported image".to_string()))
    );
}

fn image() -> ImageImport {
    create_shared_texture(1920, 1080, TextureFormat::Rg8Unorm)
}

#[test]
fn an_image_is_imported_step_by_step() {
    let mut image = image();
    assert_eq!((image.layout.pitch, image.layout.size), (3840, 4_147_200));
    assert_eq!(image.stage, ImageStage::Sharing);
    image.shared(Ok(4_194_304)).unwrap();
    image.resolved(true).unwrap();
    image.created(Ok(())).unwrap();
    image.measured(4096, 0b11, &[0, 1]).unwrap();
    assert_eq!(
        image.stage,
        ImageStage::Allocating { alloc_size: 4_194_304, pitch: 4096, memory_type: 1 }
    );
    image.allocated(Ok(())).unwrap();
    image.bound(Ok(())).unwrap();
    assert_eq!(image.stage, ImageStage::Bound { pitch: 4096 });
}

#[test]
fn a_failed_image_import_says_which_step_failed() {
    let vulkan = |text: &str| Err(CudaInteropError::VulkanError(text.to_string()));
    let reason = || Err("X".to_string());
    let mut start = image();
    let out_of_memory = CudaInteropError::CudaError("out of memory".to_string());
    assert_eq!(
        start.shared(Err(out_of_memory)),
        Err(CudaInteropError::CudaError("out of memory".to_string()))
    );
    assert_eq!(start.stage, ImageStage::Failed);

    let mut start = image();
    start.shared(Ok(4_194_304)).unwrap();
    let mut other = start;
    assert_eq!(other.resolved(false), Err(CudaInteropError::NotVulkan));
    start.resolved(true).unwrap();
    let mut other = start;
    assert_eq!(other.created(reason()), vulkan("vkCreateImage: X"));
    start.created(Ok(())).unwrap();
    let mut other = start;
    assert_eq!(
        other.measured(4096, 0b100, &[1, 1]),
        vulkan("no compatible memory type for imported image")
    );
    start.measured(4096, 1, &[1]).unwrap();
    let mut other = start;
    assert_eq!(other.allocated(reason()), vulkan("vkAllocateMemory (import fd): X"));
    start.allocated(Ok(())).unwrap();
    assert_eq!(start.bound(reason()), vulkan("vkBindImageMemory: X"));
    assert_eq!(start.stage, ImageStage::Failed);
}

fn import() -> BufferImport {
    let layout = SharedLayout::new(1920, 1080, TextureFormat::R8Unorm);
    create_shared_buffer(layout, 4_194_304, "left_y_0".to_string())
}

fn failure(r: Result<(), ImportFailure>) -> (Vec<Release>, String) {
    match r {
        Err(ImportFailure { release, error: CudaInteropError::VulkanError(text) }) => (release, text),
        _ => panic!("expected a failure on the Vulkan side"),
    }
}

#[test]
fn a_buffer_is_imported_step_by_step() {
    let mut import = import();
    assert_eq!(import.stage, BufferStage::Creating);
    import.created(Ok(())).unwrap();
    import.measured(2_211_840, 0b11, &[0, 1]).unwrap();
    assert_eq!(import.stage, BufferStage::Allocating { memory_size: 2_211_840, memory_type: 1 });
    import.allocated(Ok(())).unwrap();
    import.bound(Ok(())).unwrap();
    assert_eq!(import.stage, BufferStage::Bound { memory_size: 2_211_840 });
}

#[test]
fn a_failed_import_releases_what_it_holds() {
    let mut failed = import();
    assert_eq!(
        failure(failed.created(Err("OUT_OF_MEMORY".to_string()))),
        (vec![Release::CloseHandle], "vkCreateBuffer (left_y_0): OUT_OF_MEMORY".to_string())
    );
    assert_eq!(failed.stage, BufferStage::Failed);

    let held = vec![Release::DestroyBuffer, Release::CloseHandle];
    let mut large = import();
    large.created(Ok(())).unwrap();
    assert_eq!(
        failure(large.measured(4_194_305, 1, &[1])),
        (
            held.clone(),
            "left_y_0 Vulkan buffer requires 4194305 bytes but CUDA allocated 4194304".to_string()
        )
    );
    let mut odd = import();
    odd.created(Ok(())).unwrap();
    assert_eq!(
        failure(odd.measured(1, 0b100, &[1, 1])),
        (held.clone(), "no compatible memory type for imported buffer left_y_0".to_string())
    );
    let mut refused = import();
    refused.created(Ok(())).unwrap();
    refused.measured(1, 1, &[1]).unwrap();
    assert_eq!(
        failure(refused.allocated(Err("X".to_string()))),
        (held, "vkAllocateMemory (left_y_0 OPAQUE_FD): X".to_string())
    );
    let mut unbound = import();
    unbound.created(Ok(())).unwrap();
    unbound.measured(1, 1, &[1]).unwrap();
    unbound.allocated(Ok(())).unwrap();
    assert_eq!(
        failure(unbound.bound(Err("Y".to_string()))),
        (
            vec![Release::DestroyBuffer, Release::FreeMemory],
            "vkBindBufferMemory (left_y_0): Y".to_string()
        )
    );
}

fn extensions() -> Vec<String> {
    vec!["VK_KHR_swapchain".to_string(), "VK_KHR_external_semaphore_fd".to_string()]
}

#[test]
fn a_semaphore_is_shared_step_by_step() {
    let mut stage = create_shared_semaphore();
    stage.listed(Ok(extensions())).unwrap();
    stage.created(Ok(7)).unwrap();
    stage.exported(Ok(())).unwrap();
    stage.imported(Ok(9)).unwrap();
    match stage {
        SemaphoreStage::Shared { semaphore } => {
            assert_eq!((semaphore.vk_semaphore(), semaphore.cuda_semaphore()), (7, 9));
            assert_eq!(
                semaphore.teardown(),
                [
                    TeardownStep::SynchronizeCuda,
                    TeardownStep::DestroyCuda { semaphore: 9 },
                    TeardownStep::DestroyVulkan { semaphore: 7 },
                ]
            );
        }
        _ => panic!("expected a shared semaphore"),
    }
}

#[test]
fn a_failed_semaphore_is_destroyed() {
    let mut stage = create_shared_semaphore();
    assert_eq!(
        failure(stage.listed(Err("A".to_string()))),
        (vec![], "vkEnumerateDeviceExtensionProperties: A".to_string())
    );
    let mut stage = create_shared_semaphore();
    assert_eq!(
        failure(stage.listed(Ok(vec!["VK_KHR_external_semaphore".to_string()]))),
        (vec![], "VK_KHR_external_semaphore_fd is unavailable".to_string())
    );
    let mut stage = create_shared_semaphore();
    stage.listed(Ok(extensions())).unwrap();
    assert_eq!(
        failure(stage.created(Err("B".to_string()))),
        (vec![], "vkCreateSemaphore: B".to_string())
    );
    let mut stage = create_shared_semaphore();
    stage.listed(Ok(extensions())).unwrap();
    stage.created(Ok(7)).unwrap();
    assert_eq!(
        failure(stage.exported(Err("C".to_string()))),
        (vec![Release::DestroySemaphore], "vkGetSemaphoreFdKHR: C".to_string())
    );
    let mut stage = create_shared_semaphore();
    stage.listed(Ok(extensions())).unwrap();
    stage.created(Ok(7)).unwrap();
    stage.exported(Ok(())).unwrap();
    let failed = stage.imported(Err(CudaInteropError::CudaError("D".to_string()))).unwrap_err();
    assert_eq!(failed.release, vec![Release::DestroySemaphore]);
    assert_eq!(failed.error, CudaInteropError::CudaError("D".to_string()));
    assert_eq!(stage, SemaphoreStage::Failed);
}

#[test]
fn handoffs_wait_before_they_signal() {
    let wait = |semaphore| QueueStep::Wait { semaphore };
    let signal = |semaphore| QueueStep::Signal { semaphore };
    assert_eq!(
        stage_cuda_buffer_handoff(true, &[1, 2], &[3]),
        Ok(vec![wait(1), wait(2), signal(3)])
    );
    assert_eq!(stage_cuda_semaphore_waits(true, &[4]), Ok(vec![wait(4)]));
    assert_eq!(
        consume_cuda_semaphore_signals(true, &[5], &[6]),
        Ok(vec![wait(5), signal(6), QueueStep::Submit])
    );
    for refused in [
        stage_cuda_buffer_handoff(false, &[1], &[2]),
        stage_cuda_semaphore_waits(false, &[1]),
        consume_cuda_semaphore_signals(false, &[1], &[2]),
    ] {
        assert_eq!(refused, Err(CudaInteropError::NotVulkan));
    }
}

#[test]
fn steps_name_themselves() {
    assert!(wait_for_vulkan_idle(Ok(())).is_ok());
    let text = |e: CudaInteropError| match e {
        CudaInteropError::VulkanError(text) => text,
        _ => panic!("expected a failure on the Vulkan side"),
    };
    assert_eq!(
        text(wait_for_vulkan_idle(Err("Timeout".to_string())).unwrap_err()),
        "wait for final Vulkan work: Timeout"
    );
    assert_eq!(text(VulkanStep::CreateImage.failure("e")), "vkCreateImage: e");
    assert_eq!(text(VulkanStep::AllocateImageMemory.failure("e")), "vkAllocateMemory (import fd): e");
    assert_eq!(text(VulkanStep::BindImageMemory.failure("e")), "vkBindImageMemory: e");
}
