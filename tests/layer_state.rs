use ash::vk;
use unseen::capture::{should_capture, BarrierTarget};
use unseen::codes::{
    ERROR_INITIALIZATION_FAILED, ERROR_LAYER_NOT_PRESENT, ERROR_OUT_OF_HOST_MEMORY,
    ERROR_SURFACE_LOST_KHR, FORMAT_B8G8R8A8_UNORM, INCOMPLETE, SUCCESS,
};
use unseen::config::LayerConfig;
use unseen::dispatch::{
    enumerate_extension_properties, enumerate_layer_properties, negotiate_interface_version,
    EntryPoint,
};
use unseen::host_image::{
    find_host_visible_memory_type, BuildEvent, BuildStep, HostVisibleImage, Release,
    SwapchainBuilder,
};
use unseen::layer::{
    generate_unique_handle, get_chain_info, select_graphics_queue_family, ChainLink, ChainRecord,
    GraphicsQueue, HandleCounter, LayerState, ProcRoute, FIRST_HANDLE,
};
use unseen::surface::Extent;

const INSTANCE: u64 = 0xA0;
const DEVICE: u64 = 0xD0;

fn build_images(device: u64, min_image_count: u32, first_image: u64) -> Vec<HostVisibleImage> {
    let mut builder = SwapchainBuilder::new(device, min_image_count, vec![0x1, 0x6]);
    let mut step = builder.step();
    let mut next = first_image;
    loop {
        let event = match step {
            BuildStep::CreateImage => {
                next += 1;
                BuildEvent::ImageCreated { image: next }
            }
            BuildStep::QueryRequirements { .. } => {
                BuildEvent::Requirements { size: 64, memory_type_bits: 0b11 }
            }
            BuildStep::AllocateMemory { .. } => BuildEvent::MemoryAllocated { memory: next + 100 },
            BuildStep::BindMemory { .. } => BuildEvent::MemoryBound,
            BuildStep::MapMemory { .. } => BuildEvent::MemoryMapped { mapped: 0x7000 + next },
            BuildStep::QueryLayout { .. } => BuildEvent::LayoutQueried { row_pitch: 16 },
            BuildStep::Finished => break,
            BuildStep::RollBack { .. } => panic!("build failed"),
        };
        step = builder.advance(event);
    }
    builder.finish()
}

fn layer_with(config: LayerConfig) -> LayerState {
    let mut layer = LayerState::new();
    let link = ChainLink { next_get_instance_proc_addr: 0x11, next_get_device_proc_addr: 0x12 };
    layer.register_instance(INSTANCE, link, config).unwrap();
    let graphics = GraphicsQueue { family: 0, queue: 0x51, command_pool: Some(0x61) };
    layer.register_device(INSTANCE, DEVICE, 0x90, 0x13, Some(graphics)).unwrap();
    layer
}

fn default_config() -> LayerConfig {
    LayerConfig::resolve(Some("out"), None, None, None, None)
}

#[test]
fn chain_with_link_is_found_and_registered() {
    let link = ChainLink { next_get_instance_proc_addr: 0x11, next_get_device_proc_addr: 0x12 };
    let records = [
        ChainRecord { s_type: 1000, function: 0, link: None },
        ChainRecord { s_type: 47, function: 1, link: None },
        ChainRecord { s_type: 47, function: 0, link: Some(link) },
    ];
    assert_eq!(get_chain_info(&records), Some(link));
    let mut layer = LayerState::new();
    assert_eq!(layer.register_instance(INSTANCE, link, default_config()), Ok(()));
    assert!(layer.instance(INSTANCE).is_some());
    assert_eq!(layer.newest_instance(), Some(INSTANCE));
}

#[test]
fn chain_without_link_is_not_found() {
    assert_eq!(get_chain_info(&[]), None);
    let null_link = ChainLink { next_get_instance_proc_addr: 0, next_get_device_proc_addr: 0x12 };
    let records = [ChainRecord { s_type: 47, function: 0, link: Some(null_link) }];
    assert_eq!(get_chain_info(&records), None);
    // The entry point then reports this code.
    assert_eq!(ERROR_LAYER_NOT_PRESENT, ash::vk::Result::ERROR_LAYER_NOT_PRESENT.as_raw());
}

#[test]
fn instance_registered_twice_is_refused() {
    let mut layer = layer_with(default_config());
    let link = ChainLink { next_get_instance_proc_addr: 1, next_get_device_proc_addr: 2 };
    assert_eq!(layer.register_instance(INSTANCE, link, default_config()), Err(ERROR_INITIALIZATION_FAILED));
}

#[test]
fn headless_surface_capabilities() {
    let mut layer = layer_with(default_config());
    let surface = layer.create_headless_surface(INSTANCE).unwrap();
    let caps = layer.surface_capabilities(surface).unwrap();
    assert_eq!(caps.current_extent, Extent { width: 1920, height: 1080 });
    assert_eq!(caps.min_image_count, 2);
    assert_eq!(caps.max_image_count, 3);
    assert_eq!(layer.surface_capabilities(surface + 1), Err(ERROR_SURFACE_LOST_KHR));
    assert_eq!(layer.create_headless_surface(0x5555), Err(ERROR_INITIALIZATION_FAILED));
}

#[test]
fn surface_formats_and_modes_follow_count_probe() {
    let mut layer = layer_with(default_config());
    let surface = layer.create_headless_surface(INSTANCE).unwrap();
    assert_eq!(layer.surface_formats(surface, None).unwrap().len(), 4);
    let two = layer.surface_formats(surface, Some(2)).unwrap();
    assert_eq!(two.len(), 2);
    assert_eq!(two[0].format, ash::vk::Format::B8G8R8A8_SRGB.as_raw());
    assert_eq!(two[1].format, ash::vk::Format::R8G8B8A8_SRGB.as_raw());
    let modes = layer.surface_present_modes(surface, Some(10)).unwrap();
    assert_eq!(
        modes,
        vec![
            ash::vk::PresentModeKHR::FIFO.as_raw(),
            ash::vk::PresentModeKHR::MAILBOX.as_raw(),
            ash::vk::PresentModeKHR::IMMEDIATE.as_raw()
        ]
    );
    layer.destroy_surface(INSTANCE, surface);
    assert_eq!(layer.surface_formats(surface, None).err(), Some(ERROR_SURFACE_LOST_KHR));
}

#[test]
fn swapchain_of_one_requested_image_has_two() {
    let mut layer = layer_with(default_config());
    let images = build_images(DEVICE, 1, 0x100);
    assert_eq!(images.len(), 2);
    let sc = layer.register_swapchain(DEVICE, images, FORMAT_B8G8R8A8_UNORM, Extent { width: 4, height: 2 }).unwrap();
    let all = layer.swapchain_images(DEVICE, sc, None).unwrap();
    assert_eq!(all.len(), 2);
    let fetched = layer.swapchain_images(DEVICE, sc, Some(2)).unwrap();
    assert_eq!(fetched.len(), 2);
    assert_ne!(fetched[0], fetched[1]);
    assert!(fetched.iter().all(|&h| h != 0));
    assert_eq!(layer.swapchain_images(DEVICE, sc, Some(1)).unwrap().len(), 1);
    assert_eq!(layer.swapchain_images(DEVICE + 1, sc, None), Err(ERROR_INITIALIZATION_FAILED));
}

#[test]
fn swapchain_keeps_a_larger_request() {
    let mut layer = layer_with(default_config());
    let images = build_images(DEVICE, 5, 0x100);
    let sc = layer.register_swapchain(DEVICE, images, FORMAT_B8G8R8A8_UNORM, Extent { width: 4, height: 2 }).unwrap();
    assert_eq!(layer.swapchain_images(DEVICE, sc, None).unwrap().len(), 5);
}

#[test]
fn present_writes_expected_frame() {
    let mut layer = layer_with(default_config());
    let images = build_images(DEVICE, 1, 0x100);
    let sc = layer.register_swapchain(DEVICE, images, FORMAT_B8G8R8A8_UNORM, Extent { width: 4, height: 2 }).unwrap();
    assert_eq!(layer.acquire_next_image(DEVICE, sc), Ok(0));
    let jobs = layer.present(&[(sc, 0)]);
    assert_eq!(jobs.len(), 1);
    let job = &jobs[0];
    assert_eq!(job.frame, 0);
    assert_eq!(job.path, "out/frame_000000.ppm");
    assert_eq!(job.barrier, Some(BarrierTarget { queue: 0x51, command_pool: 0x61 }));
    let mapped: Vec<u8> = [0xFFu8, 0x00, 0x00, 0xFF].repeat(8);
    let file = job.render(&mapped).unwrap();
    let mut expected = b"P6\n4 2\n255\n".to_vec();
    expected.extend_from_slice(&[0x00, 0x00, 0xFF].repeat(8));
    assert_eq!(file.path, "out/frame_000000.ppm");
    assert_eq!(file.bytes, expected);
    assert_eq!(layer.acquire_next_image(DEVICE, sc), Ok(1));
}

#[test]
fn every_third_frame_is_captured() {
    let config = LayerConfig::resolve(Some("out"), None, Some("3"), None, None);
    let mut layer = layer_with(config);
    let images = build_images(DEVICE, 2, 0x100);
    let sc = layer.register_swapchain(DEVICE, images, FORMAT_B8G8R8A8_UNORM, Extent { width: 4, height: 2 }).unwrap();
    let mut paths = Vec::new();
    for _ in 0..7 {
        let index = layer.acquire_next_image(DEVICE, sc).unwrap();
        for job in layer.present(&[(sc, index)]) {
            paths.push(job.path);
        }
    }
    assert_eq!(paths, vec!["out/frame_000000.ppm", "out/frame_000003.ppm", "out/frame_000006.ppm"]);
}

#[test]
fn every_frame_is_captured_by_default() {
    let mut layer = layer_with(default_config());
    let images = build_images(DEVICE, 2, 0x100);
    let sc = layer.register_swapchain(DEVICE, images, FORMAT_B8G8R8A8_UNORM, Extent { width: 4, height: 2 }).unwrap();
    let jobs = layer.present(&[(sc, 0), (sc, 1), (sc, 0), (sc, 1)]);
    let frames: Vec<u32> = jobs.iter().map(|j| j.frame).collect();
    assert_eq!(frames, vec![0, 1, 2, 3]);
    let mapped = vec![7u8; 32];
    for job in &jobs {
        let file = job.render(&mapped).unwrap();
        assert_eq!(file.bytes.len(), b"P6\n4 2\n255\n".len() + 3 * 4 * 2);
    }
}

#[test]
fn frame_limit_stops_capture() {
    let config = LayerConfig::resolve(Some("out"), None, None, Some("2"), None);
    let mut layer = layer_with(config);
    let images = build_images(DEVICE, 2, 0x100);
    let sc = layer.register_swapchain(DEVICE, images, FORMAT_B8G8R8A8_UNORM, Extent { width: 4, height: 2 }).unwrap();
    let jobs = layer.present(&[(sc, 0), (sc, 1), (sc, 0), (sc, 1), (sc, 0)]);
    let frames: Vec<u32> = jobs.iter().map(|j| j.frame).collect();
    assert_eq!(frames, vec![0, 1]);
}

#[test]
fn capture_rule_on_numbers() {
    assert!(should_capture(0, 3, 0));
    assert!(!should_capture(4, 3, 0));
    assert!(should_capture(6, 3, 0));
    assert!(should_capture(5, 0, 0));
    assert!(should_capture(5, 1, 6));
    assert!(!should_capture(6, 1, 6));
}

#[test]
fn unknown_swapchain_and_bad_index_are_skipped() {
    let mut layer = layer_with(default_config());
    let images = build_images(DEVICE, 2, 0x100);
    let sc = layer.register_swapchain(DEVICE, images, FORMAT_B8G8R8A8_UNORM, Extent { width: 4, height: 2 }).unwrap();
    assert!(layer.present(&[(sc + 99, 0)]).is_empty());
    assert!(layer.present(&[(sc, 9)]).is_empty());
    // The bad index still counted a frame.
    assert_eq!(layer.present(&[(sc, 0)])[0].frame, 1);
}

#[test]
fn fabricated_handles_are_unique() {
    let mut layer = layer_with(default_config());
    let s1 = layer.create_headless_surface(INSTANCE).unwrap();
    let s2 = layer.create_headless_surface(INSTANCE).unwrap();
    let images = build_images(DEVICE, 2, 0x100);
    let sc = layer.register_swapchain(DEVICE, images, FORMAT_B8G8R8A8_UNORM, Extent { width: 4, height: 2 }).unwrap();
    assert_eq!(s1, FIRST_HANDLE);
    assert!(s1 != s2 && s2 != sc && s1 != sc);
    let mut counter = HandleCounter::new();
    let a = generate_unique_handle(&mut counter).unwrap();
    let b = generate_unique_handle(&mut counter).unwrap();
    assert_eq!((a, b), (0x1000, 0x1001));
}

#[test]
fn destroying_instance_releases_everything() {
    let mut layer = layer_with(default_config());
    let _surface = layer.create_headless_surface(INSTANCE).unwrap();
    let images = build_images(DEVICE, 2, 0x100);
    let kept = images.clone();
    layer.register_swapchain(DEVICE, images, FORMAT_B8G8R8A8_UNORM, Extent { width: 4, height: 2 }).unwrap();
    let plan = layer.destroy_instance(INSTANCE);
    for img in &kept {
        assert!(plan.contains(&Release::UnmapMemory { device: DEVICE, memory: img.memory }));
        assert!(plan.contains(&Release::FreeMemory { device: DEVICE, memory: img.memory }));
        assert!(plan.contains(&Release::DestroyImage { device: DEVICE, image: img.image }));
    }
    let pool = plan.iter().position(|r| *r == Release::DestroyCommandPool { device: DEVICE, pool: 0x61 }).unwrap();
    let last_image = plan.iter().rposition(|r| matches!(r, Release::DestroyImage { .. })).unwrap();
    assert!(last_image < pool);
    assert_eq!(
        plan[plan.len() - 2],
        Release::DestroyDevice { device: DEVICE, instance: INSTANCE, next_get_instance_proc_addr: 0x11 }
    );
    assert_eq!(
        plan[plan.len() - 1],
        Release::DestroyInstance { instance: INSTANCE, next_get_instance_proc_addr: 0x11 }
    );
    assert!(layer.instance(INSTANCE).is_none());
    assert!(layer.device(DEVICE).is_none());
    assert!(layer.destroy_instance(INSTANCE).is_empty());
}

#[test]
fn swapchain_images_are_released_last_first() {
    let mut layer = layer_with(default_config());
    let images = build_images(DEVICE, 2, 0x100);
    let sc = layer.register_swapchain(DEVICE, images.clone(), FORMAT_B8G8R8A8_UNORM, Extent { width: 4, height: 2 }).unwrap();
    let plan = layer.destroy_swapchain(DEVICE, sc);
    let expected: Vec<Release> = images
        .iter()
        .rev()
        .flat_map(|img| {
            vec![
                Release::UnmapMemory { device: DEVICE, memory: img.memory },
                Release::FreeMemory { device: DEVICE, memory: img.memory },
                Release::DestroyImage { device: DEVICE, image: img.image },
            ]
        })
        .collect();
    assert_eq!(plan, expected);
    assert_eq!(layer.acquire_next_image(DEVICE, sc), Err(ERROR_INITIALIZATION_FAILED));
}

#[test]
fn failed_allocation_rolls_back_in_reverse() {
    let mut b = SwapchainBuilder::new(DEVICE, 2, vec![0x6]);
    b.advance(BuildEvent::ImageCreated { image: 1 });
    b.advance(BuildEvent::Requirements { size: 64, memory_type_bits: 1 });
    b.advance(BuildEvent::MemoryAllocated { memory: 11 });
    b.advance(BuildEvent::MemoryBound);
    b.advance(BuildEvent::MemoryMapped { mapped: 0x7000 });
    assert_eq!(b.advance(BuildEvent::LayoutQueried { row_pitch: 16 }), BuildStep::CreateImage);
    b.advance(BuildEvent::ImageCreated { image: 2 });
    b.advance(BuildEvent::Requirements { size: 64, memory_type_bits: 1 });
    let step = b.advance(BuildEvent::Failed { error: ERROR_OUT_OF_HOST_MEMORY });
    assert_eq!(step, BuildStep::RollBack { error: ERROR_OUT_OF_HOST_MEMORY });
    assert_eq!(
        b.rollback(),
        vec![
            Release::DestroyImage { device: DEVICE, image: 2 },
            Release::UnmapMemory { device: DEVICE, memory: 11 },
            Release::FreeMemory { device: DEVICE, memory: 11 },
            Release::DestroyImage { device: DEVICE, image: 1 },
        ]
    );
}

#[test]
fn no_host_visible_memory_fails_the_build() {
    let mut b = SwapchainBuilder::new(DEVICE, 2, vec![0x1, 0x2]);
    b.advance(BuildEvent::ImageCreated { image: 1 });
    let step = b.advance(BuildEvent::Requirements { size: 64, memory_type_bits: 0b11 });
    assert_eq!(step, BuildStep::RollBack { error: ERROR_OUT_OF_HOST_MEMORY });
    assert_eq!(b.rollback(), vec![Release::DestroyImage { device: DEVICE, image: 1 }]);
}

#[test]
fn repeated_image_handle_fails_the_build() {
    let mut b = SwapchainBuilder::new(DEVICE, 2, vec![0x6]);
    let step = b.advance(BuildEvent::ImageCreated { image: 0 });
    assert_eq!(step, BuildStep::RollBack { error: ERROR_INITIALIZATION_FAILED });
}

#[test]
fn memory_type_needs_both_bits_and_the_mask() {
    let host = ash::vk::MemoryPropertyFlags::HOST_VISIBLE | ash::vk::MemoryPropertyFlags::HOST_COHERENT;
    let local = ash::vk::MemoryPropertyFlags::DEVICE_LOCAL.as_raw();
    let flags = [local, ash::vk::MemoryPropertyFlags::HOST_VISIBLE.as_raw(), host.as_raw(), host.as_raw()];
    assert_eq!(find_host_visible_memory_type(0b1111, &flags), Some(2));
    assert_eq!(find_host_visible_memory_type(0b1000, &flags), Some(3));
    assert_eq!(find_host_visible_memory_type(0b0011, &flags), None);
    assert_eq!(find_host_visible_memory_type(0, &[]), None);
}

#[test]
fn graphics_family_is_first_requested_with_graphics() {
    let graphics = ash::vk::QueueFlags::GRAPHICS.as_raw();
    let compute = ash::vk::QueueFlags::COMPUTE.as_raw();
    let flags = [compute, graphics | compute, graphics];
    assert_eq!(select_graphics_queue_family(&[0, 2, 1], &flags), Some(2));
    assert_eq!(select_graphics_queue_family(&[0, 7], &flags), None);
    assert_eq!(select_graphics_queue_family(&[], &flags), None);
}

#[test]
fn intercepted_names_route_to_the_layer() {
    let layer = layer_with(default_config());
    assert_eq!(layer.instance_proc(INSTANCE, "vkCreateDevice"), ProcRoute::Layer(EntryPoint::CreateDevice));
    assert_eq!(layer.instance_proc(0, "vkCreateInstance"), ProcRoute::Layer(EntryPoint::CreateInstance));
    assert_eq!(
        layer.instance_proc(INSTANCE, "vkCreateHeadlessSurfaceEXT"),
        ProcRoute::Layer(EntryPoint::CreateHeadlessSurfaceEXT)
    );
    assert_eq!(layer.instance_proc(INSTANCE, "vkEnumeratePhysicalDevices"), ProcRoute::Next { get_proc_addr: 0x11 });
    assert_eq!(layer.instance_proc(0, "vkEnumeratePhysicalDevices"), ProcRoute::Unavailable);
    assert_eq!(layer.instance_proc(0x77, "vkEnumeratePhysicalDevices"), ProcRoute::Unavailable);
    assert_eq!(layer.device_proc(DEVICE, "vkQueuePresentKHR"), ProcRoute::Layer(EntryPoint::QueuePresentKHR));
    assert_eq!(layer.device_proc(DEVICE, "vkCmdDraw"), ProcRoute::Next { get_proc_addr: 0x13 });
    assert_eq!(layer.device_proc(0x99, "vkCmdDraw"), ProcRoute::Unavailable);
}

#[test]
fn interface_version_is_capped() {
    assert_eq!(negotiate_interface_version(Some(5)), Ok(2));
    assert_eq!(negotiate_interface_version(Some(2)), Ok(2));
    assert_eq!(negotiate_interface_version(Some(1)), Ok(1));
    assert_eq!(negotiate_interface_version(Some(0)), Err(ERROR_INITIALIZATION_FAILED));
    assert_eq!(negotiate_interface_version(None), Err(ERROR_INITIALIZATION_FAILED));
}

#[test]
fn layer_properties_enumeration() {
    let (status, none) = enumerate_layer_properties(None);
    assert_eq!((status, none.len()), (SUCCESS, 1));
    let (status, records) = enumerate_layer_properties(Some(1));
    assert_eq!(status, SUCCESS);
    assert_eq!(records.len(), 1);
    let name = &records[0].layer_name;
    assert_eq!(name.len(), 256);
    assert_eq!(&name[..23], b"VK_LAYER_PRIVATE_unseen");
    assert!(name[23..].iter().all(|&b| b == 0));
    assert_eq!(records[0].spec_version, ash::vk::API_VERSION_1_0);
    assert_eq!(records[0].implementation_version, 1);
    assert!(records[0].description.starts_with(b"Vulkan frame capture layer for headless environments\0"));
    let (status, empty) = enumerate_layer_properties(Some(0));
    assert_eq!((status, empty.len()), (INCOMPLETE, 0));
}

#[test]
fn extension_properties_enumeration() {
    let (status, all) = enumerate_extension_properties(None, None);
    assert_eq!((status, all.len()), (SUCCESS, 2));
    assert!(all[0].extension_name.starts_with(b"VK_KHR_surface\0"));
    assert_eq!(all[0].spec_version, 25);
    assert!(all[1].extension_name.starts_with(b"VK_EXT_headless_surface\0"));
    assert_eq!(all[1].spec_version, 1);
    let (status, one) = enumerate_extension_properties(Some("VK_LAYER_PRIVATE_unseen"), Some(1));
    assert_eq!((status, one.len()), (INCOMPLETE, 1));
    let (status, other) = enumerate_extension_properties(Some("VK_LAYER_other"), None);
    assert_eq!((status, other.len()), (ERROR_LAYER_NOT_PRESENT, 0));
}

#[test]
fn codes_match_the_vulkan_headers() {
    assert_eq!(SUCCESS, vk::Result::SUCCESS.as_raw());
    assert_eq!(INCOMPLETE, vk::Result::INCOMPLETE.as_raw());
    assert_eq!(ERROR_OUT_OF_HOST_MEMORY, vk::Result::ERROR_OUT_OF_HOST_MEMORY.as_raw());
    assert_eq!(ERROR_INITIALIZATION_FAILED, vk::Result::ERROR_INITIALIZATION_FAILED.as_raw());
    assert_eq!(ERROR_SURFACE_LOST_KHR, vk::Result::ERROR_SURFACE_LOST_KHR.as_raw());
    assert_eq!(FORMAT_B8G8R8A8_UNORM, vk::Format::B8G8R8A8_UNORM.as_raw());
    assert_eq!(unseen::codes::FORMAT_B8G8R8A8_SRGB, vk::Format::B8G8R8A8_SRGB.as_raw());
    assert_eq!(unseen::codes::FORMAT_R8G8B8A8_UNORM, vk::Format::R8G8B8A8_UNORM.as_raw());
    assert_eq!(unseen::codes::FORMAT_R8G8B8A8_SRGB, vk::Format::R8G8B8A8_SRGB.as_raw());
    assert_eq!(unseen::codes::FORMAT_R8G8B8_UNORM, vk::Format::R8G8B8_UNORM.as_raw());
    assert_eq!(unseen::codes::FORMAT_R8G8B8_SRGB, vk::Format::R8G8B8_SRGB.as_raw());
    assert_eq!(unseen::codes::LOADER_INSTANCE_CREATE_INFO, vk::StructureType::LOADER_INSTANCE_CREATE_INFO.as_raw());
    assert_eq!(unseen::codes::IMAGE_USAGE_COLOR_ATTACHMENT, vk::ImageUsageFlags::COLOR_ATTACHMENT.as_raw());
    assert_eq!(unseen::codes::IMAGE_USAGE_TRANSFER_SRC, vk::ImageUsageFlags::TRANSFER_SRC.as_raw());
    assert_eq!(unseen::codes::IMAGE_USAGE_TRANSFER_DST, vk::ImageUsageFlags::TRANSFER_DST.as_raw());
    assert_eq!(unseen::codes::SURFACE_TRANSFORM_IDENTITY, vk::SurfaceTransformFlagsKHR::IDENTITY.as_raw());
    assert_eq!(unseen::codes::COMPOSITE_ALPHA_OPAQUE, vk::CompositeAlphaFlagsKHR::OPAQUE.as_raw());
    assert_eq!(unseen::codes::COLOR_SPACE_SRGB_NONLINEAR, vk::ColorSpaceKHR::SRGB_NONLINEAR.as_raw());
}

#[test]
fn new_devices_go_to_the_newest_instance() {
    let mut layer = layer_with(default_config());
    let link = ChainLink { next_get_instance_proc_addr: 0x21, next_get_device_proc_addr: 0x22 };
    layer.register_instance(0xB0, link, default_config()).unwrap();
    assert_eq!(layer.newest_instance(), Some(0xB0));
    layer.destroy_instance(0xB0);
    assert_eq!(layer.newest_instance(), Some(INSTANCE));
    layer.destroy_instance(INSTANCE);
    assert_eq!(layer.newest_instance(), None);
}

#[test]
fn null_handles_are_not_registered() {
    let mut layer = LayerState::new();
    let link = ChainLink { next_get_instance_proc_addr: 0x11, next_get_device_proc_addr: 0x12 };
    assert_eq!(layer.register_instance(0, link, default_config()), Err(ERROR_INITIALIZATION_FAILED));
    layer.register_instance(INSTANCE, link, default_config()).unwrap();
    assert_eq!(layer.register_device(INSTANCE, 0, 0x90, 0x13, None), Err(ERROR_INITIALIZATION_FAILED));
}
