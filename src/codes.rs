//! Numeric codes of the Vulkan ABI that the layer reads or returns.
use vstd::prelude::*;

verus! {

/// `VK_SUCCESS`.
pub const SUCCESS: i32 = 0;

/// `VK_INCOMPLETE`: an enumeration wrote fewer records than exist.
pub const INCOMPLETE: i32 = 5;

/// `VK_ERROR_OUT_OF_HOST_MEMORY`.
pub const ERROR_OUT_OF_HOST_MEMORY: i32 = -1;

/// `VK_ERROR_INITIALIZATION_FAILED`.
pub const ERROR_INITIALIZATION_FAILED: i32 = -3;

/// `VK_ERROR_LAYER_NOT_PRESENT`.
pub const ERROR_LAYER_NOT_PRESENT: i32 = -6;

/// `VK_ERROR_SURFACE_LOST_KHR`.
pub const ERROR_SURFACE_LOST_KHR: i32 = -1000000000;

/// `VK_FORMAT_R8G8B8_UNORM`.
pub const FORMAT_R8G8B8_UNORM: i32 = 23;

/// `VK_FORMAT_R8G8B8_SRGB`.
pub const FORMAT_R8G8B8_SRGB: i32 = 29;

/// `VK_FORMAT_R8G8B8A8_UNORM`.
pub const FORMAT_R8G8B8A8_UNORM: i32 = 37;

/// `VK_FORMAT_R8G8B8A8_SRGB`.
pub const FORMAT_R8G8B8A8_SRGB: i32 = 43;

/// `VK_FORMAT_B8G8R8A8_UNORM`.
pub const FORMAT_B8G8R8A8_UNORM: i32 = 44;

/// `VK_FORMAT_B8G8R8A8_SRGB`.
pub const FORMAT_B8G8R8A8_SRGB: i32 = 50;

/// `VK_COLOR_SPACE_SRGB_NONLINEAR_KHR`.
pub const COLOR_SPACE_SRGB_NONLINEAR: i32 = 0;

/// `VK_PRESENT_MODE_IMMEDIATE_KHR`.
pub const PRESENT_MODE_IMMEDIATE: i32 = 0;

/// `VK_PRESENT_MODE_MAILBOX_KHR`.
pub const PRESENT_MODE_MAILBOX: i32 = 1;

/// `VK_PRESENT_MODE_FIFO_KHR`.
pub const PRESENT_MODE_FIFO: i32 = 2;

/// `VK_MEMORY_PROPERTY_HOST_VISIBLE_BIT`.
pub const MEMORY_PROPERTY_HOST_VISIBLE: u32 = 2;

/// `VK_MEMORY_PROPERTY_HOST_COHERENT_BIT`.
pub const MEMORY_PROPERTY_HOST_COHERENT: u32 = 4;

/// `VK_QUEUE_GRAPHICS_BIT`.
pub const QUEUE_GRAPHICS: u32 = 1;

/// `VK_SURFACE_TRANSFORM_IDENTITY_BIT_KHR`.
pub const SURFACE_TRANSFORM_IDENTITY: u32 = 1;

/// `VK_COMPOSITE_ALPHA_OPAQUE_BIT_KHR`.
pub const COMPOSITE_ALPHA_OPAQUE: u32 = 1;

/// `VK_IMAGE_USAGE_TRANSFER_SRC_BIT`.
pub const IMAGE_USAGE_TRANSFER_SRC: u32 = 1;

/// `VK_IMAGE_USAGE_TRANSFER_DST_BIT`.
pub const IMAGE_USAGE_TRANSFER_DST: u32 = 2;

/// `VK_IMAGE_USAGE_COLOR_ATTACHMENT_BIT`.
pub const IMAGE_USAGE_COLOR_ATTACHMENT: u32 = 16;

/// `VK_API_VERSION_1_0`.
pub const API_VERSION_1_0: u32 = 4194304;

/// `VK_LAYER_LINK_INFO`, the chain-info function that carries the next link.
pub const LAYER_LINK_INFO: i32 = 0;

/// Structure type of the loader's instance chain-info record.
pub const LOADER_INSTANCE_CREATE_INFO: i32 = 47;

} // verus!
