//! What the layer tells the loader: the interface version, the layer and its
//! extensions, and which entry points it answers itself.
use vstd::prelude::*;

use crate::codes::{API_VERSION_1_0, ERROR_INITIALIZATION_FAILED, ERROR_LAYER_NOT_PRESENT, INCOMPLETE, SUCCESS};
use crate::text::same_text;
use vstd::string::StringSliceAdditionalSpecFns;

verus! {

/// The newest loader-layer interface version the layer speaks.
pub const MAX_INTERFACE_VERSION: u32 = 2;

/// Agrees on an interface version with the loader, which offers `offered` (`None` when
/// it passed no version at all): the offer capped at 2, or `ERROR_INITIALIZATION_FAILED`
/// where nothing was offered or the offer is 0.
pub fn negotiate_interface_version(offered: Option<u32>) -> (r: Result<u32, i32>)
    ensures
        r == (match offered {
            None => Err(ERROR_INITIALIZATION_FAILED),
            Some(v) => if v >= MAX_INTERFACE_VERSION {
                Ok(MAX_INTERFACE_VERSION)
            } else if v == 1 {
                Ok(1u32)
            } else {
                Err(ERROR_INITIALIZATION_FAILED)
            },
        }),
{
    match offered {
        None => Err(ERROR_INITIALIZATION_FAILED),
        Some(v) => if v >= MAX_INTERFACE_VERSION {
            Ok(MAX_INTERFACE_VERSION)
        } else if v == 1 {
            Ok(1)
        } else {
            Err(ERROR_INITIALIZATION_FAILED)
        },
    }
}

/// An entry point that the layer implements itself.
#[derive(Clone, Copy, Debug, PartialEq, Eq, Structural)]
pub enum EntryPoint {
    GetInstanceProcAddr,
    CreateInstance,
    DestroyInstance,
    CreateDevice,
    EnumerateInstanceLayerProperties,
    EnumerateInstanceExtensionProperties,
    DestroySurfaceKHR,
    GetPhysicalDeviceSurfaceCapabilitiesKHR,
    GetPhysicalDeviceSurfaceFormatsKHR,
    GetPhysicalDeviceSurfacePresentModesKHR,
    GetPhysicalDeviceSurfaceSupportKHR,
    CreateHeadlessSurfaceEXT,
    GetDeviceProcAddr,
    DestroyDevice,
    CreateSwapchainKHR,
    DestroySwapchainKHR,
    GetSwapchainImagesKHR,
    AcquireNextImageKHR,
    QueuePresentKHR,
}

/// The instance-level entry point of the layer with this name, if any.
pub open spec fn spec_instance_entry(name: Seq<char>) -> Option<EntryPoint> {
    if name == "vkGetInstanceProcAddr"@ {
        Some(EntryPoint::GetInstanceProcAddr)
    } else if name == "vkCreateInstance"@ {
        Some(EntryPoint::CreateInstance)
    } else if name == "vkDestroyInstance"@ {
        Some(EntryPoint::DestroyInstance)
    } else if name == "vkCreateDevice"@ {
        Some(EntryPoint::CreateDevice)
    } else if name == "vkEnumerateInstanceLayerProperties"@ {
        Some(EntryPoint::EnumerateInstanceLayerProperties)
    } else if name == "vkEnumerateInstanceExtensionProperties"@ {
        Some(EntryPoint::EnumerateInstanceExtensionProperties)
    } else if name == "vkDestroySurfaceKHR"@ {
        Some(EntryPoint::DestroySurfaceKHR)
    } else if name == "vkGetPhysicalDeviceSurfaceCapabilitiesKHR"@ {
        Some(EntryPoint::GetPhysicalDeviceSurfaceCapabilitiesKHR)
    } else if name == "vkGetPhysicalDeviceSurfaceFormatsKHR"@ {
        Some(EntryPoint::GetPhysicalDeviceSurfaceFormatsKHR)
    } else if name == "vkGetPhysicalDeviceSurfacePresentModesKHR"@ {
        Some(EntryPoint::GetPhysicalDeviceSurfacePresentModesKHR)
    } else if name == "vkGetPhysicalDeviceSurfaceSupportKHR"@ {
        Some(EntryPoint::GetPhysicalDeviceSurfaceSupportKHR)
    } else if name == "vkCreateHeadlessSurfaceEXT"@ {
        Some(EntryPoint::CreateHeadlessSurfaceEXT)
    } else {
        None
    }
}

/// The device-level entry point of the layer with this name, if any.
pub open spec fn spec_device_entry(name: Seq<char>) -> Option<EntryPoint> {
    if name == "vkGetDeviceProcAddr"@ {
        Some(EntryPoint::GetDeviceProcAddr)
    } else if name == "vkDestroyDevice"@ {
        Some(EntryPoint::DestroyDevice)
    } else if name == "vkCreateSwapchainKHR"@ {
        Some(EntryPoint::CreateSwapchainKHR)
    } else if name == "vkDestroySwapchainKHR"@ {
        Some(EntryPoint::DestroySwapchainKHR)
    } else if name == "vkGetSwapchainImagesKHR"@ {
        Some(EntryPoint::GetSwapchainImagesKHR)
    } else if name == "vkAcquireNextImageKHR"@ {
        Some(EntryPoint::AcquireNextImageKHR)
    } else if name == "vkQueuePresentKHR"@ {
        Some(EntryPoint::QueuePresentKHR)
    } else {
        None
    }
}

/// The instance-level entry point that the layer answers for `name`.
pub fn instance_entry(name: &str) -> (r: Option<EntryPoint>)
    ensures
        r == spec_instance_entry(name@),
{
    if same_text(name, "vkGetInstanceProcAddr") {
        Some(EntryPoint::GetInstanceProcAddr)
    } else if same_text(name, "vkCreateInstance") {
        Some(EntryPoint::CreateInstance)
    } else if same_text(name, "vkDestroyInstance") {
        Some(EntryPoint::DestroyInstance)
    } else if same_text(name, "vkCreateDevice") {
        Some(EntryPoint::CreateDevice)
    } else if same_text(name, "vkEnumerateInstanceLayerProperties") {
        Some(EntryPoint::EnumerateInstanceLayerProperties)
    } else if same_text(name, "vkEnumerateInstanceExtensionProperties") {
        Some(EntryPoint::EnumerateInstanceExtensionProperties)
    } else if same_text(name, "vkDestroySurfaceKHR") {
        Some(EntryPoint::DestroySurfaceKHR)
    } else if same_text(name, "vkGetPhysicalDeviceSurfaceCapabilitiesKHR") {
        Some(EntryPoint::GetPhysicalDeviceSurfaceCapabilitiesKHR)
    } else if same_text(name, "vkGetPhysicalDeviceSurfaceFormatsKHR") {
        Some(EntryPoint::GetPhysicalDeviceSurfaceFormatsKHR)
    } else if same_text(name, "vkGetPhysicalDeviceSurfacePresentModesKHR") {
        Some(EntryPoint::GetPhysicalDeviceSurfacePresentModesKHR)
    } else if same_text(name, "vkGetPhysicalDeviceSurfaceSupportKHR") {
        Some(EntryPoint::GetPhysicalDeviceSurfaceSupportKHR)
    } else if same_text(name, "vkCreateHeadlessSurfaceEXT") {
        Some(EntryPoint::CreateHeadlessSurfaceEXT)
    } else {
        None
    }
}

/// The device-level entry point that the layer answers for `name`.
pub fn device_entry(name: &str) -> (r: Option<EntryPoint>)
    ensures
        r == spec_device_entry(name@),
{
    if same_text(name, "vkGetDeviceProcAddr") {
        Some(EntryPoint::GetDeviceProcAddr)
    } else if same_text(name, "vkDestroyDevice") {
        Some(EntryPoint::DestroyDevice)
    } else if same_text(name, "vkCreateSwapchainKHR") {
        Some(EntryPoint::CreateSwapchainKHR)
    } else if same_text(name, "vkDestroySwapchainKHR") {
        Some(EntryPoint::DestroySwapchainKHR)
    } else if same_text(name, "vkGetSwapchainImagesKHR") {
        Some(EntryPoint::GetSwapchainImagesKHR)
    } else if same_text(name, "vkAcquireNextImageKHR") {
        Some(EntryPoint::AcquireNextImageKHR)
    } else if same_text(name, "vkQueuePresentKHR") {
        Some(EntryPoint::QueuePresentKHR)
    } else {
        None
    }
}

/// The name under which the layer is known to the loader.
pub open spec fn spec_layer_name() -> Seq<char> {
    "VK_LAYER_PRIVATE_unseen"@
}

/// A name in a fixed field of 256 bytes: its UTF-8 bytes, cut at 255, then zeros.
pub open spec fn name_field(text: Seq<u8>) -> Seq<u8> {
    Seq::new(256, |i: int| if i < text.len() && i < 255 { text[i] } else { 0u8 })
}

/// Copies a name into a fixed field of 256 bytes that always ends in a zero.
pub fn fixed_name_field(text: &str) -> (r: Vec<u8>)
    ensures
        r@ == name_field(text.spec_bytes()),
        r@.len() == 256,
{
    let bytes = text.as_bytes();
    let mut r: Vec<u8> = Vec::new();
    let mut i: usize = 0;
    while i < 256
        invariant
            i <= 256,
            bytes@ == text.spec_bytes(),
            r@ =~= name_field(text.spec_bytes()).subrange(0, i as int),
        decreases 256 - i,
    {
        if i < bytes.len() && i < 255 {
            r.push(bytes[i]);
        } else {
            r.push(0);
        }
        assert(r@ =~= name_field(text.spec_bytes()).subrange(0, i + 1));
        i = i + 1;
    }
    r
}

/// The record that describes the layer.
pub struct LayerProperties {
    pub layer_name: Vec<u8>,
    pub spec_version: u32,
    pub implementation_version: u32,
    pub description: Vec<u8>,
}

/// The record of one extension the layer offers.
pub struct ExtensionProperties {
    pub extension_name: Vec<u8>,
    pub spec_version: u32,
}

/// The layer's own record: its name, Vulkan 1.0, implementation version 1, its description.
pub fn layer_properties() -> (r: LayerProperties)
    ensures
        r.layer_name@ == name_field("VK_LAYER_PRIVATE_unseen".spec_bytes()),
        r.spec_version == API_VERSION_1_0,
        r.implementation_version == 1,
        r.description@ == name_field(
            "Vulkan frame capture layer for headless environments".spec_bytes(),
        ),
{
    LayerProperties {
        layer_name: fixed_name_field("VK_LAYER_PRIVATE_unseen"),
        spec_version: API_VERSION_1_0,
        implementation_version: 1,
        description: fixed_name_field("Vulkan frame capture layer for headless environments"),
    }
}

/// Answers a layer enumeration. With no output array (`capacity` is `None`) the count
/// is one; with room for none the call is incomplete; else it hands back the record.
pub fn enumerate_layer_properties(capacity: Option<u32>) -> (r: (i32, Vec<LayerProperties>))
    ensures
        capacity == Some(0u32) ==> r.0 == INCOMPLETE && r.1@.len() == 0,
        capacity != Some(0u32) ==> r.0 == SUCCESS && r.1@.len() == 1 && r.1@[0].layer_name@
            == name_field("VK_LAYER_PRIVATE_unseen".spec_bytes()) && r.1@[0].spec_version
            == API_VERSION_1_0 && r.1@[0].implementation_version == 1 && r.1@[0].description@
            == name_field("Vulkan frame capture layer for headless environments".spec_bytes()),
{
    let mut records: Vec<LayerProperties> = Vec::new();
    if capacity == Some(0u32) {
        return (INCOMPLETE, records);
    }
    records.push(layer_properties());
    (SUCCESS, records)
}

/// Answers an extension enumeration for `layer_name` (`None` for the implementation and
/// the implicit layers): `VK_KHR_surface` at version 25 and `VK_EXT_headless_surface` at
/// version 1, as many as fit in `capacity`, `INCOMPLETE` where fewer than both fit.
/// Another layer's name gets `ERROR_LAYER_NOT_PRESENT` and no records.
pub fn enumerate_extension_properties(layer_name: Option<&str>, capacity: Option<u32>) -> (r: (
    i32,
    Vec<ExtensionProperties>,
))
    ensures
        (layer_name matches Some(n) && n@ != spec_layer_name()) ==> r.0 == ERROR_LAYER_NOT_PRESENT
            && r.1@.len() == 0,
        !(layer_name matches Some(n) && n@ != spec_layer_name()) ==> {
            &&& r.1@.len() == (match capacity {
                None => 2,
                Some(c) => if c < 2 {
                    c as nat
                } else {
                    2
                },
            })
            &&& r.0 == (if r.1@.len() < 2 {
                INCOMPLETE
            } else {
                SUCCESS
            })
            &&& r.1@.len() > 0 ==> r.1@[0].extension_name@ == name_field(
                "VK_KHR_surface".spec_bytes(),
            ) && r.1@[0].spec_version == 25
            &&& r.1@.len() > 1 ==> r.1@[1].extension_name@ == name_field(
                "VK_EXT_headless_surface".spec_bytes(),
            ) && r.1@[1].spec_version == 1
        },
{
    let mut records: Vec<ExtensionProperties> = Vec::new();
    match layer_name {
        Some(n) => {
            if !same_text(n, "VK_LAYER_PRIVATE_unseen") {
                return (ERROR_LAYER_NOT_PRESENT, records);
            }
        },
        None => {},
    }
    let room: u32 = match capacity {
        None => 2,
        Some(c) => if c < 2 {
            c
        } else {
            2
        },
    };
    if room > 0 {
        records.push(
            ExtensionProperties {
                extension_name: fixed_name_field("VK_KHR_surface"),
                spec_version: 25,
            },
        );
    }
    if room > 1 {
        records.push(
            ExtensionProperties {
                extension_name: fixed_name_field("VK_EXT_headless_surface"),
                spec_version: 1,
            },
        );
    }
    let status = if records.len() < 2 {
        INCOMPLETE
    } else {
        SUCCESS
    };
    (status, records)
}

} // verus!
