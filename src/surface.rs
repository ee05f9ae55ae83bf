//! Surfaces that the layer makes up for headless use, and what they report.
use vstd::prelude::*;

use crate::codes::{
    COLOR_SPACE_SRGB_NONLINEAR, COMPOSITE_ALPHA_OPAQUE, FORMAT_B8G8R8A8_SRGB, FORMAT_B8G8R8A8_UNORM,
    FORMAT_R8G8B8A8_SRGB, FORMAT_R8G8B8A8_UNORM, IMAGE_USAGE_COLOR_ATTACHMENT,
    IMAGE_USAGE_TRANSFER_DST, IMAGE_USAGE_TRANSFER_SRC, PRESENT_MODE_FIFO, PRESENT_MODE_IMMEDIATE,
    PRESENT_MODE_MAILBOX, SURFACE_TRANSFORM_IDENTITY,
};

verus! {

/// A width and a height in pixels.
#[derive(Clone, Copy, Debug, PartialEq, Eq, Structural)]
pub struct Extent {
    pub width: u32,
    pub height: u32,
}

/// What a surface reports of the swapchains it accepts.
#[derive(Clone, Copy, Debug, PartialEq, Eq, Structural)]
pub struct SurfaceCapabilities {
    pub min_image_count: u32,
    pub max_image_count: u32,
    pub current_extent: Extent,
    pub min_image_extent: Extent,
    pub max_image_extent: Extent,
    pub max_image_array_layers: u32,
    pub supported_transforms: u32,
    pub current_transform: u32,
    pub supported_composite_alpha: u32,
    pub supported_usage_flags: u32,
}

/// A pixel format and colour space that a surface accepts.
#[derive(Clone, Copy, Debug, PartialEq, Eq, Structural)]
pub struct SurfaceFormat {
    pub format: i32,
    pub color_space: i32,
}

/// A made-up surface of the instance that created it.
#[derive(Debug)]
pub struct SurfaceState {
    pub instance: u64,
    pub capabilities: SurfaceCapabilities,
    pub formats: Vec<SurfaceFormat>,
    pub present_modes: Vec<i32>,
}

/// The capabilities of a headless surface: 1920x1080 now, 1x1 to 4096x4096, two or three
/// images, one layer, identity transform, opaque alpha, colour attachment and transfers.
pub open spec fn headless_capabilities() -> SurfaceCapabilities {
    SurfaceCapabilities {
        min_image_count: 2,
        max_image_count: 3,
        current_extent: Extent { width: 1920, height: 1080 },
        min_image_extent: Extent { width: 1, height: 1 },
        max_image_extent: Extent { width: 4096, height: 4096 },
        max_image_array_layers: 1,
        supported_transforms: SURFACE_TRANSFORM_IDENTITY,
        current_transform: SURFACE_TRANSFORM_IDENTITY,
        supported_composite_alpha: COMPOSITE_ALPHA_OPAQUE,
        supported_usage_flags: IMAGE_USAGE_COLOR_ATTACHMENT | IMAGE_USAGE_TRANSFER_DST
            | IMAGE_USAGE_TRANSFER_SRC,
    }
}

/// The formats of a headless surface: BGRA and RGBA, each in sRGB and UNORM.
pub open spec fn headless_formats() -> Seq<SurfaceFormat> {
    seq![
        SurfaceFormat { format: FORMAT_B8G8R8A8_SRGB, color_space: COLOR_SPACE_SRGB_NONLINEAR },
        SurfaceFormat { format: FORMAT_R8G8B8A8_SRGB, color_space: COLOR_SPACE_SRGB_NONLINEAR },
        SurfaceFormat { format: FORMAT_B8G8R8A8_UNORM, color_space: COLOR_SPACE_SRGB_NONLINEAR },
        SurfaceFormat { format: FORMAT_R8G8B8A8_UNORM, color_space: COLOR_SPACE_SRGB_NONLINEAR },
    ]
}

/// The present modes of a headless surface: FIFO, mailbox, immediate.
pub open spec fn headless_present_modes() -> Seq<i32> {
    seq![PRESENT_MODE_FIFO, PRESENT_MODE_MAILBOX, PRESENT_MODE_IMMEDIATE]
}

impl SurfaceState {
    /// A headless surface of `instance`, with the fixed defaults above.
    pub fn headless(instance: u64) -> (r: SurfaceState)
        ensures
            r.instance == instance,
            r.capabilities == headless_capabilities(),
            r.formats@ == headless_formats(),
            r.present_modes@ == headless_present_modes(),
    {
        let formats = vec![
            SurfaceFormat { format: FORMAT_B8G8R8A8_SRGB, color_space: COLOR_SPACE_SRGB_NONLINEAR },
            SurfaceFormat { format: FORMAT_R8G8B8A8_SRGB, color_space: COLOR_SPACE_SRGB_NONLINEAR },
            SurfaceFormat { format: FORMAT_B8G8R8A8_UNORM, color_space: COLOR_SPACE_SRGB_NONLINEAR },
            SurfaceFormat { format: FORMAT_R8G8B8A8_UNORM, color_space: COLOR_SPACE_SRGB_NONLINEAR },
        ];
        let present_modes = vec![PRESENT_MODE_FIFO, PRESENT_MODE_MAILBOX, PRESENT_MODE_IMMEDIATE];
        assert(formats@ =~= headless_formats());
        assert(present_modes@ =~= headless_present_modes());
        SurfaceState {
            instance,
            capabilities: SurfaceCapabilities {
                min_image_count: 2,
                max_image_count: 3,
                current_extent: Extent { width: 1920, height: 1080 },
                min_image_extent: Extent { width: 1, height: 1 },
                max_image_extent: Extent { width: 4096, height: 4096 },
                max_image_array_layers: 1,
                supported_transforms: SURFACE_TRANSFORM_IDENTITY,
                current_transform: SURFACE_TRANSFORM_IDENTITY,
                supported_composite_alpha: COMPOSITE_ALPHA_OPAQUE,
                supported_usage_flags: IMAGE_USAGE_COLOR_ATTACHMENT | IMAGE_USAGE_TRANSFER_DST
                    | IMAGE_USAGE_TRANSFER_SRC,
            },
            formats,
            present_modes,
        }
    }
}

/// How many records a count-probe call hands back: all of them where the caller passed
/// no output array, else as many as fit in its capacity.
pub open spec fn probe_count(available: nat, capacity: Option<u32>) -> nat {
    match capacity {
        None => available,
        Some(c) => if (c as nat) < available {
            c as nat
        } else {
            available
        },
    }
}

/// The first `probe_count(len, capacity)` records of `records`.
pub fn probe<T: Copy>(records: &Vec<T>, capacity: Option<u32>) -> (r: Vec<T>)
    ensures
        r@ == records@.subrange(0, probe_count(records@.len(), capacity) as int),
{
    let n: usize = match capacity {
        None => records.len(),
        Some(c) => if (c as usize) < records.len() {
            c as usize
        } else {
            records.len()
        },
    };
    let mut r: Vec<T> = Vec::new();
    let mut i: usize = 0;
    while i < n
        invariant
            n <= records@.len(),
            n == probe_count(records@.len(), capacity),
            i <= n,
            r@ == records@.subrange(0, i as int),
        decreases n - i,
    {
        r.push(records[i]);
        assert(r@ =~= records@.subrange(0, i + 1));
        i = i + 1;
    }
    r
}

} // verus!
