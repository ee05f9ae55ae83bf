//! Host-visible images that stand in for swapchain images: choosing their memory,
//! the order in which the driver is asked to make them, and how they are released.
use vstd::prelude::*;

use crate::codes::{
    ERROR_INITIALIZATION_FAILED, ERROR_OUT_OF_HOST_MEMORY, MEMORY_PROPERTY_HOST_COHERENT,
    MEMORY_PROPERTY_HOST_VISIBLE,
};

verus! {

/// An image in linear layout, bound to host-visible, host-coherent memory that stays
/// mapped for the image's lifetime. `mapped` is the host address that the map call
/// returned; the library never reads through it.
#[derive(Clone, Copy, Debug, PartialEq, Eq, Structural)]
pub struct HostVisibleImage {
    pub image: u64,
    pub memory: u64,
    pub size: u64,
    pub mapped: u64,
    pub row_pitch: u64,
}

/// One driver call that gives a resource back.
#[derive(Clone, Copy, Debug, PartialEq, Eq, Structural)]
pub enum Release {
    UnmapMemory { device: u64, memory: u64 },
    FreeMemory { device: u64, memory: u64 },
    DestroyImage { device: u64, image: u64 },
    DestroyCommandPool { device: u64, pool: u64 },
    DestroyDevice { device: u64, instance: u64, next_get_instance_proc_addr: u64 },
    DestroyInstance { instance: u64, next_get_instance_proc_addr: u64 },
}

/// Whether bit `i` of a memory-type mask is set.
pub open spec fn type_bit_set(type_filter: u32, i: int) -> bool {
    0 <= i < 32 && (type_filter >> (i as u32)) & 1 == 1
}

/// Whether property flags hold both host-visible and host-coherent.
pub open spec fn host_visible_coherent(flags: u32) -> bool {
    flags & (MEMORY_PROPERTY_HOST_VISIBLE | MEMORY_PROPERTY_HOST_COHERENT) == (
    MEMORY_PROPERTY_HOST_VISIBLE | MEMORY_PROPERTY_HOST_COHERENT)
}

/// Memory type `i` is allowed by the mask and is host visible and coherent.
pub open spec fn memory_type_fits(type_filter: u32, flags: Seq<u32>, i: int) -> bool {
    0 <= i < flags.len() && type_bit_set(type_filter, i) && host_visible_coherent(flags[i])
}

/// The first memory type that fits, if any.
pub open spec fn first_fitting_type(type_filter: u32, flags: Seq<u32>) -> Option<u32> {
    if exists|i: int| memory_type_fits(type_filter, flags, i) {
        let i = choose|i: int|
            memory_type_fits(type_filter, flags, i) && forall|j: int|
                0 <= j < i ==> !memory_type_fits(type_filter, flags, j);
        Some(i as u32)
    } else {
        None
    }
}

/// Finds the first memory type whose bit is set in `type_filter` and whose property
/// flags (`memory_type_flags[i]` for type `i`) hold host-visible and host-coherent.
pub fn find_host_visible_memory_type(type_filter: u32, memory_type_flags: &[u32]) -> (r: Option<u32>)
    ensures
        r matches Some(i) ==> memory_type_fits(type_filter, memory_type_flags@, i as int) && forall|
            j: int,
        | 0 <= j < i ==> !memory_type_fits(type_filter, memory_type_flags@, j),
        r is None ==> forall|j: int| !memory_type_fits(type_filter, memory_type_flags@, j),
        r == first_fitting_type(type_filter, memory_type_flags@),
{
    let n = memory_type_flags.len();
    let mut i: usize = 0;
    while i < n && i < 32
        invariant
            i <= n,
            n == memory_type_flags@.len(),
            i <= 32,
            forall|j: int| 0 <= j < i ==> !memory_type_fits(type_filter, memory_type_flags@, j),
        decreases n - i,
    {
        let wanted = MEMORY_PROPERTY_HOST_VISIBLE | MEMORY_PROPERTY_HOST_COHERENT;
        if (type_filter >> (i as u32)) & 1 == 1 && memory_type_flags[i] & wanted == wanted {
            let r = Some(i as u32);
            proof {
                assert(memory_type_fits(type_filter, memory_type_flags@, i as int));
                let k = choose|k: int|
                    memory_type_fits(type_filter, memory_type_flags@, k) && forall|j: int|
                        0 <= j < k ==> !memory_type_fits(type_filter, memory_type_flags@, j);
                assert(k == i as int) by {
                    if k < i {
                    } else if k > i {
                        assert(!memory_type_fits(type_filter, memory_type_flags@, i as int));
                    }
                }
            }
            return r;
        }
        i = i + 1;
    }
    proof {
        assert forall|j: int| !memory_type_fits(type_filter, memory_type_flags@, j) by {
            if 0 <= j < memory_type_flags@.len() && j >= 32 {
                assert(!type_bit_set(type_filter, j));
            }
        }
    }
    None
}

/// The calls that release one image, in order: unmap, free the memory, destroy the image.
pub open spec fn image_release(device: u64, img: HostVisibleImage) -> Seq<Release> {
    seq![
        Release::UnmapMemory { device, memory: img.memory },
        Release::FreeMemory { device, memory: img.memory },
        Release::DestroyImage { device, image: img.image },
    ]
}

/// The calls that release a list of images, the last created first.
pub open spec fn images_release(device: u64, imgs: Seq<HostVisibleImage>) -> Seq<Release>
    decreases imgs.len(),
{
    if imgs.len() == 0 {
        Seq::empty()
    } else {
        image_release(device, imgs.last()) + images_release(device, imgs.drop_last())
    }
}

/// Releases every image of a list, last created first.
pub fn release_images(device: u64, images: &Vec<HostVisibleImage>) -> (r: Vec<Release>)
    ensures
        r@ == images_release(device, images@),
{
    let mut r: Vec<Release> = Vec::new();
    let mut i: usize = images.len();
    assert(images@.subrange(0, i as int) =~= images@);
    assert(r@ + images_release(device, images@) =~= images_release(device, images@));
    while i > 0
        invariant
            i <= images@.len(),
            r@ + images_release(device, images@.subrange(0, i as int)) == images_release(
                device,
                images@,
            ),
        decreases i,
    {
        let ghost prefix = images@.subrange(0, i as int);
        let ghost before = r@;
        let img = images[i - 1];
        assert(prefix.drop_last() =~= images@.subrange(0, i - 1));
        assert(prefix.last() == img);
        r.push(Release::UnmapMemory { device, memory: img.memory });
        r.push(Release::FreeMemory { device, memory: img.memory });
        r.push(Release::DestroyImage { device, image: img.image });
        proof {
            let ghost rest = images_release(device, images@.subrange(0, i - 1));
            assert(images_release(device, prefix) == image_release(device, img) + rest);
            assert(r@ =~= before + image_release(device, img));
            assert(r@ + rest =~= before + (image_release(device, img) + rest));
        }
        i = i - 1;
    }
    assert(images@.subrange(0, 0) =~= Seq::<HostVisibleImage>::empty());
    assert(r@ + Seq::<Release>::empty() =~= r@);
    r
}

/// How many images a swapchain gets for a requested minimum: never fewer than two.
pub open spec fn spec_image_count(min_image_count: u32) -> u32 {
    if min_image_count < 2 {
        2
    } else {
        min_image_count
    }
}

/// Where the making of the current image stands.
#[derive(Clone, Copy, Debug, PartialEq, Eq, Structural)]
pub enum Stage {
    NeedImage,
    NeedRequirements { image: u64 },
    NeedMemory { image: u64, size: u64, memory_type: u32 },
    NeedBind { image: u64, memory: u64, size: u64 },
    NeedMap { image: u64, memory: u64, size: u64 },
    NeedLayout { image: u64, memory: u64, size: u64, mapped: u64 },
    Complete,
}

/// What the driver reported for the call last asked for.
#[derive(Clone, Copy, Debug, PartialEq, Eq, Structural)]
pub enum BuildEvent {
    ImageCreated { image: u64 },
    Requirements { size: u64, memory_type_bits: u32 },
    MemoryAllocated { memory: u64 },
    MemoryBound,
    MemoryMapped { mapped: u64 },
    LayoutQueried { row_pitch: u64 },
    Failed { error: i32 },
}

/// The driver call to make next, or the end of the build.
#[derive(Clone, Copy, Debug, PartialEq, Eq, Structural)]
pub enum BuildStep {
    /// Create a 2D, linear-tiled, single-sample image of the swapchain's format and extent,
    /// usable as colour attachment and transfer source.
    CreateImage,
    QueryRequirements { image: u64 },
    AllocateMemory { size: u64, memory_type: u32 },
    BindMemory { image: u64, memory: u64 },
    MapMemory { memory: u64, size: u64 },
    QueryLayout { image: u64 },
    /// Every image is made: take them with `finish`.
    Finished,
    /// The build failed: give back what `rollback` lists, then report `error`.
    RollBack { error: i32 },
}

/// The step that a stage asks for.
pub open spec fn stage_step(stage: Stage) -> BuildStep {
    match stage {
        Stage::NeedImage => BuildStep::CreateImage,
        Stage::NeedRequirements { image } => BuildStep::QueryRequirements { image },
        Stage::NeedMemory { size, memory_type, .. } => BuildStep::AllocateMemory { size, memory_type },
        Stage::NeedBind { image, memory, .. } => BuildStep::BindMemory { image, memory },
        Stage::NeedMap { memory, size, .. } => BuildStep::MapMemory { memory, size },
        Stage::NeedLayout { image, .. } => BuildStep::QueryLayout { image },
        Stage::Complete => BuildStep::Finished,
    }
}

/// What a stage holds of the image being made, given back in order.
pub open spec fn stage_release(device: u64, stage: Stage) -> Seq<Release> {
    match stage {
        Stage::NeedRequirements { image } => seq![Release::DestroyImage { device, image }],
        Stage::NeedMemory { image, .. } => seq![Release::DestroyImage { device, image }],
        Stage::NeedBind { image, memory, .. } => seq![
            Release::FreeMemory { device, memory },
            Release::DestroyImage { device, image },
        ],
        Stage::NeedMap { image, memory, .. } => seq![
            Release::FreeMemory { device, memory },
            Release::DestroyImage { device, image },
        ],
        Stage::NeedLayout { image, memory, .. } => seq![
            Release::UnmapMemory { device, memory },
            Release::FreeMemory { device, memory },
            Release::DestroyImage { device, image },
        ],
        _ => Seq::empty(),
    }
}

/// Drives the making of a swapchain's host-visible images, one driver call at a time,
/// and lists what to give back when a call fails.
pub struct SwapchainBuilder {
    pub device: u64,
    pub target: u32,
    pub memory_type_flags: Vec<u32>,
    pub images: Vec<HostVisibleImage>,
    pub stage: Stage,
    pub error: Option<i32>,
}

/// The image that a stage has created and not yet finished, if any.
pub open spec fn stage_image(stage: Stage) -> Option<u64> {
    match stage {
        Stage::NeedRequirements { image } => Some(image),
        Stage::NeedMemory { image, .. } => Some(image),
        Stage::NeedBind { image, .. } => Some(image),
        Stage::NeedMap { image, .. } => Some(image),
        Stage::NeedLayout { image, .. } => Some(image),
        _ => None,
    }
}

/// Image handles that are non-null and pairwise distinct.
pub open spec fn distinct_images(images: Seq<HostVisibleImage>) -> bool {
    &&& forall|i: int| 0 <= i < images.len() ==> #[trigger] images[i].image != 0
    &&& forall|i: int, j: int|
        0 <= i < j < images.len() ==> #[trigger] images[i].image != #[trigger] images[j].image
}

impl SwapchainBuilder {
    pub open spec fn wf(&self) -> bool {
        &&& distinct_images(self.images@)
        &&& stage_image(self.stage) matches Some(img) ==> img != 0 && forall|i: int|
            0 <= i < self.images@.len() ==> #[trigger] self.images@[i].image != img
        &&& self.target >= 2
        &&& self.images@.len() < self.target || (self.images@.len() == self.target && self.stage
            == Stage::Complete)
        &&& self.stage == Stage::Complete ==> self.images@.len() == self.target
    }

    /// The step that the builder asks for now.
    pub open spec fn spec_step(&self) -> BuildStep {
        match self.error {
            Some(error) => BuildStep::RollBack { error },
            None => stage_step(self.stage),
        }
    }

    /// Starts a build of `max(min_image_count, 2)` images on `device`, whose memory types
    /// have the property flags `memory_type_flags` (type `i` at index `i`).
    pub fn new(device: u64, min_image_count: u32, memory_type_flags: Vec<u32>) -> (r: Self)
        ensures
            r.wf(),
            r.device == device,
            r.target == spec_image_count(min_image_count),
            r.memory_type_flags@ == memory_type_flags@,
            r.images@.len() == 0,
            r.stage == Stage::NeedImage,
            r.error is None,
            r.spec_step() == BuildStep::CreateImage,
    {
        let target = if min_image_count < 2 {
            2
        } else {
            min_image_count
        };
        SwapchainBuilder {
            device,
            target,
            memory_type_flags,
            images: Vec::new(),
            stage: Stage::NeedImage,
            error: None,
        }
    }

    fn holds_image(&self, image: u64) -> (r: bool)
        ensures
            r == exists|i: int| 0 <= i < self.images@.len() && #[trigger] self.images@[i].image == image,
    {
        let mut i: usize = 0;
        while i < self.images.len()
            invariant
                i <= self.images@.len(),
                forall|j: int| 0 <= j < i ==> #[trigger] self.images@[j].image != image,
            decreases self.images@.len() - i,
        {
            if self.images[i].image == image {
                return true;
            }
            i = i + 1;
        }
        false
    }

    /// The step that the builder asks for now.
    pub fn step(&self) -> (r: BuildStep)
        ensures
            r == self.spec_step(),
    {
        match self.error {
            Some(error) => BuildStep::RollBack { error },
            None => match self.stage {
                Stage::NeedImage => BuildStep::CreateImage,
                Stage::NeedRequirements { image } => BuildStep::QueryRequirements { image },
                Stage::NeedMemory { size, memory_type, .. } => BuildStep::AllocateMemory {
                    size,
                    memory_type,
                },
                Stage::NeedBind { image, memory, .. } => BuildStep::BindMemory { image, memory },
                Stage::NeedMap { memory, size, .. } => BuildStep::MapMemory { memory, size },
                Stage::NeedLayout { image, .. } => BuildStep::QueryLayout { image },
                Stage::Complete => BuildStep::Finished,
            },
        }
    }

    /// Takes in what the driver reported for the step asked for, and returns the next step.
    /// A failure, a report that does not answer the step asked for, or an image handle
    /// that is null or already held, ends the build with a roll-back; a
    /// memory-requirements report that no host-visible, host-coherent
    /// type satisfies ends it with `ERROR_OUT_OF_HOST_MEMORY`.
    pub fn advance(&mut self, event: BuildEvent) -> (r: BuildStep)
        requires
            old(self).wf(),
            old(self).error is None,
            old(self).stage != Stage::Complete,
        ensures
            final(self).wf(),
            r == final(self).spec_step(),
            final(self).device == old(self).device,
            final(self).target == old(self).target,
            final(self).memory_type_flags@ == old(self).memory_type_flags@,
            ({
                let (o, n) = (*old(self), *final(self));
                match (o.stage, event) {
                    (_, BuildEvent::Failed { error }) => n.error == Some(error) && n.stage == o.stage
                        && n.images@ == o.images@,
                    (Stage::NeedImage, BuildEvent::ImageCreated { image }) => n.images@ == o.images@
                        && if image != 0 && forall|i: int|
                        0 <= i < o.images@.len() ==> #[trigger] o.images@[i].image != image {
                        n.error is None && n.stage == (Stage::NeedRequirements { image })
                    } else {
                        n.error == Some(ERROR_INITIALIZATION_FAILED) && n.stage == o.stage
                    },
                    (
                        Stage::NeedRequirements { image },
                        BuildEvent::Requirements { size, memory_type_bits },
                    ) => n.images@ == o.images@ && match first_fitting_type(
                        memory_type_bits,
                        o.memory_type_flags@,
                    ) {
                        Some(t) => n.error is None && n.stage == (Stage::NeedMemory {
                            image,
                            size,
                            memory_type: t,
                        }),
                        None => n.error == Some(ERROR_OUT_OF_HOST_MEMORY) && n.stage == o.stage,
                    },
                    (Stage::NeedMemory { image, size, .. }, BuildEvent::MemoryAllocated { memory }) =>
                        n.error is None && n.stage == (Stage::NeedBind { image, memory, size })
                        && n.images@ == o.images@,
                    (Stage::NeedBind { image, memory, size }, BuildEvent::MemoryBound) => n.error is None
                        && n.stage == (Stage::NeedMap { image, memory, size }) && n.images@ == o.images@,
                    (Stage::NeedMap { image, memory, size }, BuildEvent::MemoryMapped { mapped }) =>
                        n.error is None && n.stage == (Stage::NeedLayout { image, memory, size, mapped })
                        && n.images@ == o.images@,
                    (
                        Stage::NeedLayout { image, memory, size, mapped },
                        BuildEvent::LayoutQueried { row_pitch },
                    ) => n.error is None && n.images@ == o.images@.push(
                        HostVisibleImage { image, memory, size, mapped, row_pitch },
                    ) && n.stage == (if n.images@.len() == o.target {
                        Stage::Complete
                    } else {
                        Stage::NeedImage
                    }),
                    _ => n.error == Some(ERROR_INITIALIZATION_FAILED) && n.stage == o.stage
                        && n.images@ == o.images@,
                }
            }),
    {
        match (self.stage, event) {
            (_, BuildEvent::Failed { error }) => {
                self.error = Some(error);
            },
            (Stage::NeedImage, BuildEvent::ImageCreated { image }) => {
                if image != 0 && !self.holds_image(image) {
                    self.stage = Stage::NeedRequirements { image };
                } else {
                    self.error = Some(ERROR_INITIALIZATION_FAILED);
                }
            },
            (Stage::NeedRequirements { image }, BuildEvent::Requirements { size, memory_type_bits }) => {
                match find_host_visible_memory_type(memory_type_bits, self.memory_type_flags.as_slice()) {
                    Some(t) => {
                        self.stage = Stage::NeedMemory { image, size, memory_type: t };
                    },
                    None => {
                        self.error = Some(ERROR_OUT_OF_HOST_MEMORY);
                    },
                }
            },
            (Stage::NeedMemory { image, size, .. }, BuildEvent::MemoryAllocated { memory }) => {
                self.stage = Stage::NeedBind { image, memory, size };
            },
            (Stage::NeedBind { image, memory, size }, BuildEvent::MemoryBound) => {
                self.stage = Stage::NeedMap { image, memory, size };
            },
            (Stage::NeedMap { image, memory, size }, BuildEvent::MemoryMapped { mapped }) => {
                self.stage = Stage::NeedLayout { image, memory, size, mapped };
            },
            (Stage::NeedLayout { image, memory, size, mapped }, BuildEvent::LayoutQueried { row_pitch }) => {
                self.images.push(HostVisibleImage { image, memory, size, mapped, row_pitch });
                if self.images.len() == self.target as usize {
                    self.stage = Stage::Complete;
                } else {
                    self.stage = Stage::NeedImage;
                }
            },
            _ => {
                self.error = Some(ERROR_INITIALIZATION_FAILED);
            },
        }
        self.step()
    }

    /// What to give back when the build is abandoned: what the image being made holds,
    /// then every finished image, the last made first.
    pub fn rollback(&self) -> (r: Vec<Release>)
        ensures
            r@ == stage_release(self.device, self.stage) + images_release(self.device, self.images@),
    {
        let device = self.device;
        let mut r: Vec<Release> = Vec::new();
        match self.stage {
            Stage::NeedRequirements { image } => {
                r.push(Release::DestroyImage { device, image });
            },
            Stage::NeedMemory { image, .. } => {
                r.push(Release::DestroyImage { device, image });
            },
            Stage::NeedBind { image, memory, .. } => {
                r.push(Release::FreeMemory { device, memory });
                r.push(Release::DestroyImage { device, image });
            },
            Stage::NeedMap { image, memory, .. } => {
                r.push(Release::FreeMemory { device, memory });
                r.push(Release::DestroyImage { device, image });
            },
            Stage::NeedLayout { image, memory, .. } => {
                r.push(Release::UnmapMemory { device, memory });
                r.push(Release::FreeMemory { device, memory });
                r.push(Release::DestroyImage { device, image });
            },
            _ => {},
        }
        assert(r@ =~= stage_release(device, self.stage));
        let mut rest = release_images(device, &self.images);
        r.append(&mut rest);
        r
    }

    /// The finished images, in the order they were made.
    pub fn finish(self) -> (r: Vec<HostVisibleImage>)
        requires
            self.wf(),
            self.spec_step() == BuildStep::Finished,
        ensures
            r@ == self.images@,
            r@.len() == self.target,
            distinct_images(r@),
    {
        self.images
    }
}

} // verus!
