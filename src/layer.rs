//! The layer's state: live instances, devices, surfaces and swapchains, keyed by handle,
//! and the decisions that the intercepted entry points make on it.
use vstd::prelude::*;

use crate::codes::{
    ERROR_INITIALIZATION_FAILED, ERROR_SURFACE_LOST_KHR, LAYER_LINK_INFO, LOADER_INSTANCE_CREATE_INFO,
    QUEUE_GRAPHICS,
};
use crate::config::LayerConfig;
use crate::dispatch::{device_entry, instance_entry, spec_device_entry, spec_instance_entry, EntryPoint};
use crate::host_image::{distinct_images, spec_image_count, HostVisibleImage};
use crate::surface::{headless_capabilities, headless_formats, headless_present_modes, probe, probe_count, Extent, SurfaceCapabilities, SurfaceFormat, SurfaceState};
use crate::table::Table;

verus! {

/// The first handle that the layer makes up for a surface or a swapchain.
pub const FIRST_HANDLE: u64 = 0x1000;

/// Hands out made-up handles, counting up from `FIRST_HANDLE`.
pub struct HandleCounter {
    pub next: u64,
    /// Every handle handed out so far.
    pub issued: Ghost<Set<u64>>,
}

impl HandleCounter {
    pub open spec fn wf(&self) -> bool {
        &&& self.next >= FIRST_HANDLE
        &&& forall|h: u64| #[trigger] self.issued@.contains(h) ==> FIRST_HANDLE <= h < self.next
    }

    pub fn new() -> (r: HandleCounter)
        ensures
            r.wf(),
            r.next == FIRST_HANDLE,
            r.issued@ == Set::<u64>::empty(),
    {
        HandleCounter { next: FIRST_HANDLE, issued: Ghost(Set::empty()) }
    }
}

/// Draws a fresh handle: each value from `FIRST_HANDLE` up is handed out once, in
/// order. `None` once the values have run out.
pub fn generate_unique_handle(counter: &mut HandleCounter) -> (r: Option<u64>)
    requires
        old(counter).wf(),
    ensures
        final(counter).wf(),
        r matches Some(h) ==> h == old(counter).next && !old(counter).issued@.contains(h) && final(counter).issued@ == old(counter).issued@.insert(h) && final(counter).next == h + 1,
        r is None ==> old(counter).next == u64::MAX && *final(counter) == *old(counter),
{
    if counter.next == u64::MAX {
        return None;
    }
    let h = counter.next;
    counter.next = h + 1;
    counter.issued = Ghost(counter.issued@.insert(h));
    Some(h)
}

/// The next layer's two entry points, as the loader's chain record gives them.
#[derive(Clone, Copy, Debug, PartialEq, Eq, Structural)]
pub struct ChainLink {
    pub next_get_instance_proc_addr: u64,
    pub next_get_device_proc_addr: u64,
}

/// One structure of an instance-create chain: its type, and for the loader's
/// chain-info structure, its function and the link it points to, if any.
#[derive(Clone, Copy, Debug, PartialEq, Eq, Structural)]
pub struct ChainRecord {
    pub s_type: i32,
    pub function: i32,
    pub link: Option<ChainLink>,
}

/// A chain record that carries a link to the next layer with both entry points set.
pub open spec fn usable_link(record: ChainRecord) -> bool {
    &&& record.s_type == LOADER_INSTANCE_CREATE_INFO
    &&& record.function == LAYER_LINK_INFO
    &&& record.link matches Some(l) && l.next_get_instance_proc_addr != 0
        && l.next_get_device_proc_addr != 0
}

/// Finds the link to the next layer in an instance-create chain: the first link-info
/// record whose entry points are both set.
pub fn get_chain_info(records: &[ChainRecord]) -> (r: Option<ChainLink>)
    ensures
        r matches Some(l) ==> exists|i: int|
            0 <= i < records@.len() && usable_link(#[trigger] records@[i]) && records@[i].link
                == Some(l) && forall|j: int| 0 <= j < i ==> !usable_link(#[trigger] records@[j]),
        r is None ==> forall|i: int| 0 <= i < records@.len() ==> !usable_link(#[trigger] records@[i]),
{
    let mut i: usize = 0;
    while i < records.len()
        invariant
            i <= records@.len(),
            forall|j: int| 0 <= j < i ==> !usable_link(#[trigger] records@[j]),
        decreases records@.len() - i,
    {
        let rec = records[i];
        if rec.s_type == LOADER_INSTANCE_CREATE_INFO && rec.function == LAYER_LINK_INFO {
            match rec.link {
                Some(l) => {
                    if l.next_get_instance_proc_addr != 0 && l.next_get_device_proc_addr != 0 {
                        assert(usable_link(records@[i as int]));
                        return Some(l);
                    }
                },
                None => {},
            }
        }
        i = i + 1;
    }
    None
}

/// A created instance.
#[derive(Debug)]
pub struct InstanceState {
    pub next_get_instance_proc_addr: u64,
    pub next_get_device_proc_addr: u64,
    pub config: LayerConfig,
}

/// The graphics queue of a device, and the command pool made on its family if that worked.
#[derive(Clone, Copy, Debug, PartialEq, Eq, Structural)]
pub struct GraphicsQueue {
    pub family: u32,
    pub queue: u64,
    pub command_pool: Option<u64>,
}

/// A created device.
#[derive(Clone, Copy, Debug, PartialEq, Eq, Structural)]
pub struct DeviceState {
    pub instance: u64,
    pub physical_device: u64,
    pub next_get_device_proc_addr: u64,
    /// Presents counted on this device so far, wrapping at 2^32.
    pub frame_counter: u32,
    pub graphics: Option<GraphicsQueue>,
}

/// A swapchain on a headless surface: images of the layer's own.
#[derive(Debug)]
pub struct SwapchainState {
    pub device: u64,
    pub images: Vec<HostVisibleImage>,
    pub format: i32,
    pub extent: Extent,
}

/// Where a request for an entry point goes.
#[derive(Clone, Copy, Debug, PartialEq, Eq, Structural)]
pub enum ProcRoute {
    /// The layer answers it itself.
    Layer(EntryPoint),
    /// Ask the next layer's `GetInstanceProcAddr` or `GetDeviceProcAddr`.
    Next { get_proc_addr: u64 },
    /// Nobody answers it.
    Unavailable,
}

/// Picks the graphics queue family of a device create: the first requested family
/// (`requested`, in the order of the create's queue list) that exists and whose flags
/// (`family_flags[f]` for family `f`) hold the graphics bit.
pub fn select_graphics_queue_family(requested: &[u32], family_flags: &[u32]) -> (r: Option<u32>)
    ensures
        r matches Some(f) ==> exists|i: int|
            0 <= i < requested@.len() && requested@[i] == f && graphics_family(
                family_flags@,
                f,
            ) && forall|j: int| 0 <= j < i ==> !graphics_family(family_flags@, #[trigger] requested@[j]),
        r is None ==> forall|i: int|
            0 <= i < requested@.len() ==> !graphics_family(family_flags@, #[trigger] requested@[i]),
{
    let mut i: usize = 0;
    while i < requested.len()
        invariant
            i <= requested@.len(),
            forall|j: int| 0 <= j < i ==> !graphics_family(family_flags@, #[trigger] requested@[j]),
        decreases requested@.len() - i,
    {
        let f = requested[i];
        if (f as usize) < family_flags.len() && family_flags[f as usize] & QUEUE_GRAPHICS != 0 {
            return Some(f);
        }
        i = i + 1;
    }
    None
}

/// Family `f` exists and can do graphics.
pub open spec fn graphics_family(family_flags: Seq<u32>, f: u32) -> bool {
    (f as int) < family_flags.len() && family_flags[f as int] & QUEUE_GRAPHICS != 0
}

/// Everything the layer keeps between calls.
pub struct LayerState {
    pub instances: Table<InstanceState>,
    pub devices: Table<DeviceState>,
    pub surfaces: Table<SurfaceState>,
    pub swapchains: Table<SwapchainState>,
    pub handles: HandleCounter,
}

impl LayerState {
    /// Every record belongs to a live parent, every made-up handle was drawn from the
    /// counter, and every swapchain holds two or more distinct images.
    pub open spec fn wf(&self) -> bool {
        &&& self.instances.wf()
        &&& self.devices.wf()
        &&& !self.instances@.contains_key(0)
        &&& !self.devices@.contains_key(0)
        &&& self.surfaces.wf()
        &&& self.swapchains.wf()
        &&& self.handles.wf()
        &&& forall|d: u64| #[trigger]
            self.devices@.contains_key(d) ==> self.instances@.contains_key(self.devices@[d].instance)
        &&& forall|s: u64| #[trigger]
            self.surfaces@.contains_key(s) ==> self.instances@.contains_key(self.surfaces@[s].instance)
                && self.handles.issued@.contains(s)
        &&& forall|c: u64| #[trigger]
            self.swapchains@.contains_key(c) ==> self.devices@.contains_key(
                self.swapchains@[c].device,
            ) && self.handles.issued@.contains(c) && self.swapchains@[c].images@.len() >= 2
                && self.swapchains@[c].images@.len() <= u32::MAX && distinct_images(
                self.swapchains@[c].images@,
            )
    }

    /// A layer with nothing created yet.
    pub fn new() -> (r: LayerState)
        ensures
            r.wf(),
            r.instances@ == Map::<u64, InstanceState>::empty(),
            r.devices@ == Map::<u64, DeviceState>::empty(),
            r.surfaces@ == Map::<u64, SurfaceState>::empty(),
            r.swapchains@ == Map::<u64, SwapchainState>::empty(),
            r.handles.next == FIRST_HANDLE,
            r.handles.issued@ == Set::<u64>::empty(),
    {
        LayerState {
            instances: Table::new(),
            devices: Table::new(),
            surfaces: Table::new(),
            swapchains: Table::new(),
            handles: HandleCounter::new(),
        }
    }

    /// Records an instance that the next layer created. `ERROR_INITIALIZATION_FAILED`
    /// where the handle is null or already recorded, and nothing changes.
    pub fn register_instance(&mut self, instance: u64, link: ChainLink, config: LayerConfig) -> (r:
        Result<(), i32>)
        requires
            old(self).wf(),
        ensures
            final(self).wf(),
            final(self).devices@ == old(self).devices@,
            final(self).surfaces@ == old(self).surfaces@,
            final(self).swapchains@ == old(self).swapchains@,
            final(self).handles == old(self).handles,
            (instance == 0 || old(self).instances@.contains_key(instance)) ==> r == Err::<(), i32>(
                ERROR_INITIALIZATION_FAILED,
            ) && final(self).instances@ == old(self).instances@,
            !(instance == 0 || old(self).instances@.contains_key(instance)) ==> r is Ok && final(self).instances.key_order()
                == old(self).instances.key_order().push(instance) && final(self).instances@
                == old(self).instances@.insert(
                instance,
                InstanceState {
                    next_get_instance_proc_addr: link.next_get_instance_proc_addr,
                    next_get_device_proc_addr: link.next_get_device_proc_addr,
                    config,
                },
            ),
    {
        if instance == 0 || self.instances.contains(instance) {
            return Err(ERROR_INITIALIZATION_FAILED);
        }
        self.instances.insert(
            instance,
            InstanceState {
                next_get_instance_proc_addr: link.next_get_instance_proc_addr,
                next_get_device_proc_addr: link.next_get_device_proc_addr,
                config,
            },
        );
        Ok(())
    }

    /// The instance that a new device belongs to: the most recently created live one.
    pub fn newest_instance(&self) -> (r: Option<u64>)
        requires
            self.wf(),
        ensures
            r == (if self.instances.key_order().len() == 0 {
                None
            } else {
                Some(self.instances.key_order().last())
            }),
            r matches Some(h) ==> self.instances@.contains_key(h),
            r is None ==> self.instances@.dom().is_empty(),
    {
        let keys = self.instances.keys();
        if keys.len() == 0 {
            assert(self.instances@.dom() =~= Set::<u64>::empty());
            None
        } else {
            Some(keys[keys.len() - 1])
        }
    }

    /// The record of a live instance.
    pub fn instance(&self, instance: u64) -> (r: Option<&InstanceState>)
        requires
            self.wf(),
        ensures
            r matches Some(s) ==> self.instances@.contains_key(instance) && self.instances@[instance]
                == *s,
            r is None ==> !self.instances@.contains_key(instance),
    {
        self.instances.get(instance)
    }

    /// The record of a live device.
    pub fn device(&self, device: u64) -> (r: Option<DeviceState>)
        requires
            self.wf(),
        ensures
            r matches Some(s) ==> self.devices@.contains_key(device) && self.devices@[device] == s,
            r is None ==> !self.devices@.contains_key(device),
    {
        match self.devices.get(device) {
            Some(d) => Some(*d),
            None => None,
        }
    }

    /// Where `GetInstanceProcAddr(instance, name)` goes: to the layer for its own
    /// entry points, whatever the instance; else to the next layer of a live instance;
    /// else nowhere.
    pub fn instance_proc(&self, instance: u64, name: &str) -> (r: ProcRoute)
        requires
            self.wf(),
        ensures
            r == (match spec_instance_entry(name@) {
                Some(e) => ProcRoute::Layer(e),
                None => if instance != 0 && self.instances@.contains_key(instance) {
                    ProcRoute::Next {
                        get_proc_addr: self.instances@[instance].next_get_instance_proc_addr,
                    }
                } else {
                    ProcRoute::Unavailable
                },
            }),
    {
        match instance_entry(name) {
            Some(e) => ProcRoute::Layer(e),
            None => {
                if instance == 0 {
                    return ProcRoute::Unavailable;
                }
                match self.instances.get(instance) {
                    Some(s) => ProcRoute::Next { get_proc_addr: s.next_get_instance_proc_addr },
                    None => ProcRoute::Unavailable,
                }
            },
        }
    }

    /// Where `GetDeviceProcAddr(device, name)` goes: to the layer for its own
    /// device-level entry points; else to the next layer of a live device; else nowhere.
    pub fn device_proc(&self, device: u64, name: &str) -> (r: ProcRoute)
        requires
            self.wf(),
        ensures
            r == (match spec_device_entry(name@) {
                Some(e) => ProcRoute::Layer(e),
                None => if device != 0 && self.devices@.contains_key(device) {
                    ProcRoute::Next { get_proc_addr: self.devices@[device].next_get_device_proc_addr }
                } else {
                    ProcRoute::Unavailable
                },
            }),
    {
        match device_entry(name) {
            Some(e) => ProcRoute::Layer(e),
            None => {
                if device == 0 {
                    return ProcRoute::Unavailable;
                }
                match self.devices.get(device) {
                    Some(s) => ProcRoute::Next { get_proc_addr: s.next_get_device_proc_addr },
                    None => ProcRoute::Unavailable,
                }
            },
        }
    }

    /// Makes up a headless surface for a live instance. `ERROR_INITIALIZATION_FAILED`
    /// for an unknown instance or when handles have run out.
    pub fn create_headless_surface(&mut self, instance: u64) -> (r: Result<u64, i32>)
        requires
            old(self).wf(),
        ensures
            final(self).wf(),
            final(self).instances@ == old(self).instances@,
            final(self).devices@ == old(self).devices@,
            final(self).swapchains@ == old(self).swapchains@,
            r matches Ok(h) ==> old(self).instances@.contains_key(instance) && h == old(self).handles.next
                && final(self).handles.next == h + 1 && !old(self).handles.issued@.contains(h) && final(self).handles.issued@ == old(self).handles.issued@.insert(h) && final(self).surfaces@.dom() == old(self).surfaces@.dom().insert(h) && final(self).surfaces@[h].instance == instance
                && final(self).surfaces@[h].capabilities == headless_capabilities()
                && final(self).surfaces@[h].formats@ == headless_formats()
                && final(self).surfaces@[h].present_modes@ == headless_present_modes()
                && forall|s: u64|
                #![trigger final(self).surfaces@[s]]
                s != h && old(self).surfaces@.contains_key(s) ==> final(self).surfaces@[s] == old(self).surfaces@[s],
            r matches Err(e) ==> e == ERROR_INITIALIZATION_FAILED && final(self).handles == old(self).handles
                && final(self).surfaces@ == old(self).surfaces@ && (!old(self).instances@.contains_key(instance) || old(self).handles.next
                == u64::MAX),
            old(self).instances@.contains_key(instance) && old(self).handles.next < u64::MAX ==> r is Ok,
    {
        if !self.instances.contains(instance) {
            return Err(ERROR_INITIALIZATION_FAILED);
        }
        match generate_unique_handle(&mut self.handles) {
            Some(h) => {
                proof {
                    assert(!old(self).surfaces@.contains_key(h));
                }
                self.surfaces.insert(h, SurfaceState::headless(instance));
                proof {
                    assert forall|c: u64| #[trigger]
                        self.swapchains@.contains_key(c) implies self.handles.issued@.contains(c) by {
                        assert(old(self).handles.issued@.contains(c));
                    }
                    assert forall|s: u64| #[trigger]
                        self.surfaces@.contains_key(s) implies self.instances@.contains_key(
                        self.surfaces@[s].instance,
                    ) && self.handles.issued@.contains(s) by {
                        if s != h {
                            assert(old(self).surfaces@.contains_key(s));
                        }
                    }
                    assert(self.surfaces@.dom() =~= old(self).surfaces@.dom().insert(h));
                }
                Ok(h)
            },
            None => Err(ERROR_INITIALIZATION_FAILED),
        }
    }

    /// Forgets a surface of `instance`; any other handle is ignored.
    pub fn destroy_surface(&mut self, instance: u64, surface: u64)
        requires
            old(self).wf(),
        ensures
            final(self).wf(),
            final(self).instances@ == old(self).instances@,
            final(self).devices@ == old(self).devices@,
            final(self).swapchains@ == old(self).swapchains@,
            final(self).handles == old(self).handles,
            final(self).surfaces@ == if old(self).surfaces@.contains_key(surface) && old(self).surfaces@[surface].instance == instance {
                old(self).surfaces@.remove(surface)
            } else {
                old(self).surfaces@
            },
    {
        let owned = match self.surfaces.get(surface) {
            Some(s) => s.instance == instance,
            None => false,
        };
        if owned {
            self.surfaces.remove(surface);
        }
    }

    /// The capabilities of a made-up surface; `ERROR_SURFACE_LOST_KHR` for another handle.
    pub fn surface_capabilities(&self, surface: u64) -> (r: Result<SurfaceCapabilities, i32>)
        requires
            self.wf(),
        ensures
            r == (if self.surfaces@.contains_key(surface) {
                Ok(self.surfaces@[surface].capabilities)
            } else {
                Err(ERROR_SURFACE_LOST_KHR)
            }),
    {
        match self.surfaces.get(surface) {
            Some(s) => Ok(s.capabilities),
            None => Err(ERROR_SURFACE_LOST_KHR),
        }
    }

    /// The formats of a made-up surface, as many as `capacity` holds (all where the
    /// caller passed no array); `ERROR_SURFACE_LOST_KHR` for another handle.
    pub fn surface_formats(&self, surface: u64, capacity: Option<u32>) -> (r: Result<
        Vec<SurfaceFormat>,
        i32,
    >)
        requires
            self.wf(),
        ensures
            r matches Ok(v) ==> self.surfaces@.contains_key(surface) && v@ == self.surfaces@[
                surface
            ].formats@.subrange(
                0,
                probe_count(self.surfaces@[surface].formats@.len(), capacity) as int,
            ),
            r matches Err(e) ==> e == ERROR_SURFACE_LOST_KHR && !self.surfaces@.contains_key(
                surface,
            ),
    {
        match self.surfaces.get(surface) {
            Some(s) => Ok(probe(&s.formats, capacity)),
            None => Err(ERROR_SURFACE_LOST_KHR),
        }
    }

    /// The present modes of a made-up surface, as many as `capacity` holds (all where
    /// the caller passed no array); `ERROR_SURFACE_LOST_KHR` for another handle.
    pub fn surface_present_modes(&self, surface: u64, capacity: Option<u32>) -> (r: Result<
        Vec<i32>,
        i32,
    >)
        requires
            self.wf(),
        ensures
            r matches Ok(v) ==> self.surfaces@.contains_key(surface) && v@ == self.surfaces@[
                surface
            ].present_modes@.subrange(
                0,
                probe_count(self.surfaces@[surface].present_modes@.len(), capacity) as int,
            ),
            r matches Err(e) ==> e == ERROR_SURFACE_LOST_KHR && !self.surfaces@.contains_key(
                surface,
            ),
    {
        match self.surfaces.get(surface) {
            Some(s) => Ok(probe(&s.present_modes, capacity)),
            None => Err(ERROR_SURFACE_LOST_KHR),
        }
    }

    /// Records a device that the next layer created for `instance`, with a frame counter
    /// at zero. `ERROR_INITIALIZATION_FAILED` for an unknown instance or a device
    /// already recorded, and nothing changes.
    pub fn register_device(
        &mut self,
        instance: u64,
        device: u64,
        physical_device: u64,
        next_get_device_proc_addr: u64,
        graphics: Option<GraphicsQueue>,
    ) -> (r: Result<(), i32>)
        requires
            old(self).wf(),
        ensures
            final(self).wf(),
            final(self).instances@ == old(self).instances@,
            final(self).surfaces@ == old(self).surfaces@,
            final(self).swapchains@ == old(self).swapchains@,
            final(self).handles == old(self).handles,
            (device != 0 && old(self).instances@.contains_key(instance) && !old(self).devices@.contains_key(
                device,
            )) ==> r is Ok && final(self).devices@ == old(self).devices@.insert(
                device,
                DeviceState {
                    instance,
                    physical_device,
                    next_get_device_proc_addr,
                    frame_counter: 0,
                    graphics,
                },
            ),
            !(device != 0 && old(self).instances@.contains_key(instance) && !old(self).devices@.contains_key(
                device,
            )) ==> r == Err::<(), i32>(ERROR_INITIALIZATION_FAILED) && final(self).devices@ == old(self).devices@,
    {
        if device == 0 || !self.instances.contains(instance) || self.devices.contains(device) {
            return Err(ERROR_INITIALIZATION_FAILED);
        }
        self.devices.insert(
            device,
            DeviceState {
                instance,
                physical_device,
                next_get_device_proc_addr,
                frame_counter: 0,
                graphics,
            },
        );
        proof {
            assert forall|c: u64| #[trigger] self.swapchains@.contains_key(c) implies self.devices@.contains_key(
                self.swapchains@[c].device,
            ) by {
                assert(old(self).devices@.contains_key(self.swapchains@[c].device));
            }
        }
        Ok(())
    }

    /// Records a swapchain of a live device over images made for it, under a fresh handle.
    /// `ERROR_INITIALIZATION_FAILED` for an unknown device, fewer than two images, images
    /// that are null or repeated, or when handles have run out; nothing changes then.
    pub fn register_swapchain(
        &mut self,
        device: u64,
        images: Vec<HostVisibleImage>,
        format: i32,
        extent: Extent,
    ) -> (r: Result<u64, i32>)
        requires
            old(self).wf(),
        ensures
            final(self).wf(),
            final(self).instances@ == old(self).instances@,
            final(self).devices@ == old(self).devices@,
            final(self).surfaces@ == old(self).surfaces@,
            r matches Ok(h) ==> h == old(self).handles.next && final(self).handles.next == h + 1
                && !old(self).handles.issued@.contains(h) && final(self).handles.issued@ == old(self).handles.issued@.insert(h) && final(self).swapchains@
                == old(self).swapchains@.insert(
                h,
                SwapchainState { device, images, format, extent },
            ),
            r matches Err(e) ==> e == ERROR_INITIALIZATION_FAILED && final(self).handles == old(self).handles
                && final(self).swapchains@ == old(self).swapchains@,
            (old(self).devices@.contains_key(device) && 2 <= images@.len() <= u32::MAX
                && distinct_images(images@) && old(self).handles.next < u64::MAX) <==> r is Ok,
    {
        if !self.devices.contains(device) || images.len() < 2 || images.len() > 0xffff_ffff
            || !images_distinct(&images) {
            return Err(ERROR_INITIALIZATION_FAILED);
        }
        match generate_unique_handle(&mut self.handles) {
            Some(h) => {
                proof {
                    assert(!old(self).swapchains@.contains_key(h));
                }
                let ghost state = SwapchainState { device, images, format, extent };
                self.swapchains.insert(h, SwapchainState { device, images, format, extent });
                proof {
                    assert forall|s: u64| #[trigger] self.surfaces@.contains_key(s) implies self.handles.issued@.contains(
                        s,
                    ) by {
                        assert(old(self).handles.issued@.contains(s));
                    }
                    assert forall|c: u64| #[trigger]
                        self.swapchains@.contains_key(c) implies self.devices@.contains_key(
                        self.swapchains@[c].device,
                    ) && self.handles.issued@.contains(c) && self.swapchains@[c].images@.len() >= 2
                        && self.swapchains@[c].images@.len() <= u32::MAX && distinct_images(
                        self.swapchains@[c].images@,
                    ) by {
                        if c != h {
                            assert(old(self).swapchains@.contains_key(c));
                        }
                    }
                }
                Ok(h)
            },
            None => Err(ERROR_INITIALIZATION_FAILED),
        }
    }

    /// The image handles of a swapchain of `device`, as many as `capacity` holds (all
    /// where the caller passed no array). `ERROR_INITIALIZATION_FAILED` for an unknown
    /// swapchain or one of another device.
    pub fn swapchain_images(&self, device: u64, swapchain: u64, capacity: Option<u32>) -> (r: Result<
        Vec<u64>,
        i32,
    >)
        requires
            self.wf(),
        ensures
            r matches Ok(v) ==> self.swapchains@.contains_key(swapchain) && self.swapchains@[
                swapchain
            ].device == device && v@.len() == probe_count(
                self.swapchains@[swapchain].images@.len(),
                capacity,
            ) && forall|i: int|
                0 <= i < v@.len() ==> #[trigger] v@[i] == self.swapchains@[swapchain].images@[i].image,
            r matches Err(e) ==> e == ERROR_INITIALIZATION_FAILED && !(self.swapchains@.contains_key(
                swapchain,
            ) && self.swapchains@[swapchain].device == device),
    {
        let sc = match self.swapchains.get(swapchain) {
            Some(sc) => sc,
            None => return Err(ERROR_INITIALIZATION_FAILED),
        };
        if sc.device != device {
            return Err(ERROR_INITIALIZATION_FAILED);
        }
        let chosen = probe(&sc.images, capacity);
        let mut r: Vec<u64> = Vec::new();
        let mut i: usize = 0;
        while i < chosen.len()
            invariant
                i <= chosen@.len(),
                r@.len() == i,
                forall|j: int| 0 <= j < i ==> #[trigger] r@[j] == chosen@[j].image,
            decreases chosen@.len() - i,
        {
            r.push(chosen[i].image);
            i = i + 1;
        }
        Ok(r)
    }

    /// The image to render into next: the device's frame counter modulo the number of
    /// images. `ERROR_INITIALIZATION_FAILED` for an unknown swapchain or one of another
    /// device. The semaphore and fence of the call are not signalled.
    pub fn acquire_next_image(&self, device: u64, swapchain: u64) -> (r: Result<u32, i32>)
        requires
            self.wf(),
        ensures
            r matches Ok(i) ==> self.swapchains@.contains_key(swapchain) && self.swapchains@[
                swapchain
            ].device == device && i == self.devices@[device].frame_counter % (
            self.swapchains@[swapchain].images@.len() as u32),
            r matches Err(e) ==> e == ERROR_INITIALIZATION_FAILED && !(self.swapchains@.contains_key(
                swapchain,
            ) && self.swapchains@[swapchain].device == device),
    {
        let sc = match self.swapchains.get(swapchain) {
            Some(sc) => sc,
            None => return Err(ERROR_INITIALIZATION_FAILED),
        };
        if sc.device != device {
            return Err(ERROR_INITIALIZATION_FAILED);
        }
        let count = sc.images.len() as u32;
        let dev = self.devices.get(device).unwrap();
        Ok(dev.frame_counter % count)
    }
}

/// Whether the image handles of a list are non-null and pairwise distinct.
pub fn images_distinct(images: &Vec<HostVisibleImage>) -> (r: bool)
    ensures
        r == distinct_images(images@),
{
    let mut i: usize = 0;
    while i < images.len()
        invariant
            i <= images@.len(),
            forall|a: int| 0 <= a < i ==> #[trigger] images@[a].image != 0,
            forall|a: int, b: int|
                0 <= a < b < images@.len() && a < i ==> #[trigger] images@[a].image
                    != #[trigger] images@[b].image,
        decreases images@.len() - i,
    {
        if images[i].image == 0 {
            return false;
        }
        let mut j: usize = i + 1;
        while j < images.len()
            invariant
                i < j <= images@.len(),
                forall|b: int| i < b < j ==> images@[i as int].image != #[trigger] images@[b].image,
            decreases images@.len() - j,
        {
            if images[i].image == images[j].image {
                return false;
            }
            j = j + 1;
        }
        i = i + 1;
    }
    true
}

/// A swapchain made for a requested minimum of `min_image_count` images answers a count
/// probe with `max(min_image_count, 2)`, and a fetch with room for that many gets that
/// many handles, non-null and pairwise distinct.
pub proof fn lemma_swapchain_image_count(layer: LayerState, swapchain: u64, min_image_count: u32, capacity: u32)
    requires
        layer.wf(),
        layer.swapchains@.contains_key(swapchain),
        layer.swapchains@[swapchain].images@.len() == spec_image_count(min_image_count),
        capacity >= spec_image_count(min_image_count),
    ensures
        ({
            let images = layer.swapchains@[swapchain].images@;
            &&& probe_count(images.len(), None) == if min_image_count < 2 {
                2
            } else {
                min_image_count
            }
            &&& probe_count(images.len(), Some(capacity)) == images.len()
            &&& forall|i: int| 0 <= i < images.len() ==> #[trigger] images[i].image != 0
            &&& forall|i: int, j: int|
                0 <= i < j < images.len() ==> #[trigger] images[i].image != #[trigger] images[j].image
        }),
{
}

} // verus!
