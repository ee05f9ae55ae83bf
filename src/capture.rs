//! Presentation: counting frames, choosing which ones to capture, and turning a
//! captured image into a frame file.
use vstd::prelude::*;
use vstd::utf8::encode_utf8;

use crate::config::{LayerConfig, OutputFormat};
use crate::decode::{convert_host_image_to_rgb, lemma_image_len, spec_decode};
use crate::frame::{frame_file, frame_path, ppm_bytes, ppm_header, replace_all, spec_frame_path, FrameFile};
use crate::host_image::HostVisibleImage;
use crate::layer::{DeviceState, InstanceState, LayerState, SwapchainState};
use crate::surface::Extent;

verus! {

/// Frame number `frame` is captured: it falls on the capture frequency and is below
/// the frame limit, where those are set.
pub open spec fn spec_should_capture(frame: u32, frequency: u32, max_frames: u32) -> bool {
    &&& !(frequency > 1 && frame % frequency != 0)
    &&& !(max_frames > 0 && frame >= max_frames)
}

/// Whether frame number `frame` is captured under a capture frequency and a frame limit.
pub fn should_capture(frame: u32, frequency: u32, max_frames: u32) -> (r: bool)
    ensures
        r == spec_should_capture(frame, frequency, max_frames),
{
    if frequency > 1 && frame % frequency != 0 {
        return false;
    }
    if max_frames > 0 && frame >= max_frames {
        return false;
    }
    true
}

/// A frame counter after one more present, wrapping at 2^32.
pub open spec fn next_counter(c: u32) -> u32 {
    if c == u32::MAX {
        0
    } else {
        (c + 1) as u32
    }
}

/// A device after one more present.
pub open spec fn bumped(dev: DeviceState) -> DeviceState {
    DeviceState { frame_counter: next_counter(dev.frame_counter), ..dev }
}

/// The queue and command pool on which the host-visibility barrier is recorded.
#[derive(Clone, Copy, Debug, PartialEq, Eq, Structural)]
pub struct BarrierTarget {
    pub queue: u64,
    pub command_pool: u64,
}

/// Where a device can record the barrier: its graphics queue and command pool, if both exist.
pub open spec fn barrier_of(dev: DeviceState) -> Option<BarrierTarget> {
    match dev.graphics {
        Some(g) => match g.command_pool {
            Some(pool) => Some(BarrierTarget { queue: g.queue, command_pool: pool }),
            None => None,
        },
        None => None,
    }
}

/// One frame to capture: make GPU writes visible to the host (on `barrier`, where there
/// is one), read the image's mapped memory, then write the file that `render` makes.
pub struct CaptureJob {
    pub device: u64,
    pub swapchain: u64,
    pub barrier: Option<BarrierTarget>,
    pub image: HostVisibleImage,
    pub format: i32,
    pub extent: Extent,
    pub frame: u32,
    pub path: String,
    pub output_format: OutputFormat,
}

/// `job` captures frame `frame` of image `index` of swapchain `swapchain`, as the
/// layer's state describes them.
pub open spec fn describes(
    job: CaptureJob,
    swapchain: u64,
    index: u32,
    frame: u32,
    scs: Map<u64, SwapchainState>,
    devs: Map<u64, DeviceState>,
    insts: Map<u64, InstanceState>,
) -> bool {
    let sc = scs[swapchain];
    let dev = devs[sc.device];
    let cfg = insts[dev.instance].config;
    &&& job.device == sc.device
    &&& job.swapchain == swapchain
    &&& job.barrier == barrier_of(dev)
    &&& job.image == sc.images@[index as int]
    &&& job.format == sc.format
    &&& job.extent == sc.extent
    &&& job.frame == frame
    &&& job.path@ == spec_frame_path(cfg.output_dir@, frame, cfg.output_format)
    &&& job.output_format == cfg.output_format
}

/// The devices after presenting `targets` (swapchain, image index) in order.
pub open spec fn presented_devices(
    devs: Map<u64, DeviceState>,
    scs: Map<u64, SwapchainState>,
    targets: Seq<(u64, u32)>,
) -> Map<u64, DeviceState>
    decreases targets.len(),
{
    if targets.len() == 0 {
        devs
    } else {
        let before = presented_devices(devs, scs, targets.drop_last());
        let t = targets.last();
        if scs.contains_key(t.0) && before.contains_key(scs[t.0].device) {
            before.insert(scs[t.0].device, bumped(before[scs[t.0].device]))
        } else {
            before
        }
    }
}

/// The captures that presenting `targets` in order asks for: swapchain, image index and
/// frame number of each.
pub open spec fn presented_frames(
    devs: Map<u64, DeviceState>,
    scs: Map<u64, SwapchainState>,
    insts: Map<u64, InstanceState>,
    targets: Seq<(u64, u32)>,
) -> Seq<(u64, u32, u32)>
    decreases targets.len(),
{
    if targets.len() == 0 {
        Seq::empty()
    } else {
        let prev = presented_frames(devs, scs, insts, targets.drop_last());
        let before = presented_devices(devs, scs, targets.drop_last());
        let t = targets.last();
        if scs.contains_key(t.0) && before.contains_key(scs[t.0].device) {
            let dev = before[scs[t.0].device];
            let cfg = insts[dev.instance].config;
            if spec_should_capture(dev.frame_counter, cfg.capture_frequency, cfg.max_frames) && (t.1 as int)
                < scs[t.0].images@.len() {
                prev.push((t.0, t.1, dev.frame_counter))
            } else {
                prev
            }
        } else {
            prev
        }
    }
}

impl CaptureJob {
    /// The frame file for the bytes of the job's image, read from its mapped memory:
    /// decoded to RGB and written as PPM, at the job's path (`.png` turned into `.ppm`
    /// for PNG output). `None` where the format is not read or the bytes do not hold
    /// the image.
    pub fn render(&self, mapped: &[u8]) -> (r: Option<FrameFile>)
        ensures
            ({
                let w = self.extent.width;
                let h = self.extent.height;
                let decoded = spec_decode(mapped@, w as nat, h as nat, self.image.row_pitch as nat, self.format);
                &&& r is Some ==> decoded is Some
                &&& decoded is Some && self.image.row_pitch <= usize::MAX ==> r is Some
                &&& r matches Some(f) ==> {
                    &&& f.bytes@ == ppm_bytes(w, h, decoded->Some_0)
                    &&& f.bytes@.len() == encode_utf8(ppm_header(w, h)).len() + 3 * (w as nat) * (h as nat)
                    &&& self.output_format == OutputFormat::Ppm ==> f.path@ == self.path@
                    &&& self.output_format == OutputFormat::Png ==> f.path@ == replace_all(
                        self.path@,
                        ".png"@,
                        ".ppm"@,
                    )
                }
            }),
    {
        if self.image.row_pitch as u128 > usize::MAX as u128 {
            return None;
        }
        let pitch = self.image.row_pitch as usize;
        match convert_host_image_to_rgb(mapped, self.extent.width, self.extent.height, pitch, self.format) {
            Some(rgb) => {
                proof {
                    lemma_image_len(
                        mapped@,
                        self.extent.width as nat,
                        self.extent.height as nat,
                        pitch as nat,
                        self.format,
                    );
                }
                Some(
                    frame_file(
                        self.path.as_str(),
                        rgb.as_slice(),
                        self.extent.width,
                        self.extent.height,
                        self.output_format,
                    ),
                )
            },
            None => None,
        }
    }
}

impl LayerState {
    /// Presents image `image_index` of `swapchain`: the frame counter of the swapchain's
    /// device goes up by one, and the frame it held is captured if the instance's
    /// settings select it and the index names an image. An unknown swapchain is ignored.
    pub fn present_one(&mut self, swapchain: u64, image_index: u32) -> (r: Option<CaptureJob>)
        requires
            old(self).wf(),
        ensures
            final(self).wf(),
            final(self).instances@ == old(self).instances@,
            final(self).surfaces@ == old(self).surfaces@,
            final(self).swapchains@ == old(self).swapchains@,
            final(self).handles == old(self).handles,
            final(self).devices@ == presented_devices(old(self).devices@, old(self).swapchains@, seq![(swapchain, image_index)]),
            ({
                let f = presented_frames(
                    old(self).devices@,
                    old(self).swapchains@,
                    old(self).instances@,
                    seq![(swapchain, image_index)],
                );
                &&& r is Some <==> f.len() == 1
                &&& r matches Some(job) ==> describes(
                    job,
                    swapchain,
                    image_index,
                    f[0].2,
                    old(self).swapchains@,
                    old(self).devices@,
                    old(self).instances@,
                )
            }),
    {
        proof {
            let t = seq![(swapchain, image_index)];
            assert(t.drop_last() =~= Seq::<(u64, u32)>::empty());
            assert(t.last() == (swapchain, image_index));
            assert(presented_devices(old(self).devices@, old(self).swapchains@, t.drop_last())
                == old(self).devices@);
            assert(presented_frames(old(self).devices@, old(self).swapchains@, old(self).instances@, t.drop_last())
                == Seq::<(u64, u32, u32)>::empty());
        }
        let (device, count) = match self.swapchains.get(swapchain) {
            Some(sc) => (sc.device, sc.images.len()),
            None => return None,
        };
        let dev = *self.devices.get(device).unwrap();
        let frame = dev.frame_counter;
        let next = if frame == u32::MAX {
            0
        } else {
            frame + 1
        };
        self.devices.set(device, DeviceState { frame_counter: next, ..dev });
        proof {
            assert forall|c: u64| #[trigger]
                self.swapchains@.contains_key(c) implies self.devices@.contains_key(
                self.swapchains@[c].device,
            ) by {}
        }
        let inst = self.instances.get(dev.instance).unwrap();
        let cfg: &LayerConfig = &inst.config;
        if !should_capture(frame, cfg.capture_frequency, cfg.max_frames) || image_index as usize >= count {
            return None;
        }
        let sc = self.swapchains.get(swapchain).unwrap();
        let barrier = match dev.graphics {
            Some(g) => match g.command_pool {
                Some(pool) => Some(BarrierTarget { queue: g.queue, command_pool: pool }),
                None => None,
            },
            None => None,
        };
        Some(
            CaptureJob {
                device,
                swapchain,
                barrier,
                image: sc.images[image_index as usize],
                format: sc.format,
                extent: sc.extent,
                frame,
                path: frame_path(cfg.output_dir.as_str(), frame, cfg.output_format),
                output_format: cfg.output_format,
            },
        )
    }

    /// Presents the images of a present request, (swapchain, image index) pairs in
    /// order, as `present_one` does for each, and returns the captures to make.
    pub fn present(&mut self, targets: &[(u64, u32)]) -> (r: Vec<CaptureJob>)
        requires
            old(self).wf(),
        ensures
            final(self).wf(),
            final(self).instances@ == old(self).instances@,
            final(self).surfaces@ == old(self).surfaces@,
            final(self).swapchains@ == old(self).swapchains@,
            final(self).handles == old(self).handles,
            final(self).devices@ == presented_devices(old(self).devices@, old(self).swapchains@, targets@),
            ({
                let f = presented_frames(
                    old(self).devices@,
                    old(self).swapchains@,
                    old(self).instances@,
                    targets@,
                );
                &&& r@.len() == f.len()
                &&& forall|j: int|
                    0 <= j < f.len() ==> describes(
                        #[trigger] r@[j],
                        f[j].0,
                        f[j].1,
                        f[j].2,
                        old(self).swapchains@,
                        old(self).devices@,
                        old(self).instances@,
                    )
            }),
    {
        let ghost devs = self.devices@;
        let ghost scs = self.swapchains@;
        let ghost insts = self.instances@;
        let mut jobs: Vec<CaptureJob> = Vec::new();
        let mut i: usize = 0;
        while i < targets.len()
            invariant
                self.wf(),
                i <= targets@.len(),
                devs == old(self).devices@,
                scs == old(self).swapchains@,
                insts == old(self).instances@,
                self.instances@ == insts,
                self.surfaces@ == old(self).surfaces@,
                self.swapchains@ == scs,
                self.handles == old(self).handles,
                self.devices@ == presented_devices(devs, scs, targets@.subrange(0, i as int)),
                jobs@.len() == presented_frames(devs, scs, insts, targets@.subrange(0, i as int)).len(),
                forall|j: int|
                    0 <= j < jobs@.len() ==> ({
                        let f = presented_frames(devs, scs, insts, targets@.subrange(0, i as int));
                        describes(#[trigger] jobs@[j], f[j].0, f[j].1, f[j].2, scs, devs, insts)
                    }),
            decreases targets@.len() - i,
        {
            let (swapchain, index) = targets[i];
            let ghost prefix = targets@.subrange(0, i as int);
            let ghost next = targets@.subrange(0, i + 1);
            assert(next.drop_last() =~= prefix);
            assert(next.last() == (swapchain, index));
            let ghost cur = self.devices@;
            proof {
                lemma_presented_keeps_fields(devs, scs, prefix);
                lemma_single_step(cur, scs, insts, swapchain, index);
            }
            let job = self.present_one(swapchain, index);
            proof {
                let f_prev = presented_frames(devs, scs, insts, prefix);
                let f_next = presented_frames(devs, scs, insts, next);
                assert(self.devices@ == presented_devices(devs, scs, next));
            }
            match job {
                Some(job) => {
                    let ghost one = presented_frames(cur, scs, insts, seq![(swapchain, index)]);
                    proof {
                        let sc = scs[swapchain];
                        assert(scs.contains_key(swapchain) && cur.contains_key(sc.device));
                        assert(describes(job, swapchain, index, one[0].2, scs, cur, insts));
                        assert(barrier_of(cur[sc.device]) == barrier_of(devs[sc.device]));
                    }
                    jobs.push(job);
                },
                None => {},
            }
            proof {
                let f_next = presented_frames(devs, scs, insts, next);
                assert forall|j: int| 0 <= j < jobs@.len() implies describes(
                    #[trigger] jobs@[j],
                    f_next[j].0,
                    f_next[j].1,
                    f_next[j].2,
                    scs,
                    devs,
                    insts,
                ) by {
                    let f_prev = presented_frames(devs, scs, insts, prefix);
                    if j < f_prev.len() {
                        assert(f_next[j] == f_prev[j]);
                    }
                }
            }
            i = i + 1;
        }
        proof {
            assert(targets@.subrange(0, targets@.len() as int) =~= targets@);
        }
        jobs
    }
}

/// Presenting keeps every device, with its instance and graphics queue; only frame
/// counters move.
pub proof fn lemma_presented_keeps_fields(
    devs: Map<u64, DeviceState>,
    scs: Map<u64, SwapchainState>,
    targets: Seq<(u64, u32)>,
)
    ensures
        forall|d: u64|
            #![trigger presented_devices(devs, scs, targets).contains_key(d)]
            presented_devices(devs, scs, targets).contains_key(d) <==> devs.contains_key(d),
        forall|d: u64|
            #![trigger presented_devices(devs, scs, targets)[d]]
            devs.contains_key(d) ==> presented_devices(devs, scs, targets)[d].instance == devs[d].instance
                && presented_devices(devs, scs, targets)[d].graphics == devs[d].graphics,
    decreases targets.len(),
{
    if targets.len() > 0 {
        lemma_presented_keeps_fields(devs, scs, targets.drop_last());
    }
}

proof fn lemma_single_step(
    devs: Map<u64, DeviceState>,
    scs: Map<u64, SwapchainState>,
    insts: Map<u64, InstanceState>,
    swapchain: u64,
    index: u32,
)
    ensures
        presented_devices(devs, scs, seq![(swapchain, index)]) == (if scs.contains_key(swapchain)
            && devs.contains_key(scs[swapchain].device) {
            devs.insert(scs[swapchain].device, bumped(devs[scs[swapchain].device]))
        } else {
            devs
        }),
        presented_frames(devs, scs, insts, seq![(swapchain, index)]) == (if scs.contains_key(swapchain)
            && devs.contains_key(scs[swapchain].device) && spec_should_capture(
            devs[scs[swapchain].device].frame_counter,
            insts[devs[scs[swapchain].device].instance].config.capture_frequency,
            insts[devs[scs[swapchain].device].instance].config.max_frames,
        ) && (index as int) < scs[swapchain].images@.len() {
            seq![(swapchain, index, devs[scs[swapchain].device].frame_counter)]
        } else {
            Seq::<(u64, u32, u32)>::empty()
        }),
{
    let t = seq![(swapchain, index)];
    assert(t.drop_last() =~= Seq::<(u64, u32)>::empty());
    assert(t.last() == (swapchain, index));
    assert(presented_devices(devs, scs, t.drop_last()) == devs);
    assert(presented_frames(devs, scs, insts, t.drop_last()) == Seq::<(u64, u32, u32)>::empty());
    assert(Seq::<(u64, u32, u32)>::empty().push((swapchain, index, devs[scs[swapchain].device].frame_counter))
        =~= seq![(swapchain, index, devs[scs[swapchain].device].frame_counter)]);
}

/// With a capture frequency of `frequency` (1 or more) and no frame limit, frame `n`
/// is captured exactly when `n` is a multiple of `frequency`.
pub proof fn lemma_capture_frequency(n: u32, frequency: u32)
    requires
        frequency >= 1,
    ensures
        spec_should_capture(n, frequency, 0) <==> n % frequency == 0,
{
    if frequency == 1 {
        assert(n % 1 == 0);
    }
}

/// With a frame limit `max_frames` above zero, no frame numbered `max_frames` or more
/// is captured.
pub proof fn lemma_frame_limit(n: u32, frequency: u32, max_frames: u32)
    requires
        max_frames > 0,
        n >= max_frames,
    ensures
        !spec_should_capture(n, frequency, max_frames),
{
}

/// `k` presents of one image of one swapchain.
pub open spec fn repeated(swapchain: u64, index: u32, k: nat) -> Seq<(u64, u32)> {
    Seq::new(k, |i: int| (swapchain, index))
}

/// On a device whose frame counter is still at zero, with every frame captured and no
/// frame limit, `k` presents of a valid image of one swapchain ask for exactly `k`
/// captures, of frames 0 to `k - 1` in order, and leave the counter at `k`.
pub proof fn lemma_every_present_captured(
    devs: Map<u64, DeviceState>,
    scs: Map<u64, SwapchainState>,
    insts: Map<u64, InstanceState>,
    swapchain: u64,
    index: u32,
    k: nat,
)
    requires
        scs.contains_key(swapchain),
        devs.contains_key(scs[swapchain].device),
        devs[scs[swapchain].device].frame_counter == 0,
        insts[devs[scs[swapchain].device].instance].config.capture_frequency <= 1,
        insts[devs[scs[swapchain].device].instance].config.max_frames == 0,
        (index as int) < scs[swapchain].images@.len(),
        k <= u32::MAX,
    ensures
        presented_frames(devs, scs, insts, repeated(swapchain, index, k)) == Seq::new(
            k,
            |i: int| (swapchain, index, i as u32),
        ),
        presented_devices(devs, scs, repeated(swapchain, index, k)).contains_key(
            scs[swapchain].device,
        ),
        presented_devices(devs, scs, repeated(swapchain, index, k))[scs[swapchain].device].frame_counter
            == k,
    decreases k,
{
    let d = scs[swapchain].device;
    let t = repeated(swapchain, index, k);
    lemma_presented_keeps_fields(devs, scs, t);
    if k > 0 {
        let prev = repeated(swapchain, index, (k - 1) as nat);
        assert(t.drop_last() =~= prev);
        lemma_every_present_captured(devs, scs, insts, swapchain, index, (k - 1) as nat);
        lemma_presented_keeps_fields(devs, scs, prev);
        let before = presented_devices(devs, scs, prev);
        assert(t.last() == (swapchain, index));
        assert(before[d].frame_counter == k - 1);
        assert(before[d].instance == devs[d].instance);
        assert(spec_should_capture((k - 1) as u32, insts[devs[d].instance].config.capture_frequency, 0));
        assert(presented_frames(devs, scs, insts, t) =~= Seq::new(
            k,
            |i: int| (swapchain, index, i as u32),
        ));
    } else {
        assert(presented_frames(devs, scs, insts, t) =~= Seq::new(
            k,
            |i: int| (swapchain, index, i as u32),
        ));
    }
}

/// Presenting one request and then another counts and captures exactly as presenting
/// both as one request: so separate present calls compose into a single sequence.
pub proof fn lemma_present_split(
    devs: Map<u64, DeviceState>,
    scs: Map<u64, SwapchainState>,
    insts: Map<u64, InstanceState>,
    first: Seq<(u64, u32)>,
    second: Seq<(u64, u32)>,
)
    ensures
        presented_devices(devs, scs, first + second) == presented_devices(
            presented_devices(devs, scs, first),
            scs,
            second,
        ),
        presented_frames(devs, scs, insts, first + second) == presented_frames(
            devs,
            scs,
            insts,
            first,
        ) + presented_frames(presented_devices(devs, scs, first), scs, insts, second),
    decreases second.len(),
{
    let mid = presented_devices(devs, scs, first);
    if second.len() == 0 {
        assert(first + second =~= first);
        assert(presented_frames(devs, scs, insts, first) + presented_frames(mid, scs, insts, second)
            =~= presented_frames(devs, scs, insts, first));
    } else {
        let rest = second.drop_last();
        lemma_present_split(devs, scs, insts, first, rest);
        assert((first + second).drop_last() =~= first + rest);
        assert((first + second).last() == second.last());
        let a = presented_frames(devs, scs, insts, first);
        let b = presented_frames(mid, scs, insts, rest);
        let c = presented_frames(mid, scs, insts, second);
        assert(c == b || c == b.push(
            (
                second.last().0,
                second.last().1,
                presented_devices(mid, scs, rest)[scs[second.last().0].device].frame_counter,
            ),
        ));
        assert(presented_frames(devs, scs, insts, first + second) =~= a + c);
    }
}

} // verus!
