//! Destroying swapchains, devices and instances: what leaves the layer's state and
//! which driver calls give their resources back, children before parents.
use vstd::prelude::*;

use crate::host_image::{images_release, release_images, HostVisibleImage, Release};
use crate::layer::{DeviceState, InstanceState, LayerState, SwapchainState};

verus! {

/// `r` unmaps and frees the memory of an image and destroys the image.
pub open spec fn releases_image(r: Seq<Release>, device: u64, img: HostVisibleImage) -> bool {
    &&& r.contains(Release::UnmapMemory { device, memory: img.memory })
    &&& r.contains(Release::FreeMemory { device, memory: img.memory })
    &&& r.contains(Release::DestroyImage { device, image: img.image })
}

/// `block` stands in `r` as one contiguous run.
pub open spec fn holds_block(r: Seq<Release>, block: Seq<Release>) -> bool {
    exists|s: int| 0 <= s && s + block.len() <= r.len() && #[trigger] r.subrange(s, s + block.len()) == block
}

/// The command pool of a device, given back if there is one.
pub open spec fn pool_release(device: u64, dev: DeviceState) -> Seq<Release> {
    match dev.graphics {
        Some(g) => match g.command_pool {
            Some(pool) => seq![Release::DestroyCommandPool { device, pool }],
            None => Seq::empty(),
        },
        None => Seq::empty(),
    }
}

/// The release calls for the swapchains of `device`, taken in `order`, each one's images
/// the last made first.
pub open spec fn swapchains_release(
    scs: Map<u64, SwapchainState>,
    device: u64,
    order: Seq<u64>,
) -> Seq<Release>
    decreases order.len(),
{
    if order.len() == 0 {
        Seq::empty()
    } else {
        swapchains_release(scs, device, order.drop_last()) + if scs.contains_key(order.last())
            && scs[order.last()].device == device {
            images_release(device, scs[order.last()].images@)
        } else {
            Seq::empty()
        }
    }
}

/// `order` without the swapchains of `device`.
pub open spec fn others_order(scs: Map<u64, SwapchainState>, device: u64, order: Seq<u64>) -> Seq<u64>
    decreases order.len(),
{
    if order.len() == 0 {
        Seq::empty()
    } else {
        others_order(scs, device, order.drop_last()) + if scs.contains_key(order.last())
            && scs[order.last()].device == device {
            Seq::empty()
        } else {
            seq![order.last()]
        }
    }
}

/// Everything that destroying `device` gives back: its swapchains in `order`, then its
/// command pool, then the device through the next layer.
pub open spec fn device_release(
    insts: Map<u64, InstanceState>,
    devs: Map<u64, DeviceState>,
    scs: Map<u64, SwapchainState>,
    order: Seq<u64>,
    device: u64,
) -> Seq<Release> {
    swapchains_release(scs, device, order) + pool_release(device, devs[device]) + seq![
        Release::DestroyDevice {
            device,
            instance: devs[device].instance,
            next_get_instance_proc_addr: insts[devs[device].instance].next_get_instance_proc_addr,
        },
    ]
}

/// What destroying the devices of `instance` gives back, device after device in `dev_order`.
pub open spec fn devices_release(
    insts: Map<u64, InstanceState>,
    devs: Map<u64, DeviceState>,
    scs: Map<u64, SwapchainState>,
    order: Seq<u64>,
    dev_order: Seq<u64>,
    instance: u64,
) -> Seq<Release>
    decreases dev_order.len(),
{
    if dev_order.len() == 0 {
        Seq::empty()
    } else {
        devices_release(insts, devs, scs, order, dev_order.drop_last(), instance) + if devs.contains_key(
            dev_order.last(),
        ) && devs[dev_order.last()].instance == instance {
            device_release(insts, devs, scs, order, dev_order.last())
        } else {
            Seq::empty()
        }
    }
}

/// Removing the swapchains of one device leaves the releases of any other device as they were.
proof fn lemma_release_after_removal(
    scs: Map<u64, SwapchainState>,
    scs2: Map<u64, SwapchainState>,
    gone: u64,
    device: u64,
    order: Seq<u64>,
)
    requires
        gone != device,
        forall|c: u64|
            #![trigger scs2.contains_key(c)]
            scs2.contains_key(c) <==> scs.contains_key(c) && scs[c].device != gone,
        forall|c: u64| #![trigger scs2[c]] scs2.contains_key(c) ==> scs2[c] == scs[c],
    ensures
        swapchains_release(scs2, device, others_order(scs, gone, order)) == swapchains_release(
            scs,
            device,
            order,
        ),
    decreases order.len(),
{
    if order.len() > 0 {
        let x = order.last();
        let prev = order.drop_last();
        lemma_release_after_removal(scs, scs2, gone, device, prev);
        let kept = others_order(scs, gone, prev);
        if !(scs.contains_key(x) && scs[x].device == gone) {
            assert(others_order(scs, gone, order) == kept + seq![x]);
            assert((kept + seq![x]).drop_last() =~= kept);
            assert((kept + seq![x]).last() == x);
            if scs.contains_key(x) {
                assert(scs2.contains_key(x));
            } else {
                assert(!scs2.contains_key(x));
            }
        } else {
            assert(others_order(scs, gone, order) =~= kept);
            assert(swapchains_release(scs, device, order) =~= swapchains_release(scs, device, prev));
        }
    }
}

proof fn lemma_block_extends(r: Seq<Release>, more: Seq<Release>, block: Seq<Release>)
    requires
        holds_block(r, block),
    ensures
        holds_block(r + more, block),
{
    let s = choose|s: int| 0 <= s && s + block.len() <= r.len() && #[trigger] r.subrange(s, s + block.len()) == block;
    assert((r + more).subrange(s, s + block.len()) =~= r.subrange(s, s + block.len()));
}

proof fn lemma_block_appended(r: Seq<Release>, block: Seq<Release>)
    ensures
        holds_block(r + block, block),
{
    assert((r + block).subrange(r.len() as int, (r.len() + block.len()) as int) =~= block);
}

proof fn lemma_block_prefix(r: Seq<Release>, n: int, block: Seq<Release>)
    requires
        0 <= n <= r.len(),
        holds_block(r.subrange(0, n), block),
    ensures
        holds_block(r, block),
{
    let p = r.subrange(0, n);
    let s = choose|s: int| 0 <= s && s + block.len() <= p.len() && #[trigger] p.subrange(s, s + block.len()) == block;
    assert(r.subrange(s, s + block.len()) =~= p.subrange(s, s + block.len()));
}

/// Every image of a list is given back by the list's release calls.
pub proof fn lemma_images_release_covers(device: u64, imgs: Seq<HostVisibleImage>, i: int)
    requires
        0 <= i < imgs.len(),
    ensures
        releases_image(images_release(device, imgs), device, imgs[i]),
    decreases imgs.len(),
{
    let r = images_release(device, imgs);
    let head = seq![
        Release::UnmapMemory { device, memory: imgs.last().memory },
        Release::FreeMemory { device, memory: imgs.last().memory },
        Release::DestroyImage { device, image: imgs.last().image },
    ];
    let rest = images_release(device, imgs.drop_last());
    assert(r == head + rest);
    if i == imgs.len() - 1 {
        assert(r[0] == head[0]);
        assert(r[1] == head[1]);
        assert(r[2] == head[2]);
    } else {
        lemma_images_release_covers(device, imgs.drop_last(), i);
        assert(imgs.drop_last()[i] == imgs[i]);
        let img = imgs[i];
        let a = choose|k: int| 0 <= k < rest.len() && rest[k] == Release::UnmapMemory { device, memory: img.memory };
        let b = choose|k: int| 0 <= k < rest.len() && rest[k] == Release::FreeMemory { device, memory: img.memory };
        let c = choose|k: int| 0 <= k < rest.len() && rest[k] == Release::DestroyImage { device, image: img.image };
        assert(r[a + 3] == rest[a]);
        assert(r[b + 3] == rest[b]);
        assert(r[c + 3] == rest[c]);
    }
}

/// A run of release calls inside `r` gives back what it gives back inside `r`.
pub proof fn lemma_block_covers(r: Seq<Release>, device: u64, imgs: Seq<HostVisibleImage>, i: int)
    requires
        holds_block(r, images_release(device, imgs)),
        0 <= i < imgs.len(),
    ensures
        releases_image(r, device, imgs[i]),
{
    let block = images_release(device, imgs);
    lemma_images_release_covers(device, imgs, i);
    let s = choose|s: int| 0 <= s && s + block.len() <= r.len() && #[trigger] r.subrange(s, s + block.len()) == block;
    let img = imgs[i];
    let a = choose|k: int| 0 <= k < block.len() && block[k] == Release::UnmapMemory { device, memory: img.memory };
    let b = choose|k: int| 0 <= k < block.len() && block[k] == Release::FreeMemory { device, memory: img.memory };
    let c = choose|k: int| 0 <= k < block.len() && block[k] == Release::DestroyImage { device, image: img.image };
    assert(r.subrange(s, s + block.len())[a] == r[s + a]);
    assert(r.subrange(s, s + block.len())[b] == r[s + b]);
    assert(r.subrange(s, s + block.len())[c] == r[s + c]);
}

impl LayerState {
    /// Destroys a swapchain of `device`: it leaves the state and its images are given
    /// back, the last made first. Another handle is ignored.
    pub fn destroy_swapchain(&mut self, device: u64, swapchain: u64) -> (r: Vec<Release>)
        requires
            old(self).wf(),
        ensures
            final(self).wf(),
            final(self).instances@ == old(self).instances@,
            final(self).devices@ == old(self).devices@,
            final(self).surfaces@ == old(self).surfaces@,
            final(self).handles == old(self).handles,
            (old(self).swapchains@.contains_key(swapchain) && old(self).swapchains@[swapchain].device
                == device) ==> final(self).swapchains@ == old(self).swapchains@.remove(swapchain)
                && r@ == images_release(device, old(self).swapchains@[swapchain].images@),
            !(old(self).swapchains@.contains_key(swapchain) && old(self).swapchains@[swapchain].device
                == device) ==> final(self).swapchains@ == old(self).swapchains@ && r@.len() == 0,
    {
        let mine = match self.swapchains.get(swapchain) {
            Some(sc) => sc.device == device,
            None => false,
        };
        if !mine {
            return Vec::new();
        }
        let sc = self.swapchains.remove(swapchain).unwrap();
        release_images(device, &sc.images)
    }

    /// Destroys a device: each of its swapchains leaves the state and has its images
    /// given back, then its command pool is destroyed, then the next layer's
    /// `DestroyDevice` is called. An unknown device is ignored.
    pub fn destroy_device(&mut self, device: u64) -> (r: Vec<Release>)
        requires
            old(self).wf(),
        ensures
            final(self).wf(),
            final(self).instances@ == old(self).instances@,
            final(self).surfaces@ == old(self).surfaces@,
            final(self).handles == old(self).handles,
            !old(self).devices@.contains_key(device) ==> r@.len() == 0 && final(self).devices@ == old(self).devices@ && final(self).swapchains@ == old(self).swapchains@,
            old(self).devices@.contains_key(device) ==> ({
                let dev = old(self).devices@[device];
                let tail = pool_release(device, dev) + seq![
                    Release::DestroyDevice {
                        device,
                        instance: dev.instance,
                        next_get_instance_proc_addr: old(self).instances@[dev.instance].next_get_instance_proc_addr,
                    },
                ];
                let body = r@.subrange(0, r@.len() - tail.len());
                &&& r@ == device_release(
                    old(self).instances@,
                    old(self).devices@,
                    old(self).swapchains@,
                    old(self).swapchains.key_order(),
                    device,
                )
                &&& body == swapchains_release(
                    old(self).swapchains@,
                    device,
                    old(self).swapchains.key_order(),
                )
                &&& final(self).swapchains.key_order() == others_order(
                    old(self).swapchains@,
                    device,
                    old(self).swapchains.key_order(),
                )
                &&& final(self).devices@ == old(self).devices@.remove(device)
                &&& forall|c: u64|
                    #![trigger final(self).swapchains@.contains_key(c)]
                    final(self).swapchains@.contains_key(c) <==> old(self).swapchains@.contains_key(c)
                        && old(self).swapchains@[c].device != device
                &&& forall|c: u64|
                    #![trigger final(self).swapchains@[c]]
                    final(self).swapchains@.contains_key(c) ==> final(self).swapchains@[c] == old(self).swapchains@[c]
                &&& r@.len() >= tail.len()
                &&& r@.subrange(r@.len() - tail.len(), r@.len() as int) == tail
                &&& forall|c: u64|
                    #![trigger old(self).swapchains@[c]]
                    old(self).swapchains@.contains_key(c) && old(self).swapchains@[c].device == device
                        ==> holds_block(body, images_release(device, old(self).swapchains@[c].images@))
            }),
    {
        let dev = match self.devices.get(device) {
            Some(d) => *d,
            None => return Vec::new(),
        };
        let next = self.instances.get(dev.instance).unwrap().next_get_instance_proc_addr;
        let keys = self.swapchains.keys();
        let ghost scs = self.swapchains@;
        let mut r: Vec<Release> = Vec::new();
        let mut i: usize = 0;
        while i < keys.len()
            invariant
                self.wf(),
                self.instances@ == old(self).instances@,
                self.devices@ == old(self).devices@,
                self.surfaces@ == old(self).surfaces@,
                self.handles == old(self).handles,
                scs == old(self).swapchains@,
                keys@ == old(self).swapchains.key_order(),
                r@ == swapchains_release(scs, device, keys@.subrange(0, i as int)),
                self.swapchains.key_order() == others_order(scs, device, keys@.subrange(0, i as int))
                    + keys@.subrange(i as int, keys@.len() as int),
                i <= keys@.len(),
                keys@.no_duplicates(),
                forall|k: int| 0 <= k < keys@.len() ==> scs.contains_key(#[trigger] keys@[k]),
                forall|c: u64| scs.contains_key(c) ==> keys@.contains(c),
                forall|c: u64|
                    #![trigger self.swapchains@.contains_key(c)]
                    self.swapchains@.contains_key(c) <==> scs.contains_key(c) && !(scs[c].device
                        == device && keys@.subrange(0, i as int).contains(c)),
                forall|c: u64|
                    #![trigger self.swapchains@[c]]
                    self.swapchains@.contains_key(c) ==> self.swapchains@[c] == scs[c],
                forall|k: int|
                    0 <= k < i && scs[#[trigger] keys@[k]].device == device ==> holds_block(
                        r@,
                        images_release(device, scs[keys@[k]].images@),
                    ),
            decreases keys@.len() - i,
        {
            let k = keys[i];
            let ghost done = keys@.subrange(0, i as int);
            assert(keys@.subrange(0, i + 1) =~= done.push(k));
            assert(!done.contains(k)) by {
                if done.contains(k) {
                    let j = choose|j: int| 0 <= j < done.len() && done[j] == k;
                    assert(keys@[j] == keys@[i as int]);
                }
            }
            let mine = match self.swapchains.get(k) {
                Some(sc) => sc.device == device,
                None => false,
            };
            let ghost kept = others_order(scs, device, done);
            let ghost order_before = self.swapchains.key_order();
            proof {
                assert(done.push(k).drop_last() =~= done);
                assert(done.push(k).last() == k);
                assert(self.swapchains@.contains_key(k));
                assert(mine == (scs[k].device == device));
                self.swapchains.lemma_key_order_unique();
                assert(order_before[kept.len() as int] == k);
            }
            if mine {
                let sc = self.swapchains.remove(k).unwrap();
                proof {
                    let j = choose|j: int|
                        0 <= j < order_before.len() && order_before[j] == k && self.swapchains.key_order()
                            == order_before.remove(j);
                    assert(j == kept.len());
                    assert(self.swapchains.key_order() =~= others_order(scs, device, done.push(k))
                        + keys@.subrange(i + 1, keys@.len() as int));
                }
                let ghost before = r@;
                let mut block = release_images(device, &sc.images);
                r.append(&mut block);
                proof {
                    lemma_block_appended(before, images_release(device, scs[k].images@));
                    assert forall|j: int|
                        0 <= j < i && scs[#[trigger] keys@[j]].device == device implies holds_block(
                        r@,
                        images_release(device, scs[keys@[j]].images@),
                    ) by {
                        lemma_block_extends(before, images_release(device, scs[k].images@), images_release(device, scs[keys@[j]].images@));
                    }
                    assert(r@ == swapchains_release(scs, device, done.push(k)));
                }
            } else {
                proof {
                    assert(others_order(scs, device, done.push(k)) == kept + seq![k]);
                    assert(self.swapchains.key_order() =~= others_order(scs, device, done.push(k))
                        + keys@.subrange(i + 1, keys@.len() as int));
                    assert(swapchains_release(scs, device, done.push(k)) =~= swapchains_release(
                        scs,
                        device,
                        done,
                    ));
                }
            }
            proof {
                assert forall|c: u64| #[trigger]
                    self.swapchains@.contains_key(c) implies self.devices@.contains_key(
                    self.swapchains@[c].device,
                ) && self.handles.issued@.contains(c) by {
                    assert(scs.contains_key(c));
                }
                assert forall|c: u64|
                    #![trigger self.swapchains@.contains_key(c)]
                    self.swapchains@.contains_key(c) <==> scs.contains_key(c) && !(scs[c].device
                        == device && done.push(k).contains(c)) by {
                    if c != k {
                        assert(done.push(k).contains(c) <==> done.contains(c)) by {
                            if done.push(k).contains(c) {
                                let j = choose|j: int| 0 <= j < done.push(k).len() && done.push(k)[j] == c;
                                assert(j < done.len());
                                assert(done[j] == c);
                            }
                            if done.contains(c) {
                                let j = choose|j: int| 0 <= j < done.len() && done[j] == c;
                                assert(done.push(k)[j] == c);
                            }
                        }
                    } else {
                        assert(done.push(k)[done.len() as int] == k);
                    }
                }
            }
            i = i + 1;
        }
        proof {
            assert(keys@.subrange(0, keys@.len() as int) =~= keys@);
            assert(keys@.subrange(keys@.len() as int, keys@.len() as int) =~= Seq::<u64>::empty());
            assert(self.swapchains.key_order() =~= others_order(scs, device, keys@));
        }
        self.devices.remove(device);
        let body_len = r.len();
        let ghost body = r@;
        match dev.graphics {
            Some(g) => match g.command_pool {
                Some(pool) => r.push(Release::DestroyCommandPool { device, pool }),
                None => {},
            },
            None => {},
        }
        r.push(Release::DestroyDevice { device, instance: dev.instance, next_get_instance_proc_addr: next });
        proof {
            let tail = pool_release(device, dev) + seq![
                Release::DestroyDevice { device, instance: dev.instance, next_get_instance_proc_addr: next },
            ];
            assert(r@ =~= body + tail);
            assert(r@.subrange(0, r@.len() - tail.len()) =~= body);
            assert(r@ =~= device_release(
                old(self).instances@,
                old(self).devices@,
                old(self).swapchains@,
                old(self).swapchains.key_order(),
                device,
            ));
            assert(r@.subrange(r@.len() - tail.len(), r@.len() as int) =~= tail);
            assert forall|c: u64|
                #![trigger old(self).swapchains@[c]]
                old(self).swapchains@.contains_key(c) && old(self).swapchains@[c].device == device
                    implies holds_block(body, images_release(device, old(self).swapchains@[c].images@)) by {
                let k = choose|k: int| 0 <= k < keys@.len() && keys@[k] == c;
                assert(scs[keys@[k]].device == device);
            }
            assert forall|c: u64| #[trigger]
                self.swapchains@.contains_key(c) implies self.devices@.contains_key(
                self.swapchains@[c].device,
            ) by {
                assert(scs.contains_key(c));
                assert(keys@.contains(c));
            }
        }
        r
    }

    /// Destroys an instance: each of its devices is destroyed as `destroy_device` does,
    /// its surfaces are forgotten, then the next layer's `DestroyInstance` is called.
    /// Afterwards no memory that the instance's swapchains mapped stays mapped or
    /// allocated, and no command pool of its devices stays alive. An unknown instance is
    /// ignored.
    pub fn destroy_instance(&mut self, instance: u64) -> (r: Vec<Release>)
        requires
            old(self).wf(),
        ensures
            final(self).wf(),
            !old(self).instances@.contains_key(instance) ==> r@.len() == 0 && final(self).instances@
                == old(self).instances@ && final(self).devices@ == old(self).devices@ && final(self).surfaces@ == old(self).surfaces@ && final(self).swapchains@ == old(self).swapchains@,
            old(self).instances@.contains_key(instance) ==> {
                let next = old(self).instances@[instance].next_get_instance_proc_addr;
                &&& final(self).instances@ == old(self).instances@.remove(instance)
                &&& forall|d: u64|
                    #![trigger final(self).devices@.contains_key(d)]
                    final(self).devices@.contains_key(d) <==> old(self).devices@.contains_key(d)
                        && old(self).devices@[d].instance != instance
                &&& forall|s: u64|
                    #![trigger final(self).surfaces@.contains_key(s)]
                    final(self).surfaces@.contains_key(s) <==> old(self).surfaces@.contains_key(s)
                        && old(self).surfaces@[s].instance != instance
                &&& forall|c: u64|
                    #![trigger final(self).swapchains@.contains_key(c)]
                    final(self).swapchains@.contains_key(c) <==> old(self).swapchains@.contains_key(c)
                        && old(self).devices@[old(self).swapchains@[c].device].instance != instance
                &&& r@ == devices_release(
                    old(self).instances@,
                    old(self).devices@,
                    old(self).swapchains@,
                    old(self).swapchains.key_order(),
                    old(self).devices.key_order(),
                    instance,
                ).push(Release::DestroyInstance { instance, next_get_instance_proc_addr: next })
                &&& r@.len() > 0
                &&& r@.last() == (Release::DestroyInstance {
                    instance,
                    next_get_instance_proc_addr: next,
                })
                &&& forall|c: u64, i: int|
                    #![trigger old(self).swapchains@[c].images@[i]]
                    old(self).swapchains@.contains_key(c) && old(self).devices@[old(self).swapchains@[c].device].instance == instance && 0 <= i < old(self).swapchains@[c].images@.len() ==> releases_image(
                        r@,
                        old(self).swapchains@[c].device,
                        old(self).swapchains@[c].images@[i],
                    )
                &&& forall|d: u64|
                    #![trigger old(self).devices@[d]]
                    old(self).devices@.contains_key(d) && old(self).devices@[d].instance == instance
                        ==> r@.contains(
                        Release::DestroyDevice {
                            device: d,
                            instance,
                            next_get_instance_proc_addr: next,
                        },
                    ) && (pool_release(d, old(self).devices@[d]).len() > 0 ==> r@.contains(
                        pool_release(d, old(self).devices@[d])[0],
                    ))
            },
    {
        let next = match self.instances.get(instance) {
            Some(s) => s.next_get_instance_proc_addr,
            None => return Vec::new(),
        };
        let ghost devs = self.devices@;
        let ghost scs = self.swapchains@;
        let ghost insts = self.instances@;
        let ghost sc_order = self.swapchains.key_order();
        let keys = self.devices.keys();
        let mut r: Vec<Release> = Vec::new();
        let mut i: usize = 0;
        while i < keys.len()
            invariant
                self.wf(),
                self.instances@ == old(self).instances@,
                self.surfaces@ == old(self).surfaces@,
                self.handles == old(self).handles,
                devs == old(self).devices@,
                scs == old(self).swapchains@,
                insts == old(self).instances@,
                sc_order == old(self).swapchains.key_order(),
                keys@ == old(self).devices.key_order(),
                r@ == devices_release(insts, devs, scs, sc_order, keys@.subrange(0, i as int), instance),
                forall|x: u64|
                    #![trigger self.devices@.contains_key(x)]
                    self.devices@.contains_key(x) ==> swapchains_release(
                        self.swapchains@,
                        x,
                        self.swapchains.key_order(),
                    ) == swapchains_release(scs, x, sc_order),
                self.instances@.contains_key(instance),
                self.instances@[instance].next_get_instance_proc_addr == next,
                i <= keys@.len(),
                keys@.no_duplicates(),
                forall|k: int| 0 <= k < keys@.len() ==> devs.contains_key(#[trigger] keys@[k]),
                forall|d: u64| devs.contains_key(d) ==> keys@.contains(d),
                forall|d: u64|
                    #![trigger self.devices@.contains_key(d)]
                    self.devices@.contains_key(d) <==> devs.contains_key(d) && !(devs[d].instance
                        == instance && keys@.subrange(0, i as int).contains(d)),
                forall|d: u64|
                    #![trigger self.devices@[d]]
                    self.devices@.contains_key(d) ==> self.devices@[d] == devs[d],
                forall|c: u64|
                    #![trigger self.swapchains@.contains_key(c)]
                    self.swapchains@.contains_key(c) <==> scs.contains_key(c) && self.devices@.contains_key(
                        scs[c].device,
                    ),
                forall|c: u64|
                    #![trigger self.swapchains@[c]]
                    self.swapchains@.contains_key(c) ==> self.swapchains@[c] == scs[c],
                forall|c: u64, j: int|
                    #![trigger scs[c].images@[j]]
                    scs.contains_key(c) && devs[scs[c].device].instance == instance
                        && !self.devices@.contains_key(scs[c].device) && 0 <= j
                        < scs[c].images@.len() ==> releases_image(r@, scs[c].device, scs[c].images@[j]),
                forall|d: u64|
                    #![trigger devs[d]]
                    devs.contains_key(d) && devs[d].instance == instance && !self.devices@.contains_key(d)
                        ==> r@.contains(
                        Release::DestroyDevice { device: d, instance, next_get_instance_proc_addr: next },
                    ) && (pool_release(d, devs[d]).len() > 0 ==> r@.contains(pool_release(d, devs[d])[0])),
            decreases keys@.len() - i,
        {
            let d = keys[i];
            let ghost done = keys@.subrange(0, i as int);
            assert(keys@.subrange(0, i + 1) =~= done.push(d));
            assert(!done.contains(d)) by {
                if done.contains(d) {
                    let j = choose|j: int| 0 <= j < done.len() && done[j] == d;
                    assert(keys@[j] == keys@[i as int]);
                }
            }
            let mine = match self.devices.get(d) {
                Some(dev) => dev.instance == instance,
                None => false,
            };
            let ghost self_before = *self;
            let ghost r_before = r@;
            if mine {
                let mut plan = self.destroy_device(d);
                let ghost p = plan@;
                r.append(&mut plan);
                proof {
                    assert(self_before.devices@.contains_key(d));
                    assert(self_before.devices@[d] == devs[d]);
                    assert(swapchains_release(self_before.swapchains@, d, self_before.swapchains.key_order())
                        == swapchains_release(scs, d, sc_order));
                    assert(p =~= device_release(insts, devs, scs, sc_order, d));
                    assert(done.push(d).drop_last() =~= done);
                    assert(done.push(d).last() == d);
                    assert(r@ =~= devices_release(insts, devs, scs, sc_order, done.push(d), instance));
                    assert forall|x: u64|
                        #![trigger self.devices@.contains_key(x)]
                        self.devices@.contains_key(x) implies swapchains_release(
                            self.swapchains@,
                            x,
                            self.swapchains.key_order(),
                        ) == swapchains_release(scs, x, sc_order) by {
                        assert(self_before.devices@.contains_key(x));
                        lemma_release_after_removal(
                            self_before.swapchains@,
                            self.swapchains@,
                            d,
                            x,
                            self_before.swapchains.key_order(),
                        );
                    }
                }
                proof {
                    let dev = devs[d];
                    let tail = pool_release(d, dev) + seq![
                        Release::DestroyDevice { device: d, instance, next_get_instance_proc_addr: next },
                    ];
                    assert(r@ == r_before + p);
                    let tail_start = p.len() - tail.len();
                    assert(p[p.len() - 1] == tail[tail.len() - 1]) by {
                        assert(p.subrange(tail_start, p.len() as int)[tail.len() - 1] == p[p.len() - 1]);
                    }
                    assert(r@[r_before.len() + p.len() - 1] == p[p.len() - 1]);
                    if pool_release(d, dev).len() > 0 {
                        assert(p.subrange(tail_start, p.len() as int)[0] == p[tail_start]);
                        assert(r@[r_before.len() + tail_start] == p[tail_start]);
                    }
                    assert forall|c: u64, j: int|
                        #![trigger scs[c].images@[j]]
                        scs.contains_key(c) && devs[scs[c].device].instance == instance
                            && !self.devices@.contains_key(scs[c].device) && 0 <= j
                            < scs[c].images@.len() implies releases_image(r@, scs[c].device, scs[c].images@[j]) by {
                        if scs[c].device == d {
                            assert(self_before.swapchains@.contains_key(c));
                            let body = p.subrange(0, tail_start);
                            assert(holds_block(body, images_release(d, scs[c].images@)));
                            lemma_block_prefix(p, tail_start, images_release(d, scs[c].images@));
                            lemma_block_extends(p, Seq::empty(), images_release(d, scs[c].images@));
                            assert(p + Seq::<Release>::empty() =~= p);
                            lemma_block_covers(p, d, scs[c].images@, j);
                            let img = scs[c].images@[j];
                            let a = choose|k: int| 0 <= k < p.len() && p[k] == Release::UnmapMemory { device: d, memory: img.memory };
                            let b = choose|k: int| 0 <= k < p.len() && p[k] == Release::FreeMemory { device: d, memory: img.memory };
                            let e = choose|k: int| 0 <= k < p.len() && p[k] == Release::DestroyImage { device: d, image: img.image };
                            assert(r@[r_before.len() + a] == p[a]);
                            assert(r@[r_before.len() + b] == p[b]);
                            assert(r@[r_before.len() + e] == p[e]);
                        } else {
                            assert(!self_before.devices@.contains_key(scs[c].device));
                            let img = scs[c].images@[j];
                            let a = choose|k: int| 0 <= k < r_before.len() && r_before[k] == Release::UnmapMemory { device: scs[c].device, memory: img.memory };
                            let b = choose|k: int| 0 <= k < r_before.len() && r_before[k] == Release::FreeMemory { device: scs[c].device, memory: img.memory };
                            let e = choose|k: int| 0 <= k < r_before.len() && r_before[k] == Release::DestroyImage { device: scs[c].device, image: img.image };
                            assert(r@[a] == r_before[a]);
                            assert(r@[b] == r_before[b]);
                            assert(r@[e] == r_before[e]);
                        }
                    }
                    assert forall|x: u64|
                        #![trigger devs[x]]
                        devs.contains_key(x) && devs[x].instance == instance && !self.devices@.contains_key(x)
                            implies r@.contains(
                            Release::DestroyDevice { device: x, instance, next_get_instance_proc_addr: next },
                        ) && (pool_release(x, devs[x]).len() > 0 ==> r@.contains(pool_release(x, devs[x])[0])) by {
                        if x != d {
                            assert(!self_before.devices@.contains_key(x));
                            let a = choose|k: int| 0 <= k < r_before.len() && r_before[k] == (Release::DestroyDevice { device: x, instance, next_get_instance_proc_addr: next });
                            assert(r@[a] == r_before[a]);
                            if pool_release(x, devs[x]).len() > 0 {
                                let b = choose|k: int| 0 <= k < r_before.len() && r_before[k] == pool_release(x, devs[x])[0];
                                assert(r@[b] == r_before[b]);
                            }
                        }
                    }
                }
            } else {
                proof {
                    assert(done.push(d).drop_last() =~= done);
                    assert(done.push(d).last() == d);
                    assert(self.devices@.contains_key(d));
                    assert(r@ =~= devices_release(insts, devs, scs, sc_order, done.push(d), instance));
                }
            }
            proof {
                assert forall|x: u64|
                    #![trigger self.devices@.contains_key(x)]
                    self.devices@.contains_key(x) <==> devs.contains_key(x) && !(devs[x].instance
                        == instance && done.push(d).contains(x)) by {
                    if x != d {
                        assert(done.push(d).contains(x) <==> done.contains(x)) by {
                            if done.push(d).contains(x) {
                                let j = choose|j: int| 0 <= j < done.push(d).len() && done.push(d)[j] == x;
                                assert(j < done.len());
                                assert(done[j] == x);
                            }
                            if done.contains(x) {
                                let j = choose|j: int| 0 <= j < done.len() && done[j] == x;
                                assert(done.push(d)[j] == x);
                            }
                        }
                    } else {
                        assert(done.push(d)[done.len() as int] == d);
                    }
                }
            }
            i = i + 1;
        }
        proof {
            assert(keys@.subrange(0, keys@.len() as int) =~= keys@);
            assert forall|c: u64, j: int|
                #![trigger scs[c].images@[j]]
                scs.contains_key(c) && devs[scs[c].device].instance == instance && 0 <= j
                    < scs[c].images@.len() implies releases_image(r@, scs[c].device, scs[c].images@[j]) by {
                assert(keys@.contains(scs[c].device));
            }
            assert forall|d: u64|
                #![trigger devs[d]]
                devs.contains_key(d) && devs[d].instance == instance implies r@.contains(
                    Release::DestroyDevice { device: d, instance, next_get_instance_proc_addr: next },
                ) && (pool_release(d, devs[d]).len() > 0 ==> r@.contains(pool_release(d, devs[d])[0])) by {
                assert(keys@.contains(d));
            }
        }
        let surface_keys = self.surfaces.keys();
        let ghost sfs = self.surfaces@;
        let mut k: usize = 0;
        while k < surface_keys.len()
            invariant
                self.wf(),
                self.instances@ == old(self).instances@,
                forall|d: u64|
                    #![trigger self.devices@.contains_key(d)]
                    self.devices@.contains_key(d) <==> devs.contains_key(d) && devs[d].instance != instance,
                forall|d: u64| #[trigger] self.devices@.contains_key(d) ==> self.devices@[d] == devs[d],
                forall|c: u64|
                    #![trigger self.swapchains@.contains_key(c)]
                    self.swapchains@.contains_key(c) <==> scs.contains_key(c) && self.devices@.contains_key(
                        scs[c].device,
                    ),
                devs == old(self).devices@,
                scs == old(self).swapchains@,
                sfs == old(self).surfaces@,
                r@ == devices_release(insts, devs, scs, sc_order, keys@, instance),
                insts == old(self).instances@,
                sc_order == old(self).swapchains.key_order(),
                keys@ == old(self).devices.key_order(),
                self.instances@.contains_key(instance),
                self.instances@[instance].next_get_instance_proc_addr == next,
                forall|c: u64, j: int|
                    #![trigger scs[c].images@[j]]
                    scs.contains_key(c) && devs[scs[c].device].instance == instance && 0 <= j
                        < scs[c].images@.len() ==> releases_image(r@, scs[c].device, scs[c].images@[j]),
                forall|d: u64|
                    #![trigger devs[d]]
                    devs.contains_key(d) && devs[d].instance == instance ==> r@.contains(
                        Release::DestroyDevice { device: d, instance, next_get_instance_proc_addr: next },
                    ) && (pool_release(d, devs[d]).len() > 0 ==> r@.contains(pool_release(d, devs[d])[0])),
                k <= surface_keys@.len(),
                surface_keys@.no_duplicates(),
                forall|j: int| 0 <= j < surface_keys@.len() ==> sfs.contains_key(#[trigger] surface_keys@[j]),
                forall|s: u64| sfs.contains_key(s) ==> surface_keys@.contains(s),
                forall|s: u64|
                    #![trigger self.surfaces@.contains_key(s)]
                    self.surfaces@.contains_key(s) <==> sfs.contains_key(s) && !(sfs[s].instance
                        == instance && surface_keys@.subrange(0, k as int).contains(s)),
                forall|s: u64|
                    #![trigger self.surfaces@[s]]
                    self.surfaces@.contains_key(s) ==> self.surfaces@[s] == sfs[s],
            decreases surface_keys@.len() - k,
        {
            let s = surface_keys[k];
            let ghost done = surface_keys@.subrange(0, k as int);
            assert(surface_keys@.subrange(0, k + 1) =~= done.push(s));
            assert(!done.contains(s)) by {
                if done.contains(s) {
                    let j = choose|j: int| 0 <= j < done.len() && done[j] == s;
                    assert(surface_keys@[j] == surface_keys@[k as int]);
                }
            }
            let mine = match self.surfaces.get(s) {
                Some(sf) => sf.instance == instance,
                None => false,
            };
            if mine {
                self.surfaces.remove(s);
            }
            proof {
                assert forall|x: u64|
                    #![trigger self.surfaces@.contains_key(x)]
                    self.surfaces@.contains_key(x) <==> sfs.contains_key(x) && !(sfs[x].instance
                        == instance && done.push(s).contains(x)) by {
                    if x != s {
                        assert(done.push(s).contains(x) <==> done.contains(x)) by {
                            if done.push(s).contains(x) {
                                let j = choose|j: int| 0 <= j < done.push(s).len() && done.push(s)[j] == x;
                                assert(j < done.len());
                                assert(done[j] == x);
                            }
                            if done.contains(x) {
                                let j = choose|j: int| 0 <= j < done.len() && done[j] == x;
                                assert(done.push(s)[j] == x);
                            }
                        }
                    } else {
                        assert(done.push(s)[done.len() as int] == s);
                    }
                }
            }
            k = k + 1;
        }
        proof {
            assert(surface_keys@.subrange(0, surface_keys@.len() as int) =~= surface_keys@);
        }
        self.instances.remove(instance);
        let ghost r_mid = r@;
        r.push(Release::DestroyInstance { instance, next_get_instance_proc_addr: next });
        proof {
            let ghost r_all = r@;
            assert forall|c: u64, j: int|
                #![trigger scs[c].images@[j]]
                scs.contains_key(c) && devs[scs[c].device].instance == instance && 0 <= j
                    < scs[c].images@.len() implies releases_image(r@, scs[c].device, scs[c].images@[j]) by {
                let img = scs[c].images@[j];
                let dv = scs[c].device;
                let prev = r_mid;
                let a = choose|x: int| 0 <= x < prev.len() && prev[x] == Release::UnmapMemory { device: dv, memory: img.memory };
                let b = choose|x: int| 0 <= x < prev.len() && prev[x] == Release::FreeMemory { device: dv, memory: img.memory };
                let e = choose|x: int| 0 <= x < prev.len() && prev[x] == Release::DestroyImage { device: dv, image: img.image };
                assert(r@[a] == prev[a]);
                assert(r@[b] == prev[b]);
                assert(r@[e] == prev[e]);
            }
            assert forall|x: u64|
                #![trigger devs[x]]
                devs.contains_key(x) && devs[x].instance == instance implies r@.contains(
                    Release::DestroyDevice { device: x, instance, next_get_instance_proc_addr: next },
                ) && (pool_release(x, devs[x]).len() > 0 ==> r@.contains(pool_release(x, devs[x])[0])) by {
                let prev = r_mid;
                let a = choose|k: int| 0 <= k < prev.len() && prev[k] == (Release::DestroyDevice { device: x, instance, next_get_instance_proc_addr: next });
                assert(r@[a] == prev[a]);
                if pool_release(x, devs[x]).len() > 0 {
                    let b = choose|k: int| 0 <= k < prev.len() && prev[k] == pool_release(x, devs[x])[0];
                    assert(r@[b] == prev[b]);
                }
            }
            assert forall|d: u64| #[trigger] self.devices@.contains_key(d) implies self.instances@.contains_key(
                self.devices@[d].instance,
            ) by {}
            assert forall|s: u64| #[trigger] self.surfaces@.contains_key(s) implies self.instances@.contains_key(
                self.surfaces@[s].instance,
            ) && self.handles.issued@.contains(s) by {}
        }
        r
    }
}

} // verus!
