//! GPU frequency and C6 residency, and NPU metrics, from sysfs.
//!
//! The device files themselves are read by the caller; this module decides
//! which GTs exist, which devices belong to the xe and NPU drivers, and
//! turns cumulative counters into increments between samples.
use vstd::prelude::*;

use crate::collectors::fdinfo::sat_sub;
use crate::text::{ascii_bytes, contains, contains_bytes, ends_with, has_prefix, has_suffix, parse_bounded, parse_unsigned, starts_with};

verus! {

broadcast use vstd::seq_lib::group_to_multiset_ensures;

/// `gt`
pub open spec fn gt_prefix() -> Seq<u8> {
    seq![103u8, 116]
}

/// The GT id that a `tile0` entry named `name` stands for: `gt` followed by
/// a number (parsed as `u32`).
pub open spec fn gt_id_of(name: Seq<u8>) -> Option<u32> {
    if has_prefix(name, gt_prefix()) {
        match parse_unsigned(name.skip(2), u32::MAX as nat) {
            Some(v) => Some(v as u32),
            None => None,
        }
    } else {
        None
    }
}

/// The GT ids of the entries `names`, in entry order.
pub open spec fn gt_ids_of(names: Seq<Seq<u8>>) -> Seq<u32>
    decreases names.len(),
{
    if names.len() == 0 {
        Seq::empty()
    } else {
        let rest = gt_ids_of(names.drop_last());
        match gt_id_of(names.last()) {
            Some(id) => rest.push(id),
            None => rest,
        }
    }
}

/// `s` is in ascending order.
pub open spec fn sorted(s: Seq<u32>) -> bool {
    forall|i: int, j: int| 0 <= i <= j < s.len() ==> s[i] <= s[j]
}

/// The GT id of a `tile0` entry named `name`, if it is a GT directory.
pub fn gt_id_from_name(name: &[u8]) -> (r: Option<u32>)
    ensures
        r == gt_id_of(name@),
{
    let pat: [u8; 2] = [103u8, 116];
    let n = name.len();
    proof {
        assert(name@.subrange(0, n as int) =~= name@);
        assert(pat@ =~= gt_prefix());
    }
    if !starts_with(name, 0, n, pat.as_slice()) {
        return None;
    }
    proof {
        assert(name@.subrange(2, n as int) =~= name@.skip(2));
    }
    match parse_bounded(name, 2, n, 0xFFFF_FFFF) {
        Some(v) => Some(v as u32),
        None => None,
    }
}

/// `s` with `x` inserted before the first element larger than it.
fn insert_sorted(s: &mut Vec<u32>, x: u32)
    requires
        sorted(old(s)@),
    ensures
        sorted(final(s)@),
        final(s)@.to_multiset() == old(s)@.to_multiset().insert(x),
{
    let mut pos: usize = 0;
    while pos < s.len() && s[pos] <= x
        invariant
            pos <= s@.len(),
            forall|k: int| 0 <= k < pos ==> s@[k] <= x,
        decreases s@.len() - pos,
    {
        pos = pos + 1;
    }
    let ghost old_s = s@;
    s.insert(pos, x);
    proof {
        vstd::seq_lib::to_multiset_insert(old_s, pos as int, x);
        assert forall|i: int, j: int| 0 <= i <= j < s@.len() implies s@[i] <= s@[j] by {
            if pos < old_s.len() {
                assert(old_s[pos as int] > x);
            }
        }
    }
}

/// The GT ids among the `tile0` entry names, in ascending order.
pub fn discover_gt_ids(names: &Vec<Vec<u8>>) -> (r: Vec<u32>)
    ensures
        sorted(r@),
        r@.to_multiset() == gt_ids_of(names@.map_values(|n: Vec<u8>| n@)).to_multiset(),
{
    let ghost nv = names@.map_values(|n: Vec<u8>| n@);
    let mut r: Vec<u32> = Vec::new();
    let mut i: usize = 0;
    assert(r@.to_multiset() =~= gt_ids_of(nv.take(0)).to_multiset()) by {
        assert(nv.take(0) =~= Seq::<Seq<u8>>::empty());
    }
    while i < names.len()
        invariant
            i <= names@.len(),
            nv == names@.map_values(|n: Vec<u8>| n@),
            sorted(r@),
            r@.to_multiset() == gt_ids_of(nv.take(i as int)).to_multiset(),
        decreases names@.len() - i,
    {
        proof {
            assert(nv.take(i + 1).drop_last() =~= nv.take(i as int));
            assert(nv.take(i + 1).last() == names@[i as int]@);
        }
        match gt_id_from_name(names[i].as_slice()) {
            Some(id) => {
                insert_sorted(&mut r, id);
                proof {
                    vstd::seq_lib::to_multiset_build(gt_ids_of(nv.take(i as int)), id);
                }
            },
            None => {},
        }
        i = i + 1;
    }
    assert(nv.take(names@.len() as int) =~= nv);
    r
}

/// `card`
pub open spec fn card_prefix() -> Seq<u8> {
    seq![99u8, 97, 114, 100]
}

/// `/xe`
pub open spec fn xe_driver_suffix() -> Seq<u8> {
    seq![47u8, 120, 101]
}

/// `/intel_vpu`
pub open spec fn intel_vpu_suffix() -> Seq<u8> {
    seq![47u8, 105, 110, 116, 101, 108, 95, 118, 112, 117]
}

/// `/ivpu`
pub open spec fn ivpu_suffix() -> Seq<u8> {
    seq![47u8, 105, 118, 112, 117]
}

/// Whether an entry of `/sys/class/drm` is a card (not a connector): its
/// name starts with `card` and holds no `-`.
pub fn is_card_entry(name: &[u8]) -> (r: bool)
    ensures
        r == (has_prefix(name@, card_prefix()) && !contains(name@, seq![45u8])),
{
    let pat: [u8; 4] = [99u8, 97, 114, 100];
    let dash: [u8; 1] = [45u8];
    let n = name.len();
    proof {
        assert(name@.subrange(0, n as int) =~= name@);
        assert(pat@ =~= card_prefix());
        assert(dash@ =~= seq![45u8]);
    }
    starts_with(name, 0, n, pat.as_slice()) && !contains_bytes(name, dash.as_slice())
}

/// Whether a device's `driver` link points at the xe driver.
pub fn is_xe_driver(target: &[u8]) -> (r: bool)
    ensures
        r == has_suffix(target@, xe_driver_suffix()),
{
    let pat: [u8; 3] = [47u8, 120, 101];
    let n = target.len();
    proof {
        assert(target@.subrange(0, n as int) =~= target@);
        assert(pat@ =~= xe_driver_suffix());
    }
    ends_with(target, 0, n, pat.as_slice())
}

/// Whether a device's `driver` link points at the NPU driver (`intel_vpu`
/// or `ivpu`).
pub fn is_npu_driver(target: &[u8]) -> (r: bool)
    ensures
        r == (has_suffix(target@, intel_vpu_suffix()) || has_suffix(target@, ivpu_suffix())),
{
    let long: [u8; 10] = [47u8, 105, 110, 116, 101, 108, 95, 118, 112, 117];
    let short: [u8; 5] = [47u8, 105, 118, 112, 117];
    let n = target.len();
    proof {
        assert(target@.subrange(0, n as int) =~= target@);
        assert(long@ =~= intel_vpu_suffix());
        assert(short@ =~= ivpu_suffix());
    }
    ends_with(target, 0, n, long.as_slice()) || ends_with(target, 0, n, short.as_slice())
}

/// A frequency in kHz, as `freq0/rp_eff_freq` and `freq0/rp0_freq` give
/// it, in whole MHz.
pub fn khz_to_mhz(khz: u32) -> (r: u32)
    ensures
        r == khz / 1000,
{
    khz / 1000
}

/// What a C6 residency sample gives.
pub enum C6Update {
    /// The first sample: it only sets the baseline.
    Baseline,
    /// Less than a millisecond passed since the previous sample, which
    /// stays the baseline.
    NoTimeElapsed,
    /// Milliseconds since the previous sample, and for each GT (in sample
    /// order) the milliseconds it spent in C6 since then, `None` for a GT
    /// that the previous sample lacked.
    Deltas { elapsed_ms: u64, idle_deltas_ms: Vec<Option<u64>> },
}

/// `j` is the first entry of `prev` for GT `id`.
pub open spec fn is_first_gt(prev: Seq<(u32, u64)>, id: u32, j: int) -> bool {
    &&& 0 <= j < prev.len()
    &&& prev[j].0 == id
    &&& forall|k: int| 0 <= k < j ==> prev[k].0 != id
}

/// The previous C6 residency of GT `id`.
pub open spec fn prev_residency(prev: Seq<(u32, u64)>, id: u32) -> Option<u64> {
    if exists|j: int| is_first_gt(prev, id, j) {
        Some(prev[choose|j: int| is_first_gt(prev, id, j)].1)
    } else {
        None
    }
}

/// C6 time of each GT of `cur` since `prev`.
pub open spec fn idle_deltas(prev: Seq<(u32, u64)>, cur: Seq<(u32, u64)>) -> Seq<Option<u64>> {
    Seq::new(
        cur.len(),
        |i: int|
            match prev_residency(prev, cur[i].0) {
                Some(p) => Some(sat_sub(cur[i].1, p)),
                None => None,
            },
    )
}

/// Sampling state of the GPU's GTs and of the NPU.
pub struct SysfsCollector {
    gt_ids: Vec<u32>,
    prev_gt_residency: Vec<(u32, u64)>,
    prev_gpu_timestamp: Option<u64>,
    prev_npu_busy_us: Option<u64>,
    prev_npu_timestamp: Option<u64>,
    npu_available: bool,
}

impl SysfsCollector {
    /// The GTs, ascending.
    pub closed spec fn gts(self) -> Seq<u32> {
        self.gt_ids@
    }

    /// The C6 baseline: (GT id, cumulative idle ms) at the previous sample.
    pub closed spec fn c6_baseline(self) -> Seq<(u32, u64)> {
        self.prev_gt_residency@
    }

    /// Time of the C6 baseline.
    pub closed spec fn c6_baseline_time(self) -> Option<u64> {
        self.prev_gpu_timestamp
    }

    /// The NPU baseline: busy microseconds and time at the previous sample.
    pub closed spec fn npu_baseline(self) -> (Option<u64>, Option<u64>) {
        (self.prev_npu_busy_us, self.prev_npu_timestamp)
    }

    /// Whether the NPU device exists.
    pub closed spec fn has_npu(self) -> bool {
        self.npu_available
    }

    /// A collector for the GTs among the `tile0` entry names and, when
    /// `npu_available`, the NPU; no sample taken yet.
    pub fn new(tile_entries: &Vec<Vec<u8>>, npu_available: bool) -> (r: Self)
        ensures
            sorted(r.gts()),
            r.gts().to_multiset() == gt_ids_of(
                tile_entries@.map_values(|n: Vec<u8>| n@),
            ).to_multiset(),
            r.has_npu() == npu_available,
            r.c6_baseline().len() == 0,
            r.c6_baseline_time() is None,
            r.npu_baseline() == (None::<u64>, None::<u64>),
    {
        SysfsCollector {
            gt_ids: discover_gt_ids(tile_entries),
            prev_gt_residency: Vec::new(),
            prev_gpu_timestamp: None,
            prev_npu_busy_us: None,
            prev_npu_timestamp: None,
            npu_available,
        }
    }

    /// The GT ids, ascending.
    pub fn gt_ids(&self) -> (r: &Vec<u32>)
        ensures
            r@ == self.gts(),
    {
        &self.gt_ids
    }

    /// Whether the NPU device exists.
    pub fn npu_available(&self) -> (r: bool)
        ensures
            r == self.has_npu(),
    {
        self.npu_available
    }

    /// Take a C6 sample: `gts` holds (GT id, cumulative idle ms) per GT, read
    /// at `now_ns`. The first sample sets the baseline; a sample less than a
    /// millisecond after the baseline changes nothing; any other sample gives
    /// each GT's idle time since the baseline and becomes the baseline.
    pub fn compute_c6_deltas(&mut self, gts: &Vec<(u32, u64)>, now_ns: u64) -> (r: C6Update)
        ensures
            final(self).gts() == old(self).gts(),
            final(self).has_npu() == old(self).has_npu(),
            final(self).npu_baseline() == old(self).npu_baseline(),
            match old(self).c6_baseline_time() {
                None => r is Baseline && final(self).c6_baseline() == gts@
                    && final(self).c6_baseline_time() == Some(now_ns),
                Some(t) => if sat_sub(now_ns, t) / 1_000_000 == 0 {
                    r is NoTimeElapsed && final(self).c6_baseline() == old(self).c6_baseline()
                        && final(self).c6_baseline_time() == old(self).c6_baseline_time()
                } else {
                    &&& r matches C6Update::Deltas { elapsed_ms, idle_deltas_ms }
                    &&& elapsed_ms == sat_sub(now_ns, t) / 1_000_000
                    &&& idle_deltas_ms@ == idle_deltas(old(self).c6_baseline(), gts@)
                    &&& final(self).c6_baseline() == gts@
                    &&& final(self).c6_baseline_time() == Some(now_ns)
                },
            },
    {
        let prev_ts = match self.prev_gpu_timestamp {
            None => {
                self.prev_gt_residency = copy_pairs(gts);
                self.prev_gpu_timestamp = Some(now_ns);
                return C6Update::Baseline;
            },
            Some(t) => t,
        };
        let elapsed_ms = now_ns.saturating_sub(prev_ts) / 1_000_000;
        if elapsed_ms == 0 {
            return C6Update::NoTimeElapsed;
        }
        let mut deltas: Vec<Option<u64>> = Vec::new();
        let ghost prev = self.prev_gt_residency@;
        let mut i: usize = 0;
        while i < gts.len()
            invariant
                i <= gts@.len(),
                prev == self.prev_gt_residency@,
                deltas@ == idle_deltas(prev, gts@).take(i as int),
            decreases gts@.len() - i,
        {
            let (id, residency) = gts[i];
            let d = match find_gt(&self.prev_gt_residency, id) {
                Some(j) => Some(residency.saturating_sub(self.prev_gt_residency[j].1)),
                None => None,
            };
            deltas.push(d);
            assert(deltas@ =~= idle_deltas(prev, gts@).take(i + 1));
            i = i + 1;
        }
        assert(deltas@ =~= idle_deltas(prev, gts@));
        self.prev_gt_residency = copy_pairs(gts);
        self.prev_gpu_timestamp = Some(now_ns);
        C6Update::Deltas { elapsed_ms, idle_deltas_ms: deltas }
    }

    /// Take an NPU sample: `busy_time_us` is the cumulative busy time read
    /// at `now_ns`. Without an NPU nothing is sampled and nothing changes.
    /// Otherwise gives the busy microseconds and the elapsed microseconds
    /// since the previous sample (none on the first sample), and makes this
    /// sample the previous one.
    pub fn collect_npu(&mut self, busy_time_us: u64, now_ns: u64) -> (r: Option<(u64, u64)>)
        ensures
            !old(self).has_npu() ==> r is None && *final(self) == *old(self),
            final(self).gts() == old(self).gts(),
            final(self).has_npu() == old(self).has_npu(),
            final(self).c6_baseline() == old(self).c6_baseline(),
            final(self).c6_baseline_time() == old(self).c6_baseline_time(),
            old(self).has_npu() ==> final(self).npu_baseline() == (Some(busy_time_us), Some(now_ns)),
            old(self).has_npu() ==> r == match old(self).npu_baseline() {
                (Some(b), Some(t)) => Some((sat_sub(busy_time_us, b), sat_sub(now_ns, t) / 1000)),
                _ => None,
            },
    {
        if !self.npu_available {
            return None;
        }
        let r = match (self.prev_npu_busy_us, self.prev_npu_timestamp) {
            (Some(prev_busy), Some(prev_ts)) => Some(
                (busy_time_us.saturating_sub(prev_busy), now_ns.saturating_sub(prev_ts) / 1000),
            ),
            _ => None,
        };
        self.prev_npu_busy_us = Some(busy_time_us);
        self.prev_npu_timestamp = Some(now_ns);
        r
    }
}

fn copy_pairs(v: &Vec<(u32, u64)>) -> (r: Vec<(u32, u64)>)
    ensures
        r@ == v@,
{
    let mut r: Vec<(u32, u64)> = Vec::new();
    let mut i: usize = 0;
    while i < v.len()
        invariant
            i <= v@.len(),
            r@ == v@.take(i as int),
        decreases v@.len() - i,
    {
        r.push(v[i]);
        assert(r@ =~= v@.take(i + 1));
        i = i + 1;
    }
    assert(r@ =~= v@);
    r
}

fn find_gt(prev: &Vec<(u32, u64)>, id: u32) -> (r: Option<usize>)
    ensures
        match r {
            Some(j) => j < prev@.len() && prev_residency(prev@, id) == Some(prev@[j as int].1),
            None => prev_residency(prev@, id) is None,
        },
{
    let mut j: usize = 0;
    while j < prev.len()
        invariant
            j <= prev@.len(),
            forall|k: int| 0 <= k < j ==> prev@[k].0 != id,
        decreases prev@.len() - j,
    {
        if prev[j].0 == id {
            proof {
                assert(is_first_gt(prev@, id, j as int));
                let k = choose|k: int| is_first_gt(prev@, id, k);
                if k < j {
                    assert(prev@[k].0 != id);
                }
                if j < k {
                    assert(prev@[j as int].0 != id);
                }
            }
            return Some(j);
        }
        j = j + 1;
    }
    proof {
        assert forall|k: int| !is_first_gt(prev@, id, k) by {
            if 0 <= k < prev@.len() {
                assert(prev@[k].0 != id);
            }
        }
    }
    None
}

/// Each GT's C6 time is measured against that GT's own entry in the
/// baseline (its first entry, should the id occur twice): the idle
/// milliseconds it gained since then, 0 when its counter went back; a GT
/// that the baseline lacks gets no delta.
pub proof fn idle_delta_against_own_baseline(prev: Seq<(u32, u64)>, cur: Seq<(u32, u64)>, i: int)
    requires
        0 <= i < cur.len(),
    ensures
        idle_deltas(prev, cur).len() == cur.len(),
        forall|j: int|
            0 <= j < prev.len() && prev[j].0 == cur[i].0 && (forall|k: int|
                0 <= k < j ==> prev[k].0 != cur[i].0) ==> idle_deltas(prev, cur)[i] == Some(
                if cur[i].1 >= #[trigger] prev[j].1 {
                    (cur[i].1 - prev[j].1) as u64
                } else {
                    0u64
                },
            ),
        (forall|k: int| 0 <= k < prev.len() ==> prev[k].0 != cur[i].0) ==> idle_deltas(
            prev,
            cur,
        )[i] is None,
{
    let id = cur[i].0;
    assert forall|j: int|
        0 <= j < prev.len() && prev[j].0 == id && (forall|k: int| 0 <= k < j ==> prev[k].0 != id)
            implies idle_deltas(prev, cur)[i] == Some(
        if cur[i].1 >= #[trigger] prev[j].1 {
            (cur[i].1 - prev[j].1) as u64
        } else {
            0u64
        },
    ) by {
        assert(is_first_gt(prev, id, j));
        let q = choose|q: int| is_first_gt(prev, id, q);
        assert(is_first_gt(prev, id, q));
        if q < j {
            assert(prev[q].0 != id);
        }
        if j < q {
            assert(prev[j].0 != id);
        }
    }
    if forall|k: int| 0 <= k < prev.len() ==> prev[k].0 != id {
        assert(!exists|j: int| is_first_gt(prev, id, j));
    }
}

/// The names that the device lookups match are the kernel's: GT
/// directories start with `gt`, DRM cards with `card`, and the driver links
/// end in `/xe`, `/intel_vpu` or `/ivpu`.
pub proof fn device_names_are_the_kernel_names()
    ensures
        gt_prefix() == ascii_bytes("gt"@),
        card_prefix() == ascii_bytes("card"@),
        xe_driver_suffix() == ascii_bytes("/xe"@),
        intel_vpu_suffix() == ascii_bytes("/intel_vpu"@),
        ivpu_suffix() == ascii_bytes("/ivpu"@),
{
    reveal_strlit("gt");
    reveal_strlit("card");
    reveal_strlit("/xe");
    reveal_strlit("/intel_vpu");
    reveal_strlit("/ivpu");
    assert(gt_prefix() =~= ascii_bytes("gt"@));
    assert(card_prefix() =~= ascii_bytes("card"@));
    assert(xe_driver_suffix() =~= ascii_bytes("/xe"@));
    assert(intel_vpu_suffix() =~= ascii_bytes("/intel_vpu"@));
    assert(ivpu_suffix() =~= ascii_bytes("/ivpu"@));
}

} // verus!
