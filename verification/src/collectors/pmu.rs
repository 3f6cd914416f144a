//! Per-engine utilization from the xe PMU (perf events).
//!
//! Each engine has two counters, active ticks and total ticks; utilization
//! over an interval is the ratio of their increments.
use vstd::prelude::*;

use crate::collectors::fdinfo::sat_sub;
use crate::collectors::fdinfo::engine_name_chars;
use crate::text::{ascii_bytes, has_prefix, starts_with};

verus! {

/// PMU event id of the per-engine active ticks.
pub const EVENT_ACTIVE_TICKS: u64 = 0x02;

/// PMU event id of the per-engine total ticks.
pub const EVENT_TOTAL_TICKS: u64 = 0x03;

/// Number of engines sampled through the PMU.
pub const PMU_ENGINE_COUNT: usize = 5;

/// The event field (bits 0..12) of a PMU config.
pub open spec fn config_event(c: u64) -> u64 {
    c & 0xFFF
}

/// The engine instance field (bits 12..20) of a PMU config.
pub open spec fn config_instance(c: u64) -> u64 {
    (c >> 12u64) & 0xFF
}

/// The engine class field (bits 20..28) of a PMU config.
pub open spec fn config_class(c: u64) -> u64 {
    (c >> 20u64) & 0xFF
}

/// The unused bits 28..60 of a PMU config.
pub open spec fn config_unused(c: u64) -> u64 {
    (c >> 28u64) & 0xFFFF_FFFF
}

/// The GT field (bits 60..64) of a PMU config.
pub open spec fn config_gt(c: u64) -> u64 {
    c >> 60u64
}

/// The PMU config value for an event on one engine of one GT.
/// Format: event[0:11] | engine_instance[12:19] | engine_class[20:27] | gt[60:63]
pub open spec fn pmu_config(event: u64, engine_class: u64, engine_instance: u64, gt: u64) -> u64 {
    (event & 0xFFF) | ((engine_instance & 0xFF) << 12u64) | ((engine_class & 0xFF) << 20u64) | ((
    gt & 0xF) << 60u64)
}

proof fn lemma_config_fields(event: u64, engine_class: u64, engine_instance: u64, gt: u64)
    by (bit_vector)
    ensures
        ({
            let c = (event & 0xFFF) | ((engine_instance & 0xFF) << 12u64) | ((engine_class & 0xFF)
                << 20u64) | ((gt & 0xF) << 60u64);
            &&& c & 0xFFF == event & 0xFFF
            &&& (c >> 12u64) & 0xFF == engine_instance & 0xFF
            &&& (c >> 20u64) & 0xFF == engine_class & 0xFF
            &&& (c >> 28u64) & 0xFFFF_FFFF == 0
            &&& c >> 60u64 == gt & 0xF
        }),
{
}

proof fn lemma_config_determined(c: u64, d: u64)
    by (bit_vector)
    requires
        c & 0xFFF == d & 0xFFF,
        (c >> 12u64) & 0xFF == (d >> 12u64) & 0xFF,
        (c >> 20u64) & 0xFF == (d >> 20u64) & 0xFF,
        (c >> 28u64) & 0xFFFF_FFFF == (d >> 28u64) & 0xFFFF_FFFF,
        c >> 60u64 == d >> 60u64,
    ensures
        c == d,
{
}

/// Build the PMU config value from event, engine class, engine instance and
/// GT: each field lands in its bit range, masked to its width, and the
/// other bits are zero.
pub fn build_config(event: u64, engine_class: u64, engine_instance: u64, gt: u64) -> (r: u64)
    ensures
        r == pmu_config(event, engine_class, engine_instance, gt),
        config_event(r) == event & 0xFFF,
        config_instance(r) == engine_instance & 0xFF,
        config_class(r) == engine_class & 0xFF,
        config_gt(r) == gt & 0xF,
        config_unused(r) == 0,
{
    proof {
        lemma_config_fields(event, engine_class, engine_instance, gt);
    }
    (event & 0xFFF) | ((engine_instance & 0xFF) << 12u64) | ((engine_class & 0xFF) << 20u64) | ((gt
        & 0xF) << 60u64)
}

/// Two configs built from fields that fit their widths are equal only when
/// the fields are: distinct (event, class, instance, GT) choices never share
/// a counter.
pub proof fn pmu_config_injective(
    e1: u64,
    c1: u64,
    i1: u64,
    g1: u64,
    e2: u64,
    c2: u64,
    i2: u64,
    g2: u64,
)
    requires
        e1 <= 0xFFF,
        e2 <= 0xFFF,
        c1 <= 0xFF,
        c2 <= 0xFF,
        i1 <= 0xFF,
        i2 <= 0xFF,
        g1 <= 0xF,
        g2 <= 0xF,
        pmu_config(e1, c1, i1, g1) == pmu_config(e2, c2, i2, g2),
    ensures
        e1 == e2,
        c1 == c2,
        i1 == i2,
        g1 == g2,
{
    lemma_config_fields(e1, c1, i1, g1);
    lemma_config_fields(e2, c2, i2, g2);
    assert(e1 & 0xFFF == e1) by (bit_vector)
        requires
            e1 <= 0xFFF,
    ;
    assert(e2 & 0xFFF == e2) by (bit_vector)
        requires
            e2 <= 0xFFF,
    ;
    assert(c1 & 0xFF == c1) by (bit_vector)
        requires
            c1 <= 0xFF,
    ;
    assert(c2 & 0xFF == c2) by (bit_vector)
        requires
            c2 <= 0xFF,
    ;
    assert(i1 & 0xFF == i1) by (bit_vector)
        requires
            i1 <= 0xFF,
    ;
    assert(i2 & 0xFF == i2) by (bit_vector)
        requires
            i2 <= 0xFF,
    ;
    assert(g1 & 0xF == g1) by (bit_vector)
        requires
            g1 <= 0xF,
    ;
    assert(g2 & 0xF == g2) by (bit_vector)
        requires
            g2 <= 0xF,
    ;
}

/// A config is fully determined by its fields.
pub proof fn pmu_config_from_fields(c: u64, d: u64)
    requires
        config_event(c) == config_event(d),
        config_instance(c) == config_instance(d),
        config_class(c) == config_class(d),
        config_unused(c) == config_unused(d),
        config_gt(c) == config_gt(d),
    ensures
        c == d,
{
    lemma_config_determined(c, d);
}

/// An engine sampled through the PMU.
pub struct PmuEngine {
    pub name: &'static str,
    pub label: &'static str,
    pub gt_id: u32,
    pub engine_class: u64,
    pub engine_instance: u64,
}

/// Short name of the `i`-th PMU engine.
pub open spec fn pmu_engine_name(i: int) -> Seq<char> {
    if i == 0 {
        "rcs"@
    } else if i == 1 {
        "ccs"@
    } else if i == 2 {
        "bcs"@
    } else if i == 3 {
        "vcs"@
    } else {
        "vecs"@
    }
}

/// Display label of the `i`-th PMU engine.
pub open spec fn pmu_engine_label(i: int) -> Seq<char> {
    if i == 0 {
        "Render"@
    } else if i == 1 {
        "Compute"@
    } else if i == 2 {
        "Blitter"@
    } else if i == 3 {
        "Video"@
    } else {
        "VideoEnh"@
    }
}

/// GT of the `i`-th PMU engine: render, compute and blitter on GT0, the
/// video engines on GT1.
pub open spec fn pmu_engine_gt(i: int) -> u32 {
    if i <= 2 {
        0
    } else {
        1
    }
}

/// Engine class of the `i`-th PMU engine.
pub open spec fn pmu_engine_class(i: int) -> u64 {
    if i == 0 {
        0
    } else if i == 1 {
        1
    } else if i == 2 {
        4
    } else if i == 3 {
        2
    } else {
        3
    }
}

/// The `i`-th engine sampled through the PMU: rcs (Render), ccs (Compute),
/// bcs (Blitter) on GT0, vcs (Video) and vecs (VideoEnh) on GT1, each
/// instance 0.
pub fn pmu_engine(i: usize) -> (r: PmuEngine)
    requires
        i < PMU_ENGINE_COUNT,
    ensures
        r.name@ == pmu_engine_name(i as int),
        r.label@ == pmu_engine_label(i as int),
        r.gt_id == pmu_engine_gt(i as int),
        r.engine_class == pmu_engine_class(i as int),
        r.engine_instance == 0,
{
    if i == 0 {
        PmuEngine { name: "rcs", label: "Render", gt_id: 0, engine_class: 0, engine_instance: 0 }
    } else if i == 1 {
        PmuEngine { name: "ccs", label: "Compute", gt_id: 0, engine_class: 1, engine_instance: 0 }
    } else if i == 2 {
        PmuEngine { name: "bcs", label: "Blitter", gt_id: 0, engine_class: 4, engine_instance: 0 }
    } else if i == 3 {
        PmuEngine { name: "vcs", label: "Video", gt_id: 1, engine_class: 2, engine_instance: 0 }
    } else {
        PmuEngine { name: "vecs", label: "VideoEnh", gt_id: 1, engine_class: 3, engine_instance: 0 }
    }
}

/// The configs of the active-ticks and total-ticks counters of `engine`.
pub fn event_configs(engine: &PmuEngine) -> (r: (u64, u64))
    ensures
        r.0 == pmu_config(
            EVENT_ACTIVE_TICKS,
            engine.engine_class,
            engine.engine_instance,
            engine.gt_id as u64,
        ),
        r.1 == pmu_config(
            EVENT_TOTAL_TICKS,
            engine.engine_class,
            engine.engine_instance,
            engine.gt_id as u64,
        ),
{
    let gt = engine.gt_id as u64;
    (
        build_config(EVENT_ACTIVE_TICKS, engine.engine_class, engine.engine_instance, gt),
        build_config(EVENT_TOTAL_TICKS, engine.engine_class, engine.engine_instance, gt),
    )
}

/// `xe_`
pub open spec fn xe_pmu_prefix() -> Seq<u8> {
    seq![120u8, 101, 95]
}

/// Whether an entry of `/sys/bus/event_source/devices` is an xe PMU: its
/// name starts with `xe_`.
pub fn is_xe_pmu_name(name: &[u8]) -> (r: bool)
    ensures
        r == has_prefix(name@, xe_pmu_prefix()),
{
    let pat: [u8; 3] = [120u8, 101, 95];
    let n = name.len();
    proof {
        assert(name@.subrange(0, n as int) =~= name@);
        assert(pat@ =~= xe_pmu_prefix());
    }
    starts_with(name, 0, n, pat.as_slice())
}

/// The active and total tick counts of each engine at the previous sample.
pub struct EngineTicks {
    prev: Vec<(u64, u64)>,
    primed: bool,
}

impl EngineTicks {
    /// The previous sample, one (active, total) pair per engine.
    pub closed spec fn previous(self) -> Seq<(u64, u64)> {
        self.prev@
    }

    /// Whether a sample has been taken.
    pub closed spec fn has_sample(self) -> bool {
        self.primed
    }

    /// No sample taken yet, for `n` engines.
    pub fn new(n: usize) -> (r: Self)
        ensures
            r.previous() == Seq::new(n as nat, |i: int| (0u64, 0u64)),
            !r.has_sample(),
    {
        let mut prev: Vec<(u64, u64)> = Vec::new();
        let mut i: usize = 0;
        while i < n
            invariant
                i <= n,
                prev@ == Seq::new(i as nat, |k: int| (0u64, 0u64)),
            decreases n - i,
        {
            prev.push((0, 0));
            i = i + 1;
            assert(prev@ =~= Seq::new(i as nat, |k: int| (0u64, 0u64)));
        }
        EngineTicks { prev, primed: false }
    }

    /// Take a sample: for each engine the (active, total) tick increments
    /// since the previous sample, none before the first sample.
    pub fn record(&mut self, readings: &Vec<(u64, u64)>) -> (r: Vec<Option<(u64, u64)>>)
        requires
            readings@.len() == old(self).previous().len(),
        ensures
            r@.len() == readings@.len(),
            forall|i: int|
                0 <= i < r@.len() ==> r@[i] == if old(self).has_sample() {
                    Some(
                        (
                            sat_sub(readings@[i].0, old(self).previous()[i].0),
                            sat_sub(readings@[i].1, old(self).previous()[i].1),
                        ),
                    )
                } else {
                    None::<(u64, u64)>
                },
            final(self).previous() == readings@,
            final(self).has_sample(),
    {
        let mut r: Vec<Option<(u64, u64)>> = Vec::new();
        let mut next: Vec<(u64, u64)> = Vec::new();
        let mut i: usize = 0;
        while i < readings.len()
            invariant
                i <= readings@.len(),
                readings@.len() == self.prev@.len(),
                r@.len() == i,
                next@ == readings@.take(i as int),
                forall|k: int|
                    0 <= k < i ==> r@[k] == if self.primed {
                        Some(
                            (
                                sat_sub(readings@[k].0, self.prev@[k].0),
                                sat_sub(readings@[k].1, self.prev@[k].1),
                            ),
                        )
                    } else {
                        None::<(u64, u64)>
                    },
            decreases readings@.len() - i,
        {
            let (active, total) = readings[i];
            if self.primed {
                let (pa, pt) = self.prev[i];
                r.push(Some((active.saturating_sub(pa), total.saturating_sub(pt))));
            } else {
                r.push(None);
            }
            next.push((active, total));
            assert(next@ =~= readings@.take(i + 1));
            i = i + 1;
        }
        assert(next@ =~= readings@);
        self.prev = next;
        self.primed = true;
        r
    }
}

/// The PMU engines are the engines that fdinfo reports, in the same order,
/// each with its display label, GT and xe engine class: rcs (Render, class
/// 0), ccs (Compute, class 1), bcs (Blitter, class 4) on GT0, vcs (Video,
/// class 2) and vecs (VideoEnh, class 3) on GT1; the PMU prefix is `xe_`.
pub proof fn pmu_engine_table()
    ensures
        forall|i: int| 0 <= i < PMU_ENGINE_COUNT ==> #[trigger] pmu_engine_name(i) == engine_name_chars(i),
        pmu_engine_label(0) == "Render"@ && pmu_engine_gt(0) == 0 && pmu_engine_class(0) == 0,
        pmu_engine_label(1) == "Compute"@ && pmu_engine_gt(1) == 0 && pmu_engine_class(1) == 1,
        pmu_engine_label(2) == "Blitter"@ && pmu_engine_gt(2) == 0 && pmu_engine_class(2) == 4,
        pmu_engine_label(3) == "Video"@ && pmu_engine_gt(3) == 1 && pmu_engine_class(3) == 2,
        pmu_engine_label(4) == "VideoEnh"@ && pmu_engine_gt(4) == 1 && pmu_engine_class(4) == 3,
        xe_pmu_prefix() == ascii_bytes("xe_"@),
{
    reveal_strlit("rcs");
    reveal_strlit("ccs");
    reveal_strlit("bcs");
    reveal_strlit("vcs");
    reveal_strlit("vecs");
    reveal_strlit("xe_");
    assert(pmu_engine_name(0) =~= engine_name_chars(0));
    assert(pmu_engine_name(1) =~= engine_name_chars(1));
    assert(pmu_engine_name(2) =~= engine_name_chars(2));
    assert(pmu_engine_name(3) =~= engine_name_chars(3));
    assert(pmu_engine_name(4) =~= engine_name_chars(4));
    assert(xe_pmu_prefix() =~= ascii_bytes("xe_"@));
}

} // verus!
