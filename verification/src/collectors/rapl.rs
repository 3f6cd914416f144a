//! Package, core and DRAM power from the RAPL energy counters.
//!
//! The counters are cumulative microjoules that wrap to zero after the
//! largest value of their range (`max_energy_range_uj`); power is the
//! increment over the time between two samples.
use vstd::prelude::*;

verus! {

/// `current - previous` as a counter whose largest value is `range` counts:
/// when the counter wrapped around, the increment across the wrap. A
/// previous reading beyond the range cannot come from that counter; the
/// count is then taken to have restarted from zero.
pub open spec fn energy_increment(current: u64, previous: u64, range: u64) -> u64 {
    if current >= previous {
        (current - previous) as u64
    } else if previous <= range {
        ((range - previous) + current + 1) as u64
    } else {
        current
    }
}

/// Energy counted between two readings of a RAPL counter whose largest
/// value is `range`, handling wrap-around of the register.
pub fn energy_delta(current: u64, previous: u64, range: u64) -> (r: u64)
    ensures
        r == energy_increment(current, previous, range),
        current >= previous ==> r == current - previous,
        previous > current && previous <= range ==> r == (range - previous) + current + 1,
{
    if current >= previous {
        current - previous
    } else if previous <= range {
        // The counter wrapped around past the top of its range.
        (range - previous) + current + 1
    } else {
        current
    }
}

/// One reading of the three counters.
pub struct RaplSnapshot {
    pub pkg_uj: u64,
    pub core_uj: u64,
    pub dram_uj: u64,
    /// When the reading was taken, in nanoseconds of a monotonic clock.
    pub timestamp_ns: u64,
}

/// Energy counted since the previous reading, and the time it took.
pub struct EnergyDeltas {
    pub pkg_uj: u64,
    pub core_uj: u64,
    pub dram_uj: u64,
    pub elapsed_ns: u64,
}

/// What one sample of the counters gives.
pub struct RaplSample {
    pub pkg_energy_uj: u64,
    pub core_energy_uj: u64,
    pub dram_energy_uj: u64,
    /// `None` on the first sample, when the counters are unavailable, and
    /// when no time passed since the previous sample.
    pub deltas: Option<EnergyDeltas>,
}

/// Package energy counter.
pub const RAPL_PKG_ENERGY: &'static str = "/sys/class/powercap/intel-rapl:0/energy_uj";

/// Core energy counter.
pub const RAPL_CORE_ENERGY: &'static str = "/sys/class/powercap/intel-rapl:0/intel-rapl:0:0/energy_uj";

/// DRAM energy counter.
pub const RAPL_DRAM_ENERGY: &'static str = "/sys/class/powercap/intel-rapl:0/intel-rapl:0:1/energy_uj";

/// Largest value of the package counter.
pub const RAPL_PKG_RANGE: &'static str = "/sys/class/powercap/intel-rapl:0/max_energy_range_uj";

/// Largest value of the core counter.
pub const RAPL_CORE_RANGE: &'static str = "/sys/class/powercap/intel-rapl:0/intel-rapl:0:0/max_energy_range_uj";

/// Largest value of the DRAM counter.
pub const RAPL_DRAM_RANGE: &'static str = "/sys/class/powercap/intel-rapl:0/intel-rapl:0:1/max_energy_range_uj";

/// Power from the RAPL energy counters.
pub struct RaplCollector {
    prev: Option<RaplSnapshot>,
    available: bool,
    /// Largest values of the package, core and DRAM counters.
    ranges: (u64, u64, u64),
}

/// Mathematical model of the previous reading.
pub open spec fn snapshot_view(s: Option<RaplSnapshot>) -> Option<(u64, u64, u64, u64)> {
    match s {
        Some(p) => Some((p.pkg_uj, p.core_uj, p.dram_uj, p.timestamp_ns)),
        None => None,
    }
}

impl RaplCollector {
    /// The previous reading: package, core and DRAM microjoules and the time.
    pub closed spec fn previous(self) -> Option<(u64, u64, u64, u64)> {
        snapshot_view(self.prev)
    }

    /// Whether the counters exist on this machine.
    pub closed spec fn available(self) -> bool {
        self.available
    }

    /// Largest values of the package, core and DRAM counters.
    pub closed spec fn counter_ranges(self) -> (u64, u64, u64) {
        self.ranges
    }

    /// A collector with no reading yet; `available` says whether the
    /// package counter exists, and `pkg_range`, `core_range` and
    /// `dram_range` are the largest values of the three counters, after
    /// which each wraps to zero.
    pub fn new(available: bool, pkg_range: u64, core_range: u64, dram_range: u64) -> (r: Self)
        ensures
            r.available() == available,
            r.previous() is None,
            r.counter_ranges() == (pkg_range, core_range, dram_range),
    {
        RaplCollector { prev: None, available, ranges: (pkg_range, core_range, dram_range) }
    }

    /// Whether the counters exist on this machine.
    pub fn is_available(&self) -> (r: bool)
        ensures
            r == self.available(),
    {
        self.available
    }

    /// Paths of the package, core and DRAM counters.
    pub fn paths(&self) -> (r: (&'static str, &'static str, &'static str))
        ensures
            r.0@ == RAPL_PKG_ENERGY@,
            r.1@ == RAPL_CORE_ENERGY@,
            r.2@ == RAPL_DRAM_ENERGY@,
    {
        (RAPL_PKG_ENERGY, RAPL_CORE_ENERGY, RAPL_DRAM_ENERGY)
    }

    /// Take a sample of the counters read at `now_ns`. When the counters are
    /// unavailable the sample is all zeros and nothing is recorded.
    /// Otherwise the readings become the previous reading, and when an
    /// earlier reading exists and time has passed since it, the sample holds
    /// the energy counted since then, across a wrap of each counter's range.
    pub fn collect(&mut self, pkg_uj: u64, core_uj: u64, dram_uj: u64, now_ns: u64) -> (r:
        RaplSample)
        ensures
            final(self).available() == old(self).available(),
            final(self).counter_ranges() == old(self).counter_ranges(),
            !old(self).available() ==> {
                &&& final(self).previous() == old(self).previous()
                &&& r.pkg_energy_uj == 0 && r.core_energy_uj == 0 && r.dram_energy_uj == 0
                &&& r.deltas is None
            },
            old(self).available() ==> {
                let m = old(self).counter_ranges();
                &&& final(self).previous() == Some((pkg_uj, core_uj, dram_uj, now_ns))
                &&& r.pkg_energy_uj == pkg_uj && r.core_energy_uj == core_uj && r.dram_energy_uj
                    == dram_uj
                &&& match old(self).previous() {
                    Some(p) => if now_ns > p.3 {
                        r.deltas matches Some(d) && d.pkg_uj == energy_increment(pkg_uj, p.0, m.0)
                            && d.core_uj == energy_increment(core_uj, p.1, m.1) && d.dram_uj
                            == energy_increment(dram_uj, p.2, m.2) && d.elapsed_ns == now_ns - p.3
                    } else {
                        r.deltas is None
                    },
                    None => r.deltas is None,
                }
            },
    {
        if !self.available {
            return RaplSample { pkg_energy_uj: 0, core_energy_uj: 0, dram_energy_uj: 0, deltas: None };
        }
        let (pkg_range, core_range, dram_range) = self.ranges;
        let deltas = match &self.prev {
            Some(p) => {
                if now_ns > p.timestamp_ns {
                    Some(
                        EnergyDeltas {
                            pkg_uj: energy_delta(pkg_uj, p.pkg_uj, pkg_range),
                            core_uj: energy_delta(core_uj, p.core_uj, core_range),
                            dram_uj: energy_delta(dram_uj, p.dram_uj, dram_range),
                            elapsed_ns: now_ns - p.timestamp_ns,
                        },
                    )
                } else {
                    None
                }
            },
            None => None,
        };
        self.prev = Some(RaplSnapshot { pkg_uj, core_uj, dram_uj, timestamp_ns: now_ns });
        RaplSample { pkg_energy_uj: pkg_uj, core_energy_uj: core_uj, dram_energy_uj: dram_uj, deltas }
    }
}

/// For two readings of a counter that counts from 0 to `range` and then
/// wraps to 0, the increment added to the earlier reading gives back the
/// later one, modulo the `range + 1` values of the counter: the increment
/// is what the counter advanced by, and it never exceeds the range.
pub proof fn energy_increment_advances(current: u64, previous: u64, range: u64)
    requires
        current <= range,
        previous <= range,
    ensures
        (previous + energy_increment(current, previous, range)) % (range + 1) == current,
        energy_increment(current, previous, range) <= range,
{
    let m = range + 1;
    if current >= previous {
        vstd::arithmetic::div_mod::lemma_small_mod(current as nat, m as nat);
    } else {
        assert(previous + energy_increment(current, previous, range) == m + current);
        vstd::arithmetic::div_mod::lemma_mod_add_multiples_vanish(current as int, m as int);
        vstd::arithmetic::div_mod::lemma_small_mod(current as nat, m as nat);
    }
}

} // verus!
