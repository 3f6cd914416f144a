use xetop::collectors::pmu::{
    build_config, event_configs, is_xe_pmu_name, pmu_engine, EngineTicks, EVENT_ACTIVE_TICKS,
    EVENT_TOTAL_TICKS, PMU_ENGINE_COUNT,
};
use xetop::collectors::rapl::{energy_delta, RaplCollector, RAPL_PKG_ENERGY};
use xetop::text::IntErrorKind;
use xetop::collectors::read_sysfs_value;
use xetop::collectors::sysfs::{
    discover_gt_ids, gt_id_from_name, is_card_entry, is_npu_driver, is_xe_driver, khz_to_mhz, C6Update,
    SysfsCollector,
};

#[test]
fn sysfs_values_are_trimmed_and_parsed() {
    assert_eq!(read_sysfs_value::<u32>(b"1950\n"), Ok(1950));
    assert_eq!(read_sysfs_value::<u64>(b"  +42 \t\n"), Ok(42));
    assert_eq!(read_sysfs_value::<u32>(b"4294967296\n"), Err(IntErrorKind::PosOverflow));
    assert_eq!(read_sysfs_value::<u64>(b"4294967296\n"), Ok(4294967296));
    assert_eq!(read_sysfs_value::<u64>(b"18446744073709551615"), Ok(u64::MAX));
    assert_eq!(read_sysfs_value::<u64>(b"18446744073709551616"), Err(IntErrorKind::PosOverflow));
    assert_eq!(read_sysfs_value::<u64>(b""), Err(IntErrorKind::Empty));
    assert_eq!(read_sysfs_value::<u64>(b"+"), Err(IntErrorKind::InvalidDigit));
    assert_eq!(read_sysfs_value::<u64>(b"-1"), Err(IntErrorKind::InvalidDigit));
    assert_eq!(read_sysfs_value::<u64>(b"1 2"), Err(IntErrorKind::InvalidDigit));
    assert_eq!(read_sysfs_value::<u64>("\u{2028}7\u{205f}".as_bytes()), Ok(7));
}

#[test]
fn sysfs_values_match_std_parse() {
    for s in [
        "0", "00012", "+0", "++1", " 5", "5 ", "\u{85}9", "1_0", "99999999999", "", "+", "-",
        "-0", "9999999999x", "12x99999999999999999999", "gt-c6\n", "18446744073709551616x",
    ] {
        assert_eq!(
            read_sysfs_value::<u32>(s.as_bytes()).map_err(|e| e.message().to_string()),
            s.trim().parse::<u32>().map_err(|e| e.to_string()),
            "{s:?}"
        );
        assert_eq!(
            read_sysfs_value::<u64>(s.as_bytes()).map_err(|e| e.message().to_string()),
            s.trim().parse::<u64>().map_err(|e| e.to_string()),
            "{s:?}"
        );
    }
}

#[test]
fn pmu_config_layout() {
    assert_eq!(build_config(0x02, 0, 0, 0), 0x02);
    assert_eq!(build_config(0x03, 4, 0, 0), 0x0040_0003);
    assert_eq!(build_config(0x02, 2, 1, 1), 0x1000_0000_0020_1002);
    assert_eq!(build_config(0xFFFF, 0x1FF, 0x1FF, 0x1F), 0xF000_0000_0FFF_FFFF);
}

#[test]
fn pmu_engine_table() {
    let rows: Vec<(&str, &str, u32, u64, u64)> = (0..PMU_ENGINE_COUNT)
        .map(|i| {
            let e = pmu_engine(i);
            (e.name, e.label, e.gt_id, e.engine_class, e.engine_instance)
        })
        .collect();
    assert_eq!(
        rows,
        vec![
            ("rcs", "Render", 0, 0, 0),
            ("ccs", "Compute", 0, 1, 0),
            ("bcs", "Blitter", 0, 4, 0),
            ("vcs", "Video", 1, 2, 0),
            ("vecs", "VideoEnh", 1, 3, 0),
        ]
    );
    let vcs = pmu_engine(3);
    assert_eq!(
        event_configs(&vcs),
        (
            build_config(EVENT_ACTIVE_TICKS, 2, 0, 1),
            build_config(EVENT_TOTAL_TICKS, 2, 0, 1)
        )
    );
    assert_eq!(event_configs(&vcs), (0x1000_0000_0020_0002, 0x1000_0000_0020_0003));
}

#[test]
fn pmu_device_names() {
    assert!(is_xe_pmu_name(b"xe_0000_00_02.0"));
    assert!(!is_xe_pmu_name(b"i915"));
    assert!(!is_xe_pmu_name(b"xe"));
}

#[test]
fn engine_ticks_deltas() {
    let mut t = EngineTicks::new(2);
    assert_eq!(t.record(&vec![(10, 100), (5, 50)]), vec![None, None]);
    assert_eq!(t.record(&vec![(30, 200), (4, 90)]), vec![Some((20, 100)), Some((0, 40))]);
}

#[test]
fn rapl_energy_wraps() {
    assert_eq!(energy_delta(150, 100, u64::MAX), 50);
    assert_eq!(energy_delta(5, u64::MAX - 4, u64::MAX), 10);
    assert_eq!(energy_delta(7, 7, 1000), 0);
    // A 32-bit register wraps after 0xFFFF_FFFF.
    assert_eq!(energy_delta(5, 0xFFFF_FFF0, 0xFFFF_FFFF), 21);
    // A register with a range in microjoules, as max_energy_range_uj gives it.
    assert_eq!(energy_delta(100, 262_143_328_850, 262_143_328_850), 101);
    // A previous reading beyond the range: the count restarts from zero.
    assert_eq!(energy_delta(5, 2000, 1000), 5);
}

#[test]
fn rapl_samples() {
    let mut r = RaplCollector::new(true, u64::MAX, u64::MAX, 0xFFFF_FFFF);
    assert!(r.is_available());
    assert_eq!(r.paths().0, RAPL_PKG_ENERGY);
    let s = r.collect(1_000_000, 500_000, 100_000, 1_000_000_000);
    assert_eq!((s.pkg_energy_uj, s.core_energy_uj, s.dram_energy_uj), (1_000_000, 500_000, 100_000));
    assert!(s.deltas.is_none());
    let s = r.collect(3_000_000, 600_000, 50_000, 3_000_000_000);
    let d = s.deltas.expect("deltas");
    assert_eq!((d.pkg_uj, d.core_uj, d.elapsed_ns), (2_000_000, 100_000, 2_000_000_000));
    assert_eq!(d.dram_uj, 0xFFFF_FFFF - 100_000 + 50_000 + 1);
    let s = r.collect(3_000_001, 600_000, 50_000, 3_000_000_000);
    assert!(s.deltas.is_none());
    let mut off = RaplCollector::new(false, u64::MAX, u64::MAX, u64::MAX);
    let s = off.collect(1, 2, 3, 4);
    assert_eq!((s.pkg_energy_uj, s.core_energy_uj, s.dram_energy_uj), (0, 0, 0));
    assert!(s.deltas.is_none());
}

#[test]
fn gt_entries() {
    assert_eq!(gt_id_from_name(b"gt0"), Some(0));
    assert_eq!(gt_id_from_name(b"gt12"), Some(12));
    assert_eq!(gt_id_from_name(b"gt"), None);
    assert_eq!(gt_id_from_name(b"gtx"), None);
    assert_eq!(gt_id_from_name(b"mem"), None);
    let names: Vec<Vec<u8>> = ["gt1", "uevent", "gt0", "gt10", "gt2", "power"]
        .iter()
        .map(|s| s.as_bytes().to_vec())
        .collect();
    assert_eq!(discover_gt_ids(&names), vec![0, 1, 2, 10]);
}

#[test]
fn device_links() {
    assert!(is_card_entry(b"card0"));
    assert!(!is_card_entry(b"card0-eDP-1"));
    assert!(!is_card_entry(b"renderD128"));
    assert!(is_xe_driver(b"../../../../bus/pci/drivers/xe"));
    assert!(!is_xe_driver(b"../../../../bus/pci/drivers/i915"));
    assert!(!is_xe_driver(b"xe"));
    assert!(is_npu_driver(b"../../bus/pci/drivers/intel_vpu"));
    assert!(is_npu_driver(b"../../bus/pci/drivers/ivpu"));
    assert!(!is_npu_driver(b"../../bus/pci/drivers/xe"));
}

#[test]
fn c6_residency_deltas() {
    let names: Vec<Vec<u8>> = vec![b"gt1".to_vec(), b"gt0".to_vec()];
    let mut s = SysfsCollector::new(&names, false);
    assert_eq!(s.gt_ids(), &vec![0, 1]);
    assert!(!s.npu_available());
    assert!(matches!(s.compute_c6_deltas(&vec![(0, 1000), (1, 500)], 1_000_000_000), C6Update::Baseline));
    assert!(matches!(s.compute_c6_deltas(&vec![(0, 2000), (1, 900)], 1_000_500_000), C6Update::NoTimeElapsed));
    match s.compute_c6_deltas(&vec![(0, 1500), (1, 400), (2, 5)], 2_000_000_000) {
        C6Update::Deltas { elapsed_ms, idle_deltas_ms } => {
            assert_eq!(elapsed_ms, 1000);
            assert_eq!(idle_deltas_ms, vec![Some(500), Some(0), None]);
        }
        _ => panic!("expected deltas"),
    }
}

#[test]
fn npu_busy_deltas() {
    let mut s = SysfsCollector::new(&Vec::new(), true);
    assert!(s.npu_available());
    assert_eq!(s.collect_npu(1000, 5_000_000), None);
    assert_eq!(s.collect_npu(1500, 6_000_000), Some((500, 1000)));
    assert_eq!(s.collect_npu(1400, 6_000_999), Some((0, 0)));
}

#[test]
fn npu_disabled_samples_nothing() {
    let mut s = SysfsCollector::new(&Vec::new(), false);
    assert_eq!(s.collect_npu(1000, 5_000_000), None);
    assert_eq!(s.collect_npu(1500, 6_000_000), None);
    assert_eq!(s.collect_npu(1600, 7_000_000), None);
}

#[test]
fn frequencies_in_mhz() {
    assert_eq!(khz_to_mhz(1_950_000), 1950);
    assert_eq!(khz_to_mhz(999), 0);
    assert_eq!(khz_to_mhz(0), 0);
}
