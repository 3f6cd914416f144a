use xetop::ui::help_overlay::{centered_rect, Area};
use xetop::app::SortColumn;
use xetop::ui::process_table::{
    format_memory, gtt_label, header_label, is_selected_row, table_title, truncate,
};

fn reference_memory(kb: u64) -> String {
    if kb >= 1_048_576 {
        format!("{:.1}G", kb as f64 / 1_048_576.0)
    } else if kb >= 1024 {
        format!("{}M", kb / 1024)
    } else {
        format!("{}K", kb)
    }
}

#[test]
fn memory_cells() {
    assert_eq!(format_memory(0), "0K");
    assert_eq!(format_memory(1023), "1023K");
    assert_eq!(format_memory(1024), "1M");
    assert_eq!(format_memory(377_400), "368M");
    assert_eq!(format_memory(1_048_575), "1023M");
    assert_eq!(format_memory(1_048_576), "1.0G");
    assert_eq!(format_memory(1_572_864), "1.5G");
    assert_eq!(format_memory(33_554_432), "32.0G");
}

#[test]
fn memory_cells_match_float_formatting() {
    let mut cases: Vec<u64> = vec![
        1_048_576,
        1_153_433,
        1_310_720,
        1_835_008,
        2_097_151,
        10_433_331,
        (1 << 53) - 1,
        1 << 53,
        (1 << 53) + 1,
        (1 << 53) + 3,
        (1 << 54) + 2,
        (1 << 54) + 6,
        u64::MAX - 1024,
        u64::MAX,
    ];
    let mut x: u64 = 0x9E37_79B9_7F4A_7C15;
    for _ in 0..2000 {
        x ^= x << 13;
        x ^= x >> 7;
        x ^= x << 17;
        cases.push(x >> (x % 40));
    }
    for kb in cases {
        assert_eq!(format_memory(kb), reference_memory(kb), "kb = {kb}");
    }
}

#[test]
fn gtt_cells() {
    assert_eq!(gtt_label(0), "0K");
    assert_eq!(gtt_label(1023), "1023K");
    assert_eq!(gtt_label(1024), "1M");
    assert_eq!(gtt_label(377_400), "368M");
    assert_eq!(gtt_label(u64::MAX), format!("{}M", u64::MAX / 1024));
}

#[test]
fn truncation_respects_char_boundaries() {
    assert_eq!(truncate("Xwayland", 14), "Xwayland");
    assert_eq!(truncate("chromium-browser-stable", 14), "chromium-brows");
    assert_eq!(truncate("ééééééééé", 14), "ééééééé");
    assert_eq!(truncate("aéééééééé", 14), "aéééééé");
    assert_eq!(truncate("日本語", 4), "日");
    assert_eq!(truncate("日本語", 2), "");
    assert_eq!(truncate("", 0), "");
    assert_eq!(truncate("abc", 0), "");
}

#[test]
fn help_box_is_centered() {
    let r = centered_rect(50, 16, Area { x: 0, y: 0, width: 100, height: 40 });
    assert_eq!(r, Area { x: 25, y: 12, width: 50, height: 16 });
    let r = centered_rect(50, 16, Area { x: 10, y: 5, width: 60, height: 20 });
    assert_eq!(r, Area { x: 15, y: 7, width: 50, height: 16 });
}

fn span(origin: u16, extent: u16, len: u16) -> (u16, u16) {
    let ext = (origin as u32 + extent as u32).min(u16::MAX as u32) - origin as u32;
    let seg = (len as u32).min(ext);
    ((origin as u32 + (ext - seg + 1) / 2) as u16, seg as u16)
}

#[test]
fn help_box_centering_rounds_and_clips() {
    // An odd number of cells left over puts the extra one before the box.
    let r = centered_rect(50, 16, Area { x: 0, y: 0, width: 101, height: 41 });
    assert_eq!(r, Area { x: 26, y: 13, width: 50, height: 16 });
    // A box larger than the area takes the whole area.
    let r = centered_rect(50, 16, Area { x: 3, y: 4, width: 20, height: 10 });
    assert_eq!(r, Area { x: 3, y: 4, width: 20, height: 10 });
    let cases: [(u16, u16, u16); 12] = [
        (0, 0, 5),
        (0, 1, 0),
        (7, 9, 4),
        (7, 10, 4),
        (1, 200, 199),
        (1, 200, 198),
        (100, 33, 50),
        (65_530, 100, 3),
        (65_530, 100, 2),
        (65_535, 10, 1),
        (0, 65_535, 16),
        (12, 80, 80),
    ];
    for (origin, extent, len) in cases {
        let r = centered_rect(len, len, Area { x: origin, y: origin, width: extent, height: extent });
        let (start, seg) = span(origin, extent, len);
        assert_eq!(r, Area { x: start, y: start, width: seg, height: seg }, "{origin} {extent} {len}");
    }
}

#[test]
fn process_table_header_and_title() {
    assert_eq!(header_label(SortColumn::Pid, SortColumn::Pid, false), "PID\u{25b2}");
    assert_eq!(header_label(SortColumn::Vecs, SortColumn::Vecs, true), "VECS\u{25bc}");
    assert_eq!(header_label(SortColumn::Command, SortColumn::Gtt, true), "COMMAND");
    assert_eq!(header_label(SortColumn::Gtt, SortColumn::Gtt, false), "GTT▲");
    assert_eq!(table_title(0), " Processes (0) [s:sort r:reverse] ");
    assert_eq!(table_title(12), format!(" Processes ({}) [s:sort r:reverse] ", 12));
    assert!(is_selected_row(3, 3));
    assert!(!is_selected_row(2, 3));
}
