use mrdu::{size_fraction, show_disk_analyze_result, AnalysisItem, Arguments, DisplayItemInfo, Percent, Rgb, Share};

fn info(part: u64, whole: u64, level: usize) -> DisplayItemInfo {
    let mut i = DisplayItemInfo::new();
    for _ in 0..level {
        i = i.add_item(Share { part, whole }, false);
    }
    i
}

#[test]
fn root_info_and_children() {
    let root = DisplayItemInfo::new();
    assert_eq!(root.dir_level, 0);
    assert!(root.is_last);
    assert_eq!(root.prefix, "");
    assert_eq!(root.occupied_size, Share { part: 1, whole: 1 });
    let a = root.add_item(Share { part: 3, whole: 4 }, false);
    assert_eq!(a.dir_level, 1);
    assert!(!a.is_last);
    assert_eq!(a.prefix, "    ");
    let b = a.add_item(Share { part: 1, whole: 3 }, true);
    assert_eq!(b.prefix, "    │  ");
    let c = b.add_item(Share { part: 1, whole: 1 }, true);
    assert_eq!(c.prefix, "    │      ");
}

#[test]
fn prefix_glyphs() {
    let last = DisplayItemInfo::new();
    assert_eq!(last.display_prefix(true), "└──");
    assert_eq!(last.display_prefix(false), "  ");
    let mid = last.add_item(Share { part: 1, whole: 2 }, false);
    assert_eq!(mid.display_prefix(true), "├──");
    assert_eq!(mid.display_prefix(false), "│");
}

#[test]
fn colour_bands() {
    assert_eq!(DisplayItemInfo::new().display_color(false), Rgb { r: 250, g: 250, b: 250 });
    assert_eq!(DisplayItemInfo::new().display_color(true), Rgb { r: 125, g: 125, b: 250 });
    assert_eq!(info(1, 2, 1).display_color(false), Rgb { r: 255, g: 100, b: 100 });
    assert_eq!(info(1, 2, 1).display_color(true), Rgb { r: 128, g: 50, b: 100 });
    assert_eq!(info(1, 10, 1).display_color(false), Rgb { r: 255, g: 222, b: 72 });
    assert_eq!(info(49, 100, 2).display_color(true), Rgb { r: 128, g: 111, b: 72 });
    assert_eq!(info(9, 100, 1).display_color(false), Rgb { r: 100, g: 255, b: 90 });
    assert_eq!(info(5, 0, 1).display_color(true), Rgb { r: 50, g: 128, b: 90 });
}

#[test]
fn share_threshold_comparison() {
    let quarter = Share { part: 1, whole: 4 };
    assert!(quarter.exceeds(&Percent { num: 2499, den: 100 }));
    assert!(!quarter.exceeds(&Percent { num: 25, den: 1 }));
    assert!(!quarter.exceeds(&Percent { num: 26, den: 1 }));
    assert!(quarter.exceeds(&Percent { num: 7, den: 0 }));
    assert!(!Share { part: 0, whole: 4 }.exceeds(&Percent { num: 0, den: 1 }));
    assert!(!Share { part: 3, whole: 0 }.exceeds(&Percent { num: 0, den: 1 }));
    let big = Share { part: u64::MAX, whole: u64::MAX };
    assert!(big.exceeds(&Percent { num: 99, den: 1 }));
    assert!(!big.exceeds(&Percent { num: u32::MAX, den: 1 }));
}

#[test]
fn share_at_least_bands() {
    assert!(Share { part: 1, whole: 2 }.at_least(50));
    assert!(!Share { part: 49, whole: 100 }.at_least(50));
    assert!(!Share { part: 0, whole: 0 }.at_least(0));
}

#[test]
fn size_fraction_of_child() {
    let child = AnalysisItem::leaf("c".to_string(), 5);
    let parent = AnalysisItem::directory("p".to_string(), vec![Ok(AnalysisItem::leaf("c".to_string(), 5)), Ok(AnalysisItem::leaf("d".to_string(), 15))]).unwrap();
    assert_eq!(size_fraction(&child, &parent), Share { part: 5, whole: 20 });
}

#[test]
fn appends_after_existing_rows() {
    let tree = AnalysisItem::directory(
        "t".to_string(),
        vec![Ok(AnalysisItem::leaf("x".to_string(), 3)), Ok(AnalysisItem::leaf("y".to_string(), 1))],
    )
    .unwrap();
    let mut out = Vec::new();
    let config = Arguments::new();
    show_disk_analyze_result(&tree, &config, &DisplayItemInfo::new(), &mut out);
    assert_eq!(out.len(), 3);
    show_disk_analyze_result(&tree, &config, &DisplayItemInfo::new(), &mut out);
    assert_eq!(out.len(), 6);
    assert_eq!(out[3].name, "t");
    assert_eq!(out[4].name, "x");
    assert_eq!(out[4].info.occupied_size, Share { part: 3, whole: 4 });
    assert!(out[5].info.is_last);
    assert!(!out[4].info.is_last);
}

#[test]
fn defaults_and_help() {
    let a = Arguments::new();
    assert_eq!(a.max_depth, 2);
    assert_eq!(a.min_percent, Percent { num: 10, den: 1 });
    assert!(!a.apparent);
    assert_eq!(a.decimal_num, 2);
    assert!(mrdu::_show_help().is_ok());
}

#[test]
fn default_is_root_state() {
    let d = DisplayItemInfo::default();
    assert_eq!(d.dir_level, 0);
    assert!(d.is_last);
    assert_eq!(d.prefix, "");
    assert_eq!(d.occupied_size, Share { part: 1, whole: 1 });
}
