use std::collections::hash_map::DefaultHasher;
use std::hash::{Hash, Hasher};

use flowcore::abs::Abs;
use flowcore::cutout::{
    cutouts_at_y, cutouts_in_range, width_at, width_in_range, CutoutSide, RegionCutout, WidthInfo,
};
use flowcore::geom::Dir;

fn pt(val: f64) -> Abs {
    Abs::raw((val * 65536.0) as i64)
}

#[test]
fn test_opposite() {
    assert_eq!(CutoutSide::Start.opposite(), CutoutSide::End);
    assert_eq!(CutoutSide::End.opposite(), CutoutSide::Start);
}

#[test]
fn test_is_left_ltr() {
    assert!(CutoutSide::Start.is_left(Dir::LTR));
    assert!(!CutoutSide::End.is_left(Dir::LTR));
}

#[test]
fn test_is_left_rtl() {
    assert!(!CutoutSide::Start.is_left(Dir::RTL));
    assert!(CutoutSide::End.is_left(Dir::RTL));
}

#[test]
fn test_cutout_new() {
    let cutout = RegionCutout::new(
        pt(10.0),
        pt(100.0),
        CutoutSide::End,
        pt(50.0),
        pt(5.0),
    );
    assert_eq!(cutout.y_start, pt(10.0));
    assert_eq!(cutout.y_end, pt(100.0));
    assert_eq!(cutout.side, CutoutSide::End);
    assert_eq!(cutout.width, pt(50.0));
    assert_eq!(cutout.clearance, pt(5.0));
}

#[test]
fn test_total_width() {
    let cutout = RegionCutout::new(
        pt(0.0),
        pt(100.0),
        CutoutSide::End,
        pt(50.0),
        pt(10.0),
    );
    assert_eq!(cutout.total_width(), pt(60.0));
}

#[test]
fn test_contains_y() {
    let cutout = RegionCutout::new(
        pt(20.0),
        pt(80.0),
        CutoutSide::Start,
        pt(50.0),
        pt(5.0),
    );

    // Before cutout
    assert!(!cutout.contains_y(pt(10.0)));
    // At start (inclusive)
    assert!(cutout.contains_y(pt(20.0)));
    // Inside cutout
    assert!(cutout.contains_y(pt(50.0)));
    // At end (exclusive)
    assert!(!cutout.contains_y(pt(80.0)));
    // After cutout
    assert!(!cutout.contains_y(pt(100.0)));
}

#[test]
fn test_overlaps_range_no_overlap() {
    let cutout = RegionCutout::new(
        pt(50.0),
        pt(100.0),
        CutoutSide::End,
        pt(30.0),
        pt(5.0),
    );

    // Range entirely before
    assert!(!cutout.overlaps_range(pt(0.0), pt(50.0)));
    // Range entirely after
    assert!(!cutout.overlaps_range(pt(100.0), pt(150.0)));
}

#[test]
fn test_overlaps_range_overlap() {
    let cutout = RegionCutout::new(
        pt(50.0),
        pt(100.0),
        CutoutSide::End,
        pt(30.0),
        pt(5.0),
    );

    // Range overlaps start
    assert!(cutout.overlaps_range(pt(40.0), pt(60.0)));
    // Range overlaps end
    assert!(cutout.overlaps_range(pt(90.0), pt(110.0)));
    // Range inside cutout
    assert!(cutout.overlaps_range(pt(60.0), pt(80.0)));
    // Range contains cutout
    assert!(cutout.overlaps_range(pt(0.0), pt(200.0)));
    // Range equals cutout
    assert!(cutout.overlaps_range(pt(50.0), pt(100.0)));
}

#[test]
fn test_height() {
    let cutout = RegionCutout::new(
        pt(25.0),
        pt(75.0),
        CutoutSide::Start,
        pt(40.0),
        pt(10.0),
    );
    assert_eq!(cutout.height(), pt(50.0));
}

#[test]
fn test_hash_determinism() {
        let cutout1 = RegionCutout::new(
        pt(10.0),
        pt(100.0),
        CutoutSide::End,
        pt(50.0),
        pt(5.0),
    );
    let cutout2 = RegionCutout::new(
        pt(10.0),
        pt(100.0),
        CutoutSide::End,
        pt(50.0),
        pt(5.0),
    );

    let mut hasher1 = DefaultHasher::new();
    let mut hasher2 = DefaultHasher::new();
    cutout1.hash(&mut hasher1);
    cutout2.hash(&mut hasher2);

    assert_eq!(hasher1.finish(), hasher2.finish());
}

#[test]
fn test_full() {
    let info = WidthInfo::full(pt(500.0));
    assert_eq!(info.available, pt(500.0));
    assert_eq!(info.start_offset, pt(0.0));
    assert_eq!(info.end_offset, pt(0.0));
}

#[test]
fn test_new() {
    let info = WidthInfo::new(pt(400.0), pt(50.0), pt(50.0));
    assert_eq!(info.available, pt(400.0));
    assert_eq!(info.start_offset, pt(50.0));
    assert_eq!(info.end_offset, pt(50.0));
}

#[test]
fn test_fits() {
    let info = WidthInfo::new(pt(100.0), pt(0.0), pt(0.0));
    assert!(info.fits(pt(50.0)));
    assert!(info.fits(pt(100.0)));
    assert!(!info.fits(pt(150.0)));
}

#[test]
fn test_is_full() {
    let full = WidthInfo::full(pt(500.0));
    assert!(full.is_full(pt(500.0)));

    let with_offset = WidthInfo::new(pt(400.0), pt(50.0), pt(50.0));
    assert!(!with_offset.is_full(pt(500.0)));
}

#[test]
fn test_width_no_cutouts() {
    let info = width_at(pt(500.0), pt(50.0), &[], Dir::LTR);
    assert_eq!(info.available, pt(500.0));
    assert_eq!(info.start_offset, pt(0.0));
    assert_eq!(info.end_offset, pt(0.0));
}

#[test]
fn test_width_with_end_cutout() {
    let cutout = RegionCutout::new(
        pt(0.0),
        pt(100.0),
        CutoutSide::End,
        pt(100.0),
        pt(10.0),
    );
    let cutouts = [cutout];

    let info = width_at(pt(500.0), pt(50.0), &cutouts, Dir::LTR);
    assert_eq!(info.available, pt(390.0)); // 500 - 100 - 10
    assert_eq!(info.start_offset, pt(0.0));
    assert_eq!(info.end_offset, pt(110.0)); // 100 + 10
}

#[test]
fn test_width_with_start_cutout() {
    let cutout = RegionCutout::new(
        pt(0.0),
        pt(100.0),
        CutoutSide::Start,
        pt(80.0),
        pt(20.0),
    );
    let cutouts = [cutout];

    let info = width_at(pt(500.0), pt(50.0), &cutouts, Dir::LTR);
    assert_eq!(info.available, pt(400.0)); // 500 - 80 - 20
    assert_eq!(info.start_offset, pt(100.0)); // 80 + 20
    assert_eq!(info.end_offset, pt(0.0));
}

#[test]
fn test_width_with_both_sides() {
    let start_cutout = RegionCutout::new(
        pt(0.0),
        pt(100.0),
        CutoutSide::Start,
        pt(50.0),
        pt(10.0),
    );
    let end_cutout =
        RegionCutout::new(pt(0.0), pt(100.0), CutoutSide::End, pt(80.0), pt(5.0));
    let cutouts = [start_cutout, end_cutout];

    let info = width_at(pt(500.0), pt(50.0), &cutouts, Dir::LTR);
    assert_eq!(info.available, pt(355.0)); // 500 - 60 - 85
    assert_eq!(info.start_offset, pt(60.0)); // 50 + 10
    assert_eq!(info.end_offset, pt(85.0)); // 80 + 5
}

#[test]
fn test_multiple_cutouts_same_side() {
    // Two cutouts on same side - should use maximum
    let cutout1 =
        RegionCutout::new(pt(0.0), pt(100.0), CutoutSide::End, pt(50.0), pt(5.0));
    let cutout2 = RegionCutout::new(
        pt(0.0),
        pt(100.0),
        CutoutSide::End,
        pt(80.0),
        pt(10.0),
    );
    let cutouts = [cutout1, cutout2];

    let info = width_at(pt(500.0), pt(50.0), &cutouts, Dir::LTR);
    // Should use max of (50+5=55) and (80+10=90) = 90
    assert_eq!(info.available, pt(410.0)); // 500 - 90
    assert_eq!(info.end_offset, pt(90.0));
}

#[test]
fn test_width_rtl_direction() {
    let cutout = RegionCutout::new(
        pt(0.0),
        pt(100.0),
        CutoutSide::Start,
        pt(80.0),
        pt(20.0),
    );
    let cutouts = [cutout];

    // In RTL, Start means right side, so offsets are swapped
    let info = width_at(pt(500.0), pt(50.0), &cutouts, Dir::RTL);
    assert_eq!(info.available, pt(400.0)); // 500 - 80 - 20
    // In RTL, the start_offset should be end_reduction (swapped)
    assert_eq!(info.start_offset, pt(0.0));
    assert_eq!(info.end_offset, pt(100.0)); // 80 + 20
}

#[test]
fn test_width_outside_cutout_range() {
    let cutout = RegionCutout::new(
        pt(50.0),
        pt(100.0),
        CutoutSide::End,
        pt(100.0),
        pt(10.0),
    );
    let cutouts = [cutout];

    // Y position before cutout
    let info_before = width_at(pt(500.0), pt(25.0), &cutouts, Dir::LTR);
    assert_eq!(info_before.available, pt(500.0));

    // Y position after cutout
    let info_after = width_at(pt(500.0), pt(150.0), &cutouts, Dir::LTR);
    assert_eq!(info_after.available, pt(500.0));
}

#[test]
fn test_width_never_negative() {
    // Cutouts wider than the region
    let cutout1 = RegionCutout::new(
        pt(0.0),
        pt(100.0),
        CutoutSide::Start,
        pt(300.0),
        pt(10.0),
    );
    let cutout2 = RegionCutout::new(
        pt(0.0),
        pt(100.0),
        CutoutSide::End,
        pt(300.0),
        pt(10.0),
    );
    let cutouts = [cutout1, cutout2];

    let info = width_at(pt(500.0), pt(50.0), &cutouts, Dir::LTR);
    assert_eq!(info.available, pt(0.0)); // Should be 0, not negative
}

#[test]
fn test_width_in_range_no_cutouts() {
    let info = width_in_range(pt(500.0), pt(0.0), pt(100.0), &[], Dir::LTR);
    assert_eq!(info.available, pt(500.0));
}

#[test]
fn test_width_in_range_partial_overlap() {
    // Cutout from 50-150, query range 0-100
    let cutout = RegionCutout::new(
        pt(50.0),
        pt(150.0),
        CutoutSide::End,
        pt(100.0),
        pt(10.0),
    );
    let cutouts = [cutout];

    let info = width_in_range(pt(500.0), pt(0.0), pt(100.0), &cutouts, Dir::LTR);
    // Cutout overlaps with range, so width is reduced
    assert_eq!(info.available, pt(390.0)); // 500 - 100 - 10
}

#[test]
fn test_width_in_range_no_overlap() {
    // Cutout from 100-200, query range 0-50
    let cutout = RegionCutout::new(
        pt(100.0),
        pt(200.0),
        CutoutSide::End,
        pt(100.0),
        pt(10.0),
    );
    let cutouts = [cutout];

    let info = width_in_range(pt(500.0), pt(0.0), pt(50.0), &cutouts, Dir::LTR);
    // No overlap, full width available
    assert_eq!(info.available, pt(500.0));
}

#[test]
fn test_width_in_range_multiple_cutouts() {
    // Multiple cutouts at different heights, both overlapping the range
    let cutout1 =
        RegionCutout::new(pt(0.0), pt(50.0), CutoutSide::End, pt(80.0), pt(10.0));
    let cutout2 = RegionCutout::new(
        pt(30.0),
        pt(100.0),
        CutoutSide::End,
        pt(60.0),
        pt(5.0),
    );
    let cutouts = [cutout1, cutout2];

    // Query range overlaps both
    let info = width_in_range(pt(500.0), pt(0.0), pt(60.0), &cutouts, Dir::LTR);
    // Should use maximum reduction: max(90, 65) = 90
    assert_eq!(info.available, pt(410.0)); // 500 - 90
}

#[test]
fn test_cutouts_at_y() {
    let cutout1 = RegionCutout::new(
        pt(0.0),
        pt(50.0),
        CutoutSide::Start,
        pt(40.0),
        pt(5.0),
    );
    let cutout2 = RegionCutout::new(
        pt(30.0),
        pt(100.0),
        CutoutSide::End,
        pt(60.0),
        pt(10.0),
    );
    let cutouts = [cutout1, cutout2];

    // At y=25, only cutout1 is active
    let active = cutouts_at_y(&cutouts, pt(25.0));
    assert_eq!(active.len(), 1);
    assert_eq!(active[0].side, CutoutSide::Start);

    // At y=40, both cutouts are active
    let active = cutouts_at_y(&cutouts, pt(40.0));
    assert_eq!(active.len(), 2);

    // At y=75, only cutout2 is active
    let active = cutouts_at_y(&cutouts, pt(75.0));
    assert_eq!(active.len(), 1);
    assert_eq!(active[0].side, CutoutSide::End);
}

#[test]
fn test_cutouts_in_range() {
    let cutout1 = RegionCutout::new(
        pt(0.0),
        pt(50.0),
        CutoutSide::Start,
        pt(40.0),
        pt(5.0),
    );
    let cutout2 = RegionCutout::new(
        pt(100.0),
        pt(150.0),
        CutoutSide::End,
        pt(60.0),
        pt(10.0),
    );
    let cutouts = [cutout1, cutout2];

    // Range overlapping only cutout1
    let active = cutouts_in_range(&cutouts, pt(20.0), pt(60.0));
    assert_eq!(active.len(), 1);

    // Range overlapping both
    let active = cutouts_in_range(&cutouts, pt(0.0), pt(200.0));
    assert_eq!(active.len(), 2);

    // Range between cutouts
    let active = cutouts_in_range(&cutouts, pt(60.0), pt(90.0));
    assert_eq!(active.len(), 0);
}
