use flowcore::abs::{Abs, Fr, Ratio, Rel, RATIO_ONE, UNITS_PER_PT};
use flowcore::cutout::{width_at, width_in_range, CutoutSide, RegionCutout};
use flowcore::geom::{
    delta_to_point, point_add, select, size_is_zero, size_min, size_zero, Alignment, Axes, Dir,
    FixedAlignment, HAlignment, Regions, VAlignment,
};

fn whole(val: i64) -> Abs {
    Abs::pt(val)
}

#[test]
fn points_are_scaled() {
    assert_eq!(UNITS_PER_PT, 65536);
    assert_eq!(Abs::pt(3).to_raw(), 3 * 65536);
    assert_eq!(Abs::pt(-3), Abs::raw(-196608));
    assert_eq!(Abs::pt(i64::MAX), Abs::inf());
    assert_eq!(Abs::pt(i64::MIN), Abs::inf().neg());
    assert_eq!(Abs::zero(), Abs::raw(0));
    assert!(Abs::zero().is_zero());
    assert!(!Abs::inf().is_finite());
    assert!(Abs::raw(i64::MAX - 1).is_finite());
}

#[test]
fn sums_are_exact_or_infinite() {
    assert_eq!(whole(2).plus(whole(3)), whole(5));
    assert_eq!(whole(2).minus(whole(3)), whole(-1));
    assert_eq!(Abs::raw(i64::MAX - 1).plus(Abs::raw(1)), Abs::inf());
    assert_eq!(Abs::raw(i64::MAX - 2).plus(Abs::raw(1)), Abs::raw(i64::MAX - 1));
    assert_eq!(Abs::raw(i64::MIN + 1).minus(Abs::raw(1)), Abs::inf().neg());
    assert_eq!(Abs::inf().minus(whole(3)), Abs::inf());
    assert_eq!(Abs::inf().minus(Abs::inf()), Abs::inf());
    assert_eq!(Abs::inf().neg().plus(whole(3)), Abs::inf().neg());
    assert_eq!(Abs::inf().neg().plus(Abs::inf()), Abs::inf());
    assert_eq!(whole(3).neg(), whole(-3));
    assert_eq!(Abs::inf().neg().neg(), Abs::inf());
}

#[test]
fn comparing_lengths() {
    assert_eq!(whole(2).max(whole(3)), whole(3));
    assert_eq!(whole(2).min(whole(3)), whole(2));
    let mut length = whole(2);
    length.set_max(whole(1));
    assert_eq!(length, whole(2));
    length.set_max(whole(4));
    assert_eq!(length, whole(4));
    assert!(whole(4).fits(whole(4)));
    assert!(!whole(4).fits(Abs::raw(4 * 65536 + 1)));
    assert!(Abs::inf().fits(whole(4)));
    assert!(whole(4).approx_eq(whole(4)));
    assert!(!whole(4).approx_eq(Abs::raw(4 * 65536 + 1)));
}

#[test]
fn halves_round_towards_zero() {
    assert_eq!(whole(7).half(), Abs::raw(7 * 32768));
    assert_eq!(Abs::raw(7).half(), Abs::raw(3));
    assert_eq!(Abs::raw(-7).half(), Abs::raw(-3));
    assert_eq!(Abs::inf().half(), Abs::inf());
}

#[test]
fn ratios_of_a_whole() {
    assert_eq!(RATIO_ONE, 65536);
    assert_eq!(Ratio::one().of(whole(30)), whole(30));
    assert_eq!(Ratio::raw(65536 / 2).of(whole(30)), whole(15));
    assert_eq!(Ratio::raw(-65536 / 4).of(whole(30)), Abs::raw(-15 * 32768));
    assert_eq!(Ratio::raw(1).of(Abs::raw(65535)), Abs::raw(0));
    assert_eq!(Ratio::raw(-1).of(Abs::raw(65537)), Abs::raw(-1));
    assert_eq!(Ratio::zero().of(whole(30)), Abs::zero());
    assert_eq!(Ratio::one().of(Abs::inf()), Abs::zero());
    assert_eq!(Ratio::raw(i64::MAX).of(Abs::raw(i64::MAX - 1)), Abs::zero());
    assert!(Ratio::raw(1).is_positive());
    assert!(!Ratio::zero().is_positive());
    assert!(Ratio::zero().is_zero());
}

#[test]
fn relative_lengths() {
    let rel = Rel::new(Ratio::raw(65536 / 2), whole(4));
    assert_eq!(rel.relative_to(whole(30)), whole(19));
    assert_eq!(rel.relative_to(Abs::inf()), whole(4));
    assert_eq!(Rel::from_abs(whole(4)).relative_to(whole(30)), whole(4));
    assert_eq!(Rel::zero().relative_to(whole(30)), Abs::zero());
}

#[test]
fn fractions_share_what_is_left() {
    assert_eq!(Fr::raw(1).share(Fr::raw(4), whole(40)), whole(10));
    assert_eq!(Fr::raw(3).share(Fr::raw(4), whole(40)), whole(30));
    assert_eq!(Fr::one().share(Fr::raw(3 * 65536), Abs::raw(100)), Abs::raw(33));
    assert_eq!(Fr::raw(1).share(Fr::zero(), whole(40)), Abs::zero());
    assert_eq!(Fr::raw(1).share(Fr::raw(4), Abs::inf()), Abs::zero());
    assert_eq!(Fr::raw(1).share(Fr::raw(4), whole(-40)), Abs::zero());
    assert_eq!(Fr::raw(-1).share(Fr::raw(-4), whole(40)), whole(10));
    assert_eq!(Fr::raw(2).plus(Fr::raw(3)), Fr::raw(5));
    assert_eq!(Fr::raw(i64::MAX).plus(Fr::raw(3)), Fr::raw(i64::MAX));
    assert!(Fr::one().is_positive());
    assert!(!Fr::zero().is_positive());
}

#[test]
fn sizes_and_points() {
    let small = Axes::new(whole(1), whole(9));
    let large = Axes::new(whole(5), whole(7));
    assert_eq!(size_min(small, large), Axes::new(whole(1), whole(7)));
    assert_eq!(select(Axes::new(true, false), small, large), Axes::new(whole(1), whole(7)));
    assert_eq!(select(Axes::new(false, true), small, large), Axes::new(whole(5), whole(9)));
    assert!(size_is_zero(size_zero()));
    assert!(!size_is_zero(small));
    assert_eq!(point_add(small, large), Axes::new(whole(6), whole(16)));
    let delta = Axes::new(Rel::new(Ratio::one(), whole(1)), Rel::from_abs(whole(2)));
    assert_eq!(delta_to_point(delta, large), Axes::new(whole(6), whole(2)));
    assert_eq!(Axes::splat(3), Axes::new(3, 3));
}

#[test]
fn alignments() {
    assert_eq!(FixedAlignment::Start.position(whole(9)), Abs::zero());
    assert_eq!(FixedAlignment::Center.position(whole(9)), Abs::raw(9 * 32768));
    assert_eq!(FixedAlignment::End.position(whole(9)), whole(9));
    assert_eq!(FixedAlignment::Center.position(whole(-9)), Abs::raw(-9 * 32768));
    assert_eq!(FixedAlignment::Start.max(FixedAlignment::Center), FixedAlignment::Center);
    assert_eq!(FixedAlignment::End.max(FixedAlignment::Center), FixedAlignment::End);
    assert_eq!(FixedAlignment::Center.max(FixedAlignment::Start), FixedAlignment::Center);
    assert_eq!(FixedAlignment::Start.max(FixedAlignment::Start), FixedAlignment::Start);
    assert_eq!(HAlignment::Start.fix(Dir::RTL), FixedAlignment::End);
    assert_eq!(HAlignment::End.fix(Dir::RTL), FixedAlignment::Start);
    assert_eq!(HAlignment::Start.fix(Dir::TTB), FixedAlignment::Start);
    assert_eq!(HAlignment::Left.fix(Dir::RTL), FixedAlignment::Start);
    assert_eq!(HAlignment::Right.fix(Dir::LTR), FixedAlignment::End);
    assert_eq!(HAlignment::Center.fix(Dir::BTT), FixedAlignment::Center);
    assert_eq!(VAlignment::Horizon.fix(), FixedAlignment::Center);
    assert_eq!(VAlignment::Bottom.fix(), FixedAlignment::End);
    assert_eq!(Alignment::H(HAlignment::Left).y(), None);
    assert_eq!(Alignment::V(VAlignment::Top).x(), None);
    assert_eq!(Alignment::Both(HAlignment::Left, VAlignment::Top).x(), Some(HAlignment::Left));
    assert_eq!(Alignment::Both(HAlignment::Left, VAlignment::Top).y(), Some(VAlignment::Top));
    assert!(Dir::TTB.is_positive());
    assert!(!Dir::BTT.is_positive());
}

#[test]
fn regions_know_what_follows() {
    let backlog = [whole(30), whole(40)];
    let regions = Regions {
        size: Axes::new(whole(100), whole(20)),
        expand: Axes::new(false, false),
        full: whole(50),
        backlog: &backlog,
        last: Some(whole(60)),
    };
    assert_eq!(regions.base(), Axes::new(whole(100), whole(50)));
    assert!(regions.may_progress());
    assert!(regions.has_next());
    assert_eq!(regions.next_height(), Some(whole(30)));
    assert!(!regions.is_full());
    let last = Regions { backlog: &[], last: Some(whole(20)), ..regions };
    assert!(!last.may_progress());
    assert!(last.has_next());
    assert_eq!(last.next_height(), Some(whole(20)));
    let shrunk = Regions { size: Axes::new(whole(100), whole(0)), ..last };
    assert!(shrunk.may_progress());
    assert!(shrunk.is_full());
    let only = Regions { backlog: &[], last: None, ..regions };
    assert!(!only.may_progress());
    assert!(!only.has_next());
    assert_eq!(only.next_height(), None);
}

#[test]
fn a_cutout_takes_its_width_and_clearance() {
    let cutout = RegionCutout::new(whole(0), whole(100), CutoutSide::Start, whole(80), whole(20));
    let info = width_at(whole(500), whole(50), &[cutout], Dir::LTR);
    assert_eq!(info.available, whole(400));
    assert_eq!(info.start_offset, whole(100));
    assert_eq!(info.end_offset, whole(0));
}

#[test]
fn of_two_cutouts_the_wider_counts() {
    let one = RegionCutout::new(whole(0), whole(100), CutoutSide::Start, whole(50), whole(5));
    let two = RegionCutout::new(whole(0), whole(100), CutoutSide::Start, whole(80), whole(10));
    assert_eq!(width_at(whole(500), whole(50), &[one, two], Dir::LTR).available, whole(410));
    assert_eq!(width_at(whole(500), whole(50), &[two, one], Dir::LTR).available, whole(410));
    assert_eq!(width_at(whole(500), whole(50), &[two, one], Dir::LTR).start_offset, whole(90));
}

#[test]
fn more_cutouts_leave_no_more_width() {
    let cutouts = [
        RegionCutout::new(whole(0), whole(100), CutoutSide::Start, whole(50), whole(5)),
        RegionCutout::new(whole(40), whole(60), CutoutSide::End, whole(30), whole(5)),
        RegionCutout::new(whole(0), whole(45), CutoutSide::Start, whole(80), whole(0)),
        RegionCutout::new(whole(50), whole(51), CutoutSide::End, whole(500), whole(0)),
    ];
    for y in [0, 39, 40, 44, 45, 50, 51, 99, 100] {
        let mut last = whole(500);
        for n in 0..=cutouts.len() {
            let info = width_at(whole(500), whole(y), &cutouts[..n], Dir::LTR);
            assert!(info.available.to_raw() <= last.to_raw());
            assert!(info.available.to_raw() >= 0);
            last = info.available;
            let ranged = width_in_range(whole(500), whole(y), whole(y + 10), &cutouts[..n], Dir::RTL);
            assert!(ranged.available.to_raw() <= info.available.to_raw());
        }
    }
    assert_eq!(width_at(whole(-5), whole(0), &[], Dir::LTR).available, whole(0));
    assert_eq!(width_in_range(whole(-5), whole(0), whole(9), &[], Dir::RTL).available, whole(0));
    assert_eq!(width_at(whole(-5), whole(0), &cutouts, Dir::LTR).available, whole(0));
}
