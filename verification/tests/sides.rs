use flowcore::cutout::CutoutSide;
use flowcore::geom::{Dir, OuterHAlignment};
use flowcore::wrap::outer_h_alignment_to_cutout_side;

#[test]
fn test_cutout_side_ltr() {
    let dir_ltr = Dir::LTR;

    // Start -> Start in any direction
    assert_eq!(
        outer_h_alignment_to_cutout_side(OuterHAlignment::Start, dir_ltr),
        CutoutSide::Start
    );

    // End -> End in any direction
    assert_eq!(
        outer_h_alignment_to_cutout_side(OuterHAlignment::End, dir_ltr),
        CutoutSide::End
    );

    // Left -> Start in LTR
    assert_eq!(
        outer_h_alignment_to_cutout_side(OuterHAlignment::Left, dir_ltr),
        CutoutSide::Start
    );

    // Right -> End in LTR
    assert_eq!(
        outer_h_alignment_to_cutout_side(OuterHAlignment::Right, dir_ltr),
        CutoutSide::End
    );
}

#[test]
fn test_cutout_side_rtl() {
    let dir_rtl = Dir::RTL;

    // Start -> Start in any direction
    assert_eq!(
        outer_h_alignment_to_cutout_side(OuterHAlignment::Start, dir_rtl),
        CutoutSide::Start
    );

    // End -> End in any direction
    assert_eq!(
        outer_h_alignment_to_cutout_side(OuterHAlignment::End, dir_rtl),
        CutoutSide::End
    );

    // Left -> End in RTL (left is end side in RTL)
    assert_eq!(
        outer_h_alignment_to_cutout_side(OuterHAlignment::Left, dir_rtl),
        CutoutSide::End
    );

    // Right -> Start in RTL (right is start side in RTL)
    assert_eq!(
        outer_h_alignment_to_cutout_side(OuterHAlignment::Right, dir_rtl),
        CutoutSide::Start
    );
}

#[test]
fn test_masthead_cutout_side_ltr() {
    let dir_ltr = Dir::LTR;

    // Default is Start, which maps to Start in LTR
    assert_eq!(
        outer_h_alignment_to_cutout_side(OuterHAlignment::Start, dir_ltr),
        CutoutSide::Start
    );

    // End maps to End
    assert_eq!(
        outer_h_alignment_to_cutout_side(OuterHAlignment::End, dir_ltr),
        CutoutSide::End
    );
}

#[test]
fn test_masthead_cutout_side_rtl() {
    let dir_rtl = Dir::RTL;

    // Start maps to Start in RTL
    assert_eq!(
        outer_h_alignment_to_cutout_side(OuterHAlignment::Start, dir_rtl),
        CutoutSide::Start
    );

    // Left maps to End in RTL (left is the end side)
    assert_eq!(
        outer_h_alignment_to_cutout_side(OuterHAlignment::Left, dir_rtl),
        CutoutSide::End
    );
}
