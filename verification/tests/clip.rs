use rasterizer::clip::{clip_plan, ClipVertex};
use ClipVertex::{Corner, Crossing};

#[test]
fn all_in_front_keeps_the_triangle() {
    assert_eq!(clip_plan((true, true, true)), vec![(Corner(0), Corner(1), Corner(2))]);
}

#[test]
fn all_behind_drops_the_triangle() {
    assert!(clip_plan((false, false, false)).is_empty());
}

#[test]
fn one_behind_gives_a_quad() {
    assert_eq!(
        clip_plan((true, true, false)),
        vec![
            (Corner(0), Corner(1), Crossing(1, 2)),
            (Corner(0), Crossing(1, 2), Crossing(0, 2)),
        ]
    );
    assert_eq!(
        clip_plan((true, false, true)),
        vec![
            (Corner(0), Corner(2), Crossing(2, 1)),
            (Corner(0), Crossing(2, 1), Crossing(0, 1)),
        ]
    );
    assert_eq!(
        clip_plan((false, true, true)),
        vec![
            (Corner(1), Corner(2), Crossing(2, 0)),
            (Corner(1), Crossing(2, 0), Crossing(1, 0)),
        ]
    );
}

#[test]
fn two_behind_gives_a_smaller_triangle() {
    assert_eq!(clip_plan((true, false, false)), vec![(Corner(0), Crossing(0, 1), Crossing(0, 2))]);
    assert_eq!(clip_plan((false, true, false)), vec![(Corner(1), Crossing(1, 0), Crossing(1, 2))]);
    assert_eq!(clip_plan((false, false, true)), vec![(Corner(2), Crossing(2, 0), Crossing(2, 1))]);
}
