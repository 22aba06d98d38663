use rusty_navigator::fixed::ONE;
use rusty_navigator::random::RandomSource;
use rusty_navigator::tunnel::{
    move_tube, Tunnel, TunnelSegment, HALF_WIDTH_HIGH, HALF_WIDTH_LOW, MIDPOINT_HIGH,
    MIDPOINT_LOW, OPENING_HALF_WIDTH, OPENING_MIDPOINT, SCROLL_SPEED, SEGMENT_SPACING,
};
use rusty_navigator::vector::V2;

fn xs(tube: &Tunnel) -> Vec<i64> {
    tube.segments.iter().map(|s| s.center.x).collect()
}

fn check_well_formed(tube: &Tunnel) {
    let x = xs(tube);
    assert!(x.len() >= 2);
    assert!(*x.last().unwrap() >= ONE);
    assert!(*x.last().unwrap() < ONE + SEGMENT_SPACING);
    assert!(x[0] < 0 && 0 <= x[1]);
    for i in 1..x.len() {
        assert!(x[i - 1] < x[i]);
        assert!(x[i] - x[i - 1] >= SEGMENT_SPACING);
        assert!(x[i] - x[i - 1] <= 2 * SEGMENT_SPACING);
    }
    for s in tube.segments.iter() {
        assert!(s.half_width > 0);
        assert!(s.center.y - s.half_width >= 0);
        assert!(s.center.y + s.half_width <= ONE);
    }
}

#[test]
fn segment_walls() {
    let s = TunnelSegment::new(400_000, 500_000, 400_000);
    assert_eq!(s.center, V2::new(400_000, 500_000));
    assert_eq!(s.half_width, 400_000);
    assert_eq!(s.ground(), V2::new(400_000, 100_000));
    assert_eq!(s.ceiling(), V2::new(400_000, 900_000));
}

#[test]
fn initial_tunnel_shape() {
    let mut rng = RandomSource::new(0);
    let tube = Tunnel::initialize(&mut rng);
    assert_eq!(xs(&tube), vec![-1_000, 399_000, 599_000, 799_000, 999_000, 1_199_000]);
    assert_eq!(tube.len(), 6);
    for s in tube.segments.iter().take(2) {
        assert_eq!(s.center.y, OPENING_MIDPOINT);
        assert_eq!(s.half_width, OPENING_HALF_WIDTH);
    }
    for s in tube.segments.iter().skip(2) {
        assert!(MIDPOINT_LOW <= s.center.y && s.center.y < MIDPOINT_HIGH);
        assert!(HALF_WIDTH_LOW <= s.half_width && s.half_width < HALF_WIDTH_HIGH);
    }
    check_well_formed(&tube);
    assert!(tube.reaches_edge());
}

#[test]
fn initial_tunnel_draws_its_heights() {
    let mut rng = RandomSource::new(0);
    let tube = Tunnel::initialize(&mut rng);
    let drawn: Vec<i64> = tube.segments.iter().skip(2).map(|s| s.center.y).collect();
    assert!(drawn.iter().any(|&y| y != drawn[0]));
}

#[test]
fn tunnel_stays_well_formed_for_all_ticks() {
    let mut rng = RandomSource::new(0);
    let mut tube = Tunnel::initialize(&mut rng);
    for _ in 0..5_000 {
        move_tube(&mut tube, &mut rng);
        check_well_formed(&tube);
    }
}

#[test]
fn tick_scrolls_and_keeps_heights() {
    let mut rng = RandomSource::new(5);
    let mut tube = Tunnel::initialize(&mut rng);
    let before = tube.clone();
    move_tube(&mut tube, &mut rng);
    assert_eq!(tube.len(), before.len());
    for (a, b) in tube.segments.iter().zip(before.segments.iter()) {
        assert_eq!(a.center.x, b.center.x - SCROLL_SPEED);
        assert_eq!(a.center.y, b.center.y);
        assert_eq!(a.half_width, b.half_width);
    }
}

#[test]
fn tick_evicts_and_extends_in_turn() {
    let mut rng = RandomSource::new(5);
    let mut tube = Tunnel::initialize(&mut rng);
    // After 199 more ticks the newest segment stands at exactly 1.0.
    for _ in 0..199 {
        move_tube(&mut tube, &mut rng);
    }
    assert_eq!(xs(&tube), vec![-200_000, 200_000, 400_000, 600_000, 800_000, 1_000_000]);
    // The next tick takes it below the edge, and one segment is appended.
    move_tube(&mut tube, &mut rng);
    assert_eq!(
        xs(&tube),
        vec![-201_000, 199_000, 399_000, 599_000, 799_000, 999_000, 1_199_000]
    );
    // After 199 more ticks the second segment stands at exactly 0 and stays.
    for _ in 0..199 {
        move_tube(&mut tube, &mut rng);
    }
    assert_eq!(xs(&tube), vec![-400_000, 0, 200_000, 400_000, 600_000, 800_000, 1_000_000]);
    // The next tick takes it off the screen, so the oldest segment goes.
    move_tube(&mut tube, &mut rng);
    assert_eq!(xs(&tube), vec![-1_000, 199_000, 399_000, 599_000, 799_000, 999_000, 1_199_000]);
}

#[test]
fn scroll_moves_every_segment() {
    let mut tube = Tunnel::from_segments(&vec![
        TunnelSegment::new(-5, 1, 2),
        TunnelSegment::new(0, 3, 4),
        TunnelSegment::new(2_000_000, 5, 6),
    ]);
    tube.scroll();
    assert_eq!(
        tube,
        Tunnel::from_segments(&vec![
            TunnelSegment::new(-1_005, 1, 2),
            TunnelSegment::new(-1_000, 3, 4),
            TunnelSegment::new(1_999_000, 5, 6),
        ])
    );
}

#[test]
fn scroll_saturates() {
    let mut tube = Tunnel::from_segments(&vec![TunnelSegment::new(i64::MIN + 1, 1, 2)]);
    tube.scroll();
    assert_eq!(xs(&tube), vec![i64::MIN]);
}

#[test]
fn evict_keeps_one_segment_off_screen() {
    let mut tube = Tunnel::from_segments(&vec![
        TunnelSegment::new(-500_000, 1, 1),
        TunnelSegment::new(-300_000, 2, 1),
        TunnelSegment::new(-100_000, 3, 1),
        TunnelSegment::new(100_000, 4, 1),
    ]);
    tube.evict();
    assert_eq!(xs(&tube), vec![-100_000, 100_000]);
}

#[test]
fn evict_leaves_a_successor_at_zero() {
    let mut tube = Tunnel::from_segments(&vec![
        TunnelSegment::new(-200_000, 1, 1),
        TunnelSegment::new(0, 2, 1),
        TunnelSegment::new(200_000, 3, 1),
    ]);
    tube.evict();
    assert_eq!(xs(&tube), vec![-200_000, 0, 200_000]);
}

#[test]
fn evict_never_empties_the_tunnel() {
    let mut tube = Tunnel::from_segments(&vec![
        TunnelSegment::new(-3, 1, 1),
        TunnelSegment::new(-2, 2, 1),
        TunnelSegment::new(-1, 3, 1),
    ]);
    tube.evict();
    assert_eq!(xs(&tube), vec![-1]);
    let mut single = Tunnel::from_segments(&vec![TunnelSegment::new(-3, 1, 1)]);
    single.evict();
    assert_eq!(xs(&single), vec![-3]);
    let mut empty = Tunnel::from_segments(&vec![]);
    empty.evict();
    assert_eq!(empty.len(), 0);
}

#[test]
fn push_next_places_the_segment() {
    let mut tube = Tunnel::from_segments(&vec![]);
    tube.push_next(300_000, 150_000);
    assert_eq!(tube, Tunnel::from_segments(&vec![TunnelSegment::new(0, 300_000, 150_000)]));
    tube.push_next(400_000, 110_000);
    assert_eq!(
        tube,
        Tunnel::from_segments(&vec![
            TunnelSegment::new(0, 300_000, 150_000),
            TunnelSegment::new(200_000, 400_000, 110_000),
        ])
    );
}

#[test]
fn push_next_saturates() {
    let mut tube = Tunnel::from_segments(&vec![TunnelSegment::new(i64::MAX - 5, 1, 1)]);
    tube.push_next(2, 3);
    assert_eq!(xs(&tube), vec![i64::MAX - 5, i64::MAX]);
}

#[test]
fn extend_fills_an_empty_tunnel_from_zero() {
    let mut rng = RandomSource::new(1);
    let mut tube = Tunnel::from_segments(&vec![]);
    assert!(!tube.reaches_edge());
    tube.extend(&mut rng);
    assert_eq!(xs(&tube), vec![0, 200_000, 400_000, 600_000, 800_000, 1_000_000]);
    for s in tube.segments.iter() {
        assert!(MIDPOINT_LOW <= s.center.y && s.center.y < MIDPOINT_HIGH);
        assert!(HALF_WIDTH_LOW <= s.half_width && s.half_width < HALF_WIDTH_HIGH);
    }
}

#[test]
fn extend_leaves_a_tunnel_that_reaches_the_edge() {
    let mut rng = RandomSource::new(1);
    let segments = vec![TunnelSegment::new(0, 1, 1), TunnelSegment::new(ONE, 2, 2)];
    let mut tube = Tunnel::from_segments(&segments);
    assert!(tube.reaches_edge());
    tube.extend(&mut rng);
    assert_eq!(tube, Tunnel::from_segments(&segments));
}

#[test]
fn extend_draws_midpoint_before_half_width() {
    let mut rng = RandomSource::new(9);
    let mut reference = RandomSource::new(9);
    let mut tube = Tunnel::from_segments(&vec![TunnelSegment::new(700_000, 1, 1)]);
    tube.extend(&mut rng);
    assert_eq!(tube.len(), 3);
    for s in tube.segments.iter().skip(1) {
        assert_eq!(s.center.y, reference.uniform(MIDPOINT_LOW, MIDPOINT_HIGH));
        assert_eq!(s.half_width, reference.uniform(HALF_WIDTH_LOW, HALF_WIDTH_HIGH));
    }
}

#[test]
fn walls_as_polylines() {
    let tube = Tunnel::from_segments(&vec![
        TunnelSegment::new(0, 500_000, 400_000),
        TunnelSegment::new(200_000, 600_000, 150_000),
    ]);
    assert_eq!(tube.ground(), vec![V2::new(0, 100_000), V2::new(200_000, 450_000)]);
    assert_eq!(tube.ceiling(), vec![V2::new(0, 900_000), V2::new(200_000, 750_000)]);
}

#[test]
fn same_seed_same_tunnel() {
    let mut rng_a = RandomSource::new(11);
    let mut rng_b = RandomSource::new(11);
    let mut a = Tunnel::initialize(&mut rng_a);
    let mut b = Tunnel::initialize(&mut rng_b);
    assert_eq!(a, b);
    for _ in 0..3_000 {
        move_tube(&mut a, &mut rng_a);
        move_tube(&mut b, &mut rng_b);
        assert_eq!(a, b);
    }
}

#[test]
fn tick_of_a_tunnel_that_has_left_the_screen() {
    let mut rng = RandomSource::new(4);
    let mut tube = Tunnel::from_segments(&vec![
        TunnelSegment::new(-500_000, 1, 1),
        TunnelSegment::new(-300_000, 2, 2),
    ]);
    move_tube(&mut tube, &mut rng);
    assert_eq!(
        xs(&tube),
        vec![-301_000, -101_000, 99_000, 299_000, 499_000, 699_000, 899_000, 1_099_000]
    );
    assert_eq!(tube.segments[0], TunnelSegment::new(-301_000, 2, 2));
}

#[test]
fn tick_of_an_empty_tunnel() {
    let mut rng = RandomSource::new(4);
    let mut tube = Tunnel::from_segments(&vec![]);
    move_tube(&mut tube, &mut rng);
    assert_eq!(xs(&tube), vec![0, 200_000, 400_000, 600_000, 800_000, 1_000_000]);
}

#[test]
fn tick_that_appends_nothing_draws_nothing() {
    let mut rng = RandomSource::new(0);
    let mut reference = RandomSource::new(0);
    let mut tube = Tunnel::from_segments(&vec![
        TunnelSegment::new(0, 500_000, 400_000),
        TunnelSegment::new(400_000, 500_000, 400_000),
        TunnelSegment::new(1_200_000, 500_000, 150_000),
    ]);
    move_tube(&mut tube, &mut rng);
    assert_eq!(
        tube,
        Tunnel::from_segments(&vec![
            TunnelSegment::new(-1_000, 500_000, 400_000),
            TunnelSegment::new(399_000, 500_000, 400_000),
            TunnelSegment::new(1_199_000, 500_000, 150_000),
        ])
    );
    for _ in 0..10 {
        assert_eq!(rng.uniform(0, 1_000_000), reference.uniform(0, 1_000_000));
    }
}

#[test]
fn tick_that_only_evicts_draws_nothing() {
    let mut rng = RandomSource::new(0);
    let mut reference = RandomSource::new(0);
    let mut tube = Tunnel::from_segments(&vec![
        TunnelSegment::new(-300_000, 500_000, 400_000),
        TunnelSegment::new(500, 600_000, 150_000),
        TunnelSegment::new(1_500_000, 400_000, 100_000),
    ]);
    move_tube(&mut tube, &mut rng);
    assert_eq!(
        tube,
        Tunnel::from_segments(&vec![
            TunnelSegment::new(-500, 600_000, 150_000),
            TunnelSegment::new(1_499_000, 400_000, 100_000),
        ])
    );
    for _ in 0..10 {
        assert_eq!(rng.uniform(0, 1_000_000), reference.uniform(0, 1_000_000));
    }
}

#[test]
fn tick_takes_two_values_for_each_new_segment() {
    let mut rng = RandomSource::new(6);
    let mut reference = RandomSource::new(6);
    let mut tube = Tunnel::from_segments(&vec![
        TunnelSegment::new(0, 500_000, 400_000),
        TunnelSegment::new(400_500, 500_000, 400_000),
    ]);
    move_tube(&mut tube, &mut rng);
    assert_eq!(xs(&tube), vec![-1_000, 399_500, 599_500, 799_500, 999_500, 1_199_500]);
    for s in tube.segments.iter().skip(2) {
        assert_eq!(s.center.y, reference.uniform(MIDPOINT_LOW, MIDPOINT_HIGH));
        assert_eq!(s.half_width, reference.uniform(HALF_WIDTH_LOW, HALF_WIDTH_HIGH));
    }
    // Eight values were taken and no more: both sources go on alike.
    assert_eq!(rng.uniform(0, 1_000_000), reference.uniform(0, 1_000_000));
}

#[test]
fn initial_tunnel_takes_the_first_eight_values() {
    let mut rng = RandomSource::new(8);
    let mut reference = RandomSource::new(8);
    let tube = Tunnel::initialize(&mut rng);
    assert_eq!(tube.len(), 6);
    for s in tube.segments.iter().skip(2) {
        assert_eq!(s.center.y, reference.uniform(MIDPOINT_LOW, MIDPOINT_HIGH));
        assert_eq!(s.half_width, reference.uniform(HALF_WIDTH_LOW, HALF_WIDTH_HIGH));
    }
    assert_eq!(rng.uniform(0, 1_000_000), reference.uniform(0, 1_000_000));
}
