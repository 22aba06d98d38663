use rusty_navigator::collision::{is_collided, HELI_RADIUS};
use rusty_navigator::random::RandomSource;
use rusty_navigator::simulation::{init_app_state, AppState, Command, Flow, Phase};
use rusty_navigator::tunnel::{Tunnel, TunnelSegment};
use rusty_navigator::vector::V2;
use rusty_navigator::vehicle::{Vehicle, START_X, START_Y, THRUST};

fn xs(state: &AppState) -> Vec<i64> {
    state.tunnel.segments.iter().map(|s| s.center.x).collect()
}

fn wide_tunnel() -> Tunnel {
    Tunnel::from_segments(&vec![
        TunnelSegment::new(-200_000, 500_000, 400_000),
        TunnelSegment::new(200_000, 500_000, 400_000),
        TunnelSegment::new(600_000, 500_000, 400_000),
        TunnelSegment::new(1_000_000, 500_000, 400_000),
    ])
}

#[test]
fn vehicle_starts_at_rest() {
    let v = Vehicle::start();
    assert_eq!(v.position, V2::new(100_000, 500_000));
    assert_eq!(v.velocity, V2::new(0, 0));
    assert_eq!((START_X, START_Y, THRUST), (100_000, 500_000, 100));
}

#[test]
fn vehicle_changes_speed_before_position() {
    let mut v = Vehicle::start();
    v.advance(true);
    assert_eq!(v.velocity, V2::new(0, 100));
    assert_eq!(v.position, V2::new(100_000, 500_100));
    v.advance(true);
    assert_eq!(v.velocity, V2::new(0, 200));
    assert_eq!(v.position, V2::new(100_000, 500_300));
    v.advance(false);
    assert_eq!(v.velocity, V2::new(0, 100));
    assert_eq!(v.position, V2::new(100_000, 500_400));
}

#[test]
fn vehicle_sinks_without_thrust() {
    let mut v = Vehicle::start();
    v.advance(false);
    assert_eq!(v.velocity, V2::new(0, -100));
    assert_eq!(v.position, V2::new(100_000, 499_900));
}

#[test]
fn vehicle_keeps_horizontal_speed() {
    let mut v = Vehicle { position: V2::new(0, 0), velocity: V2::new(7, 0) };
    v.advance(true);
    assert_eq!(v.velocity, V2::new(7, 100));
    assert_eq!(v.position, V2::new(7, 100));
}

#[test]
fn vehicle_speed_saturates() {
    let mut v = Vehicle { position: V2::new(0, 0), velocity: V2::new(0, i64::MAX - 1) };
    v.advance(true);
    assert_eq!(v.velocity, V2::new(0, i64::MAX));
    assert_eq!(v.position, V2::new(0, i64::MAX));
}

#[test]
fn game_starts_paused() {
    let state = init_app_state(RandomSource::new(0));
    assert!(state.paused);
    assert!(!state.collided);
    assert_eq!(state.phase(), Phase::Paused);
    assert_eq!(state.vehicle, Vehicle::start());
    assert_eq!(xs(&state), vec![-1_000, 399_000, 599_000, 799_000, 999_000, 1_199_000]);
}

#[test]
fn paused_game_does_not_move() {
    let mut state = init_app_state(RandomSource::new(0));
    let tunnel = state.tunnel.clone();
    for _ in 0..10 {
        state.tick(false);
    }
    assert!(state.paused);
    assert_eq!(state.vehicle, Vehicle::start());
    assert_eq!(state.tunnel, tunnel);
}

#[test]
fn thrust_ends_the_pause() {
    let mut state = init_app_state(RandomSource::new(0));
    state.tick(true);
    assert!(!state.paused);
    assert_eq!(state.phase(), Phase::Running);
    assert_eq!(state.vehicle.velocity, V2::new(0, 100));
    assert_eq!(state.vehicle.position, V2::new(100_000, 500_100));
    assert_eq!(xs(&state), vec![-2_000, 398_000, 598_000, 798_000, 998_000, 1_198_000]);
    state.tick(false);
    assert_eq!(state.vehicle.velocity, V2::new(0, 0));
    assert_eq!(state.vehicle.position, V2::new(100_000, 500_100));
    assert_eq!(xs(&state)[0], -3_000);
}

#[test]
fn pause_key_toggles() {
    let mut state = init_app_state(RandomSource::new(0));
    state.toggle_pause();
    assert_eq!(state.phase(), Phase::Running);
    state.toggle_pause();
    assert_eq!(state.phase(), Phase::Paused);
    assert_eq!(state.handle(Command::TogglePause), Flow::Continue);
    assert_eq!(state.phase(), Phase::Running);
    state.tick(false);
    assert_eq!(state.vehicle.position, V2::new(100_000, 499_900));
}

#[test]
fn pause_key_does_nothing_after_a_collision() {
    let mut state = init_app_state(RandomSource::new(0));
    state.paused = false;
    state.collided = true;
    state.toggle_pause();
    assert!(!state.paused);
    assert_eq!(state.phase(), Phase::Collided);
    state.paused = true;
    state.toggle_pause();
    assert!(state.paused);
    assert_eq!(state.phase(), Phase::Collided);
}

#[test]
fn quit_leaves_the_state_alone() {
    let mut state = init_app_state(RandomSource::new(0));
    state.tick(true);
    let vehicle = state.vehicle;
    let tunnel = state.tunnel.clone();
    assert_eq!(state.handle(Command::Quit), Flow::Exit);
    assert_eq!(state.vehicle, vehicle);
    assert_eq!(state.tunnel, tunnel);
    assert!(!state.paused && !state.collided);
}

#[test]
fn falling_ends_in_a_collision_that_freezes_the_game() {
    let mut state = init_app_state(RandomSource::new(0));
    state.tunnel = wide_tunnel();
    state.toggle_pause();
    let mut ticks = 0;
    while !state.collided {
        state.tick(false);
        ticks += 1;
        assert!(ticks < 1_000);
        assert_eq!(
            state.collided,
            is_collided(&state.vehicle, &state.tunnel, HELI_RADIUS)
        );
    }
    // The ground is at 0.1 and its edges are 0.4 long: the radius is reached
    // below a height of 0.012.
    assert!(state.vehicle.position.y < 112_000);
    assert_eq!(state.phase(), Phase::Collided);
    let vehicle = state.vehicle;
    let tunnel = state.tunnel.clone();
    state.tick(false);
    state.tick(true);
    assert_eq!(state.vehicle, vehicle);
    assert_eq!(state.tunnel, tunnel);
    assert!(state.collided);
}

#[test]
fn collision_is_tested_after_the_move() {
    let mut state = init_app_state(RandomSource::new(0));
    state.tunnel = wide_tunnel();
    state.paused = false;
    // One tick without thrust takes the helicopter from 0.1121 to 0.112,
    // where it does not touch yet, and the next one to 0.1118.
    state.vehicle = Vehicle { position: V2::new(100_000, 112_100), velocity: V2::new(0, 0) };
    state.tick(false);
    assert_eq!(state.vehicle.position.y, 112_000);
    assert!(!state.collided);
    state.tick(false);
    assert_eq!(state.vehicle.position.y, 111_800);
    assert!(state.collided);
}

#[test]
fn restart_while_collided() {
    let mut state = init_app_state(RandomSource::new(7));
    let first = state.tunnel.clone();
    state.tick(true);
    state.vehicle = Vehicle { position: V2::new(100_000, 5), velocity: V2::new(0, -300) };
    state.collided = true;
    assert_eq!(state.handle(Command::Restart), Flow::Continue);
    assert!(!state.collided);
    assert!(state.paused);
    assert_eq!(state.phase(), Phase::Paused);
    assert_eq!(state.vehicle, Vehicle::start());
    assert_eq!(xs(&state), vec![-1_000, 399_000, 599_000, 799_000, 999_000, 1_199_000]);

    // The random source goes on where it stood: the new tunnel is the second
    // one that a source with this seed gives, not the first one again.
    let mut reference = RandomSource::new(7);
    let expected_first = Tunnel::initialize(&mut reference);
    let expected_second = Tunnel::initialize(&mut reference);
    assert_eq!(first, expected_first);
    assert_eq!(state.tunnel, expected_second);
    assert_ne!(state.tunnel, first);
}

#[test]
fn restart_method_resets() {
    let mut state = init_app_state(RandomSource::new(1));
    for _ in 0..50 {
        state.tick(true);
    }
    state.restart();
    assert!(state.paused && !state.collided);
    assert_eq!(state.vehicle, Vehicle::start());
    assert_eq!(state.tunnel.len(), 6);
}

#[test]
fn same_seed_same_run() {
    let mut a = init_app_state(RandomSource::new(123));
    let mut b = init_app_state(RandomSource::new(123));
    for tick in 0..4_000 {
        let thrust = (tick / 37) % 2 == 0;
        a.tick(thrust);
        b.tick(thrust);
        assert_eq!(a.vehicle, b.vehicle);
        assert_eq!(a.tunnel, b.tunnel);
        assert_eq!(a.collided, b.collided);
        assert_eq!(a.paused, b.paused);
    }
}

#[test]
fn tunnel_stays_well_formed_while_the_game_runs() {
    let mut state = init_app_state(RandomSource::new(2));
    for tick in 0..3_000 {
        if state.collided {
            state.restart();
        }
        state.tick(tick % 3 != 0);
        let x = xs(&state);
        assert!(x.len() >= 2);
        assert!(*x.last().unwrap() >= 1_000_000);
        for i in 1..x.len() {
            assert!(x[i - 1] < x[i]);
        }
    }
}
