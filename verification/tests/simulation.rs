use room_relax::components::{Position, Room, Size, Vec2};
use room_relax::config::SeparationCfg;
use room_relax::driver::{simulation_tick, SimulationContext};
use room_relax::integration::{integrate_acceleration_into_velocity, integrate_velocity_into_position};
use room_relax::separation::{clamp_steering, rooms_overlap, separation_forces};
use room_relax::settlement::{any_rooms_overlap, report_when_rooms_stopped, SettlementState};

const S: i64 = 60000;
const DT: i64 = S / 60;

fn room_at(x: i64, y: i64, w: i64, h: i64) -> Room {
    Room::new(Position(Vec2 { x, y }), Size(Vec2 { x: w, y: h }))
}

#[test]
fn overlap_symmetry_concrete() {
    let a = room_at(0, 0, 10 * S, 10 * S);
    let b = room_at(3 * S, 2 * S, 4 * S, 4 * S);
    assert_eq!(rooms_overlap(&a, &b), rooms_overlap(&b, &a));
    assert!(rooms_overlap(&a, &b));
    let far = room_at(100 * S, 0, 4 * S, 4 * S);
    assert_eq!(rooms_overlap(&a, &far), rooms_overlap(&far, &a));
    assert!(!rooms_overlap(&a, &far));
}

#[test]
fn edge_touch_is_not_overlap() {
    // edges exactly coincide on x: centers 10 apart, both 10 wide
    let a = room_at(5 * S, 0, 10 * S, 10 * S);
    let b = room_at(15 * S, 0, 10 * S, 10 * S);
    assert!(!rooms_overlap(&a, &b));
    // and on y
    let c = room_at(0, 0, 10 * S, 10 * S);
    let d = room_at(0, 10 * S, 10 * S, 10 * S);
    assert!(!rooms_overlap(&c, &d));
    // one raw quantum closer and they do overlap
    let e = room_at(15 * S - 1, 0, 10 * S, 10 * S);
    assert!(rooms_overlap(&a, &e));
}

#[test]
fn non_overlapping_room_is_stopped() {
    let cfg = SeparationCfg::default();
    let mut a = room_at(0, 0, 10 * S, 10 * S);
    a.velocity.0 = Vec2 { x: 7 * S, y: -3 * S };
    let mut b = room_at(50 * S, 0, 10 * S, 10 * S);
    b.velocity.0 = Vec2 { x: -2 * S, y: 9 * S };
    let mut rooms = vec![a, b];
    separation_forces(&mut rooms, &cfg);
    for r in &rooms {
        assert_eq!(r.acceleration.0, Vec2 { x: 0, y: 0 });
        assert_eq!(r.velocity.0, Vec2 { x: 0, y: 0 });
    }
}

#[test]
fn clamp_bounds_magnitude() {
    let cfg = SeparationCfg::new(100 * S, 300 * S, 0).unwrap();
    let mut rooms = vec![room_at(0, 0, 10 * S, 10 * S)];
    rooms[0].acceleration.0 = Vec2 { x: 500 * S, y: 500 * S };
    clamp_steering(&mut rooms, &cfg);
    let a = rooms[0].acceleration.0;
    let n2 = (a.x as i128) * (a.x as i128) + (a.y as i128) * (a.y as i128);
    let cap = (300 * S + 1) as i128;
    assert!(n2 <= cap * cap);
    // direction preserved: still on the diagonal
    assert_eq!(a.x, a.y);
    assert!(a.x > 0);
    // an in-range acceleration is untouched
    let mut small = vec![room_at(0, 0, 10 * S, 10 * S)];
    small[0].acceleration.0 = Vec2 { x: 100 * S, y: 0 };
    clamp_steering(&mut small, &cfg);
    assert_eq!(small[0].acceleration.0, Vec2 { x: 100 * S, y: 0 });
}

#[test]
fn drag_floor_stops_exactly() {
    // drag * dt >= 1: drag 60 per second at dt = 1/60 gives factor zero
    let cfg = SeparationCfg::new(100 * S, 300 * S, 60 * S).unwrap();
    let mut rooms = vec![room_at(0, 0, 10 * S, 10 * S)];
    rooms[0].velocity.0 = Vec2 { x: 123456, y: -654321 };
    rooms[0].acceleration.0 = Vec2 { x: 2 * S, y: 3 * S };
    integrate_acceleration_into_velocity(&mut rooms, &cfg, DT);
    assert_eq!(rooms[0].velocity.0, Vec2 { x: 0, y: 0 });
}

#[test]
fn degenerate_centroid_zero_acceleration() {
    let cfg = SeparationCfg::default();
    let mut rooms = vec![room_at(3 * S, 4 * S, 10 * S, 10 * S), room_at(3 * S, 4 * S, 10 * S, 10 * S)];
    separation_forces(&mut rooms, &cfg);
    // the pair overlaps with penetration 10, yet both accelerations are zero
    let pair = (rooms[0], rooms[1]);
    assert!(rooms_overlap(&pair.0, &pair.1));
    assert_eq!(rooms[0].acceleration.0, Vec2 { x: 0, y: 0 });
    assert_eq!(rooms[1].acceleration.0, Vec2 { x: 0, y: 0 });
    // velocities kept (they do have overlaps, so no forced stop)
    assert_eq!(rooms[0].velocity.0, Vec2 { x: 0, y: 0 });
}

#[test]
fn scenario_a_coincident_rooms_never_settle() {
    let cfg = SeparationCfg::default();
    let mut ctx = SimulationContext::new(cfg);
    let mut rooms = vec![room_at(0, 0, 10 * S, 10 * S), room_at(0, 0, 10 * S, 10 * S)];
    for _ in 0..20 {
        let fired = simulation_tick(&mut rooms, &mut ctx, DT);
        assert!(!fired);
        assert!(!ctx.settlement.reported);
        assert_eq!(rooms[0].position.0, Vec2 { x: 0, y: 0 });
        assert_eq!(rooms[1].position.0, Vec2 { x: 0, y: 0 });
        assert_eq!(rooms[0].acceleration.0, Vec2 { x: 0, y: 0 });
        assert_eq!(rooms[1].acceleration.0, Vec2 { x: 0, y: 0 });
    }
}

#[test]
fn scenario_b_touching_rooms_settle_at_once() {
    let cfg = SeparationCfg::default();
    let mut ctx = SimulationContext::new(cfg);
    let mut rooms = vec![room_at(5 * S, 0, 10 * S, 10 * S), room_at(15 * S, 0, 10 * S, 10 * S)];
    rooms[0].velocity.0 = Vec2 { x: 4 * S, y: 0 };
    rooms[1].velocity.0 = Vec2 { x: -4 * S, y: 0 };
    let fired = simulation_tick(&mut rooms, &mut ctx, DT);
    // edge-touching pair does not overlap: both rooms forced to rest
    assert_eq!(rooms[0].velocity.0, Vec2 { x: 0, y: 0 });
    assert_eq!(rooms[1].velocity.0, Vec2 { x: 0, y: 0 });
    assert_eq!(rooms[0].position.0, Vec2 { x: 5 * S, y: 0 });
    assert_eq!(rooms[1].position.0, Vec2 { x: 15 * S, y: 0 });
    assert!(fired);
    assert!(ctx.settlement.reported);
    // settlement latch: never fires again
    for _ in 0..10 {
        let again = simulation_tick(&mut rooms, &mut ctx, DT);
        assert!(!again);
        assert!(ctx.settlement.reported);
    }
}

#[test]
fn scenario_c_one_step_kinematics() {
    // stiffness 100, max_force 300, drag 0, dt 1/60
    let cfg = SeparationCfg::new(100 * S, 300 * S, 0).unwrap();
    let mut rooms = vec![room_at(0, 0, 10 * S, 10 * S), room_at(5 * S, 0, 10 * S, 10 * S)];
    separation_forces(&mut rooms, &cfg);
    // overlap_x = 5, overlap_y = 10, penetration 5; magnitude 100 * 5 = 500
    assert_eq!(rooms[1].acceleration.0, Vec2 { x: 500 * S, y: 0 });
    assert_eq!(rooms[0].acceleration.0, Vec2 { x: -500 * S, y: 0 });
    clamp_steering(&mut rooms, &cfg);
    assert_eq!(rooms[1].acceleration.0, Vec2 { x: 300 * S, y: 0 });
    assert_eq!(rooms[0].acceleration.0, Vec2 { x: -300 * S, y: 0 });
    integrate_acceleration_into_velocity(&mut rooms, &cfg, DT);
    // velocity magnitude 300 / 60 = 5
    assert_eq!(rooms[1].velocity.0, Vec2 { x: 5 * S, y: 0 });
    assert_eq!(rooms[0].velocity.0, Vec2 { x: -5 * S, y: 0 });
    integrate_velocity_into_position(&mut rooms, DT);
    // position advances by 5 / 60 of a world unit: 5000 raw units
    assert_eq!(rooms[1].position.0, Vec2 { x: 5 * S + 5000, y: 0 });
    assert_eq!(rooms[0].position.0, Vec2 { x: -5000, y: 0 });
}

#[test]
fn settlement_needs_at_least_one_room() {
    let rooms: Vec<Room> = vec![];
    let mut state = SettlementState::default();
    let fired = report_when_rooms_stopped(&mut state, &rooms);
    assert!(!fired);
    assert!(!state.reported);
}

#[test]
fn settlement_latch_is_terminal() {
    let mut state = SettlementState::default();
    let apart = vec![room_at(0, 0, 2 * S, 2 * S), room_at(30 * S, 0, 2 * S, 2 * S)];
    let overlapping = vec![room_at(0, 0, 9 * S, 9 * S), room_at(2 * S, 0, 9 * S, 9 * S)];
    assert!(!any_rooms_overlap(&apart));
    assert!(any_rooms_overlap(&overlapping));
    assert!(!report_when_rooms_stopped(&mut state, &overlapping));
    assert!(!state.reported);
    assert!(report_when_rooms_stopped(&mut state, &apart));
    assert!(state.reported);
    // even a later overlapping scan cannot reset or re-fire the latch
    for _ in 0..5 {
        assert!(!report_when_rooms_stopped(&mut state, &overlapping));
        assert!(!report_when_rooms_stopped(&mut state, &apart));
        assert!(state.reported);
    }
}

#[test]
fn zero_size_room_rests() {
    let cfg = SeparationCfg::default();
    // a point-sized room on the other room's edge: overlap extent exactly
    // zero, so it counts as non-overlapping and is forced to rest
    let mut rooms = vec![room_at(5 * S, 0, 0, 0), room_at(0, 0, 10 * S, 10 * S)];
    rooms[0].velocity.0 = Vec2 { x: S, y: S };
    separation_forces(&mut rooms, &cfg);
    // a zero-size room overlaps nothing and is forced to rest
    assert_eq!(rooms[0].acceleration.0, Vec2 { x: 0, y: 0 });
    assert_eq!(rooms[0].velocity.0, Vec2 { x: 0, y: 0 });
}

#[test]
fn three_body_separation_uses_centroid() {
    let cfg = SeparationCfg::new(100 * S, 300 * S, 0).unwrap();
    // a middle room overlapped from both sides by equal neighbors: the
    // centroid coincides with its center, so it gets zero acceleration
    let mut rooms = vec![
        room_at(0, 0, 10 * S, 10 * S),
        room_at(-4 * S, 0, 10 * S, 10 * S),
        room_at(4 * S, 0, 10 * S, 10 * S),
    ];
    separation_forces(&mut rooms, &cfg);
    assert_eq!(rooms[0].acceleration.0, Vec2 { x: 0, y: 0 });
    // the side rooms are pushed outward, symmetrically
    assert!(rooms[1].acceleration.0.x < 0);
    assert!(rooms[2].acceleration.0.x > 0);
    assert_eq!(rooms[1].acceleration.0.x, -rooms[2].acceleration.0.x);
    assert_eq!(rooms[1].acceleration.0.y, 0);
    assert_eq!(rooms[2].acceleration.0.y, 0);
}
