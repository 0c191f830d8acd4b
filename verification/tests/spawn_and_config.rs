use room_relax::config::{ConfigError, SeparationCfg, SpawnCfg};
use room_relax::spawn::{
    radius_from_unit, sample_disk_radius, sample_side, sample_unit, side_from_unit, spawn_room,
};

const S: i64 = 60000;

#[test]
fn default_separation_config() {
    let cfg = SeparationCfg::default();
    assert_eq!(cfg.stiffness, 100 * S);
    assert_eq!(cfg.max_force, 300 * S);
    assert_eq!(cfg.drag, 7 * S / 2);
}

#[test]
fn separation_config_rejects_negatives() {
    assert_eq!(SeparationCfg::new(-1, 300 * S, 0).unwrap_err(), ConfigError::NegativeStiffness);
    assert_eq!(SeparationCfg::new(100 * S, -5, 0).unwrap_err(), ConfigError::NegativeMaxForce);
    assert_eq!(SeparationCfg::new(100 * S, 300 * S, -2).unwrap_err(), ConfigError::NegativeDrag);
    assert_eq!(
        SeparationCfg::new(100 * S, 2_000_000_000, 0).unwrap_err(),
        ConfigError::OutOfRange
    );
    let ok = SeparationCfg::new(100 * S, 300 * S, 7 * S / 2).unwrap();
    assert_eq!(ok.stiffness, 100 * S);
    assert_eq!(ok.max_force, 300 * S);
    assert_eq!(ok.drag, 7 * S / 2);
}

#[test]
fn spawn_config_rejects_bad_inputs() {
    assert_eq!(SpawnCfg::new(0, S, 2 * S, 50 * S).unwrap_err(), ConfigError::NonPositiveCount);
    assert_eq!(SpawnCfg::new(8, 0, 2 * S, 50 * S).unwrap_err(), ConfigError::NonPositiveSide);
    assert_eq!(
        SpawnCfg::new(8, 3 * S, 2 * S, 50 * S).unwrap_err(),
        ConfigError::SideBoundsOutOfOrder
    );
    assert_eq!(SpawnCfg::new(8, S, 2 * S, 0).unwrap_err(), ConfigError::NonPositiveRadius);
    assert_eq!(
        SpawnCfg::new(8, S, 2 * S, 2_000_000_000).unwrap_err(),
        ConfigError::OutOfRange
    );
    let ok = SpawnCfg::new(8, S, 2 * S, 50 * S).unwrap();
    assert_eq!(ok.count, 8);
}

#[test]
fn radius_transform_exact_values() {
    // u = 1/4: sqrt is exactly 1/2, so the distance is half the radius
    assert_eq!(radius_from_unit(10 * S, S / 4), 5 * S);
    // u = 0 maps to the center
    assert_eq!(radius_from_unit(10 * S, 0), 0);
    // u near 1 stays within the radius
    let r = radius_from_unit(10 * S, S - 1);
    assert!(r <= 10 * S);
    assert!(r > 9 * S);
}

#[test]
fn side_transform_exact_values() {
    // u = 1/2 lands halfway between the bounds
    assert_eq!(side_from_unit(10 * S, 20 * S, S / 2), 15 * S);
    assert_eq!(side_from_unit(10 * S, 20 * S, 0), 10 * S);
    let top = side_from_unit(10 * S, 20 * S, S - 1);
    assert!(top < 20 * S);
    assert!(top > 19 * S);
    // equal bounds always give that side
    assert_eq!(side_from_unit(7 * S, 7 * S, 12345), 7 * S);
}

#[test]
fn sample_unit_stays_in_range() {
    for _ in 0..2000 {
        let u = sample_unit();
        assert!(0 <= u && u < S);
    }
}

#[test]
fn sampled_draws_stay_in_bounds() {
    let cfg = SpawnCfg::new(4, S, 3 * S, 40 * S).unwrap();
    for _ in 0..2000 {
        let r = sample_disk_radius(&cfg);
        assert!(0 <= r && r <= 40 * S);
        let side = sample_side(&cfg);
        assert!(S <= side && side <= 3 * S);
    }
}

#[test]
fn spawned_room_starts_at_rest_inside_disk() {
    let cfg = SpawnCfg::new(4, S, 3 * S, 40 * S).unwrap();
    for _ in 0..200 {
        // axis-aligned unit directions; the angle draw lives with the caller
        let room = spawn_room(S, 0, &cfg);
        assert_eq!(room.velocity.0.x, 0);
        assert_eq!(room.velocity.0.y, 0);
        assert_eq!(room.acceleration.0.x, 0);
        assert_eq!(room.acceleration.0.y, 0);
        assert!(room.position.0.x.abs() <= 40 * S);
        assert_eq!(room.position.0.y, 0);
        assert!(S <= room.size.0.x && room.size.0.x <= 3 * S);
        assert!(S <= room.size.0.y && room.size.0.y <= 3 * S);
    }
}

#[test]
fn squared_radius_distribution_is_area_uniform() {
    // polar sampling with the square root: the squared distance should be
    // uniform, so each squared-radius quartile should hold about a quarter
    // of the draws
    let cfg = SpawnCfg::new(4, S, 3 * S, 10 * S).unwrap();
    let rr_max: i128 = (10 * S as i128) * (10 * S as i128);
    let n: i64 = 40000;
    let mut quartile_counts = [0i64; 4];
    for _ in 0..n {
        let r = sample_disk_radius(&cfg) as i128;
        let rr = r * r;
        let mut q = (rr * 4 / rr_max) as usize;
        if q > 3 {
            q = 3;
        }
        quartile_counts[q] += 1;
    }
    for &count in &quartile_counts {
        // expected 10000 per quartile; allow a wide band for randomness
        assert!(count > 8800, "quartile count {} too small", count);
        assert!(count < 11200, "quartile count {} too large", count);
    }
}
