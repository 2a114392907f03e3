use ant_sim::config::{
    Config, ConfigError, DECAY_PER_MILLE, DECAY_THRESHOLD, MAX_DIMENSION, TRAIL_THRESHOLD,
};
use ant_sim::environment::{scatter, Environment};
use rand::rngs::StdRng;
use rand::SeedableRng;

fn base() -> Config {
    Config {
        width: 30,
        height: 20,
        scale_x: 2,
        scale_y: 3,
        ant_count: 5,
        clump_count: 4,
        food_count: 42,
        clump_radius: 2,
        padding: 3,
        nest_position: (15, 10),
        decay_per_mille: DECAY_PER_MILLE,
        decay_threshold: DECAY_THRESHOLD,
        trail_threshold: TRAIL_THRESHOLD,
    }
}

fn error_of(config: Config) -> Option<ConfigError> {
    let mut rng = StdRng::seed_from_u64(3);
    let checked = config.validate().err();
    let built = Environment::new(&config, &mut rng).err();
    assert_eq!(checked, built);
    checked
}

#[test]
fn a_sound_configuration_is_accepted() {
    assert_eq!(base().validate(), Ok(()));
}

#[test]
fn zero_width_or_height_is_rejected() {
    assert_eq!(error_of(Config { width: 0, ..base() }), Some(ConfigError::ZeroDimension));
    assert_eq!(error_of(Config { height: 0, ..base() }), Some(ConfigError::ZeroDimension));
}

#[test]
fn an_oversized_grid_is_rejected() {
    let config = Config { width: MAX_DIMENSION + 1, ..base() };
    assert_eq!(error_of(config), Some(ConfigError::DimensionTooLarge));
    let config = Config { height: MAX_DIMENSION + 1, ..base() };
    assert_eq!(error_of(config), Some(ConfigError::DimensionTooLarge));
}

#[test]
fn a_zero_scale_is_rejected() {
    assert_eq!(error_of(Config { scale_x: 0, ..base() }), Some(ConfigError::ZeroScale));
    assert_eq!(error_of(Config { scale_y: 0, ..base() }), Some(ConfigError::ZeroScale));
}

#[test]
fn a_frame_beyond_memory_is_rejected() {
    let config = Config { width: MAX_DIMENSION, height: MAX_DIMENSION, scale_x: 4, scale_y: 4, ..base() };
    assert_eq!(error_of(config), Some(ConfigError::FrameTooLarge));
    let config = Config { scale_x: usize::MAX, ..base() };
    assert_eq!(error_of(config), Some(ConfigError::FrameTooLarge));
}

#[test]
fn a_zero_clump_count_is_rejected() {
    assert_eq!(error_of(Config { clump_count: 0, ..base() }), Some(ConfigError::ZeroClumpCount));
}

#[test]
fn padding_that_leaves_no_cell_is_rejected() {
    assert_eq!(error_of(Config { padding: 10, ..base() }), Some(ConfigError::PaddingTooLarge));
    assert_eq!(error_of(Config { padding: 15, ..base() }), Some(ConfigError::PaddingTooLarge));
    assert_eq!(error_of(Config { padding: usize::MAX, ..base() }), Some(ConfigError::PaddingTooLarge));
    assert_eq!(error_of(Config { padding: 9, ..base() }), None);
}

#[test]
fn an_oversized_clump_radius_is_rejected() {
    let config = Config { clump_radius: MAX_DIMENSION + 1, ..base() };
    assert_eq!(error_of(config), Some(ConfigError::ClumpRadiusTooLarge));
}

#[test]
fn a_nest_outside_the_grid_is_rejected() {
    assert_eq!(error_of(Config { nest_position: (30, 0), ..base() }), Some(ConfigError::NestOutOfBounds));
    assert_eq!(error_of(Config { nest_position: (0, 20), ..base() }), Some(ConfigError::NestOutOfBounds));
    assert_eq!(error_of(Config { nest_position: (29, 19), ..base() }), None);
}

#[test]
fn a_decay_factor_above_one_is_rejected() {
    assert_eq!(error_of(Config { decay_per_mille: 1001, ..base() }), Some(ConfigError::DecayFactorTooLarge));
    assert_eq!(error_of(Config { decay_per_mille: 1000, ..base() }), None);
}

#[test]
fn the_first_defect_is_reported() {
    let config = Config { width: 0, scale_x: 0, clump_count: 0, decay_per_mille: 2000, ..base() };
    assert_eq!(error_of(config), Some(ConfigError::ZeroDimension));
    let config = Config { scale_x: 0, clump_count: 0, decay_per_mille: 2000, ..base() };
    assert_eq!(error_of(config), Some(ConfigError::ZeroScale));
    let config = Config { clump_count: 0, padding: 100, ..base() };
    assert_eq!(error_of(config), Some(ConfigError::ZeroClumpCount));
    let config = Config { padding: 100, nest_position: (99, 99), ..base() };
    assert_eq!(error_of(config), Some(ConfigError::PaddingTooLarge));
}

#[test]
fn a_new_world_follows_its_configuration() {
    let mut rng = StdRng::seed_from_u64(11);
    let env = Environment::new(&base(), &mut rng).unwrap();
    assert_eq!((env.width, env.height), (30, 20));
    assert_eq!(env.nest_position, (15, 10));
    assert_eq!(env.food_delivered, 0);
    assert_eq!(env.decay_per_mille, DECAY_PER_MILLE);
    assert_eq!(env.decay_threshold, DECAY_THRESHOLD);
    assert_eq!(env.trail_threshold, TRAIL_THRESHOLD);
    assert_eq!(env.pheromones.len(), 20);
    for row in &env.pheromones {
        assert_eq!(row.len(), 30);
        assert!(row.iter().all(|cell| cell.is_none()));
    }
}

#[test]
fn food_comes_in_equal_clumps_between_the_margins() {
    for seed in 0..20 {
        let mut rng = StdRng::seed_from_u64(seed);
        let env = Environment::new(&base(), &mut rng).unwrap();
        // 42 / 4 = 10 per clump, 4 clumps
        assert_eq!(env.food_positions.len(), 40);
        for &(x, y) in &env.food_positions {
            assert!(3 <= x && x < 27, "x = {}", x);
            assert!(3 <= y && y < 17, "y = {}", y);
        }
        for clump in env.food_positions.chunks(10) {
            for a in clump {
                for b in clump {
                    assert!(a.0.abs_diff(b.0) <= 4 && a.1.abs_diff(b.1) <= 4);
                }
            }
        }
    }
}

#[test]
fn food_positions_vary() {
    let config = Config { clump_count: 1, food_count: 200, clump_radius: 5, ..base() };
    let mut rng = StdRng::seed_from_u64(5);
    let env = Environment::new(&config, &mut rng).unwrap();
    assert_eq!(env.food_positions.len(), 200);
    let first = env.food_positions[0];
    assert!(env.food_positions.iter().any(|&p| p != first));
    let xs: Vec<usize> = env.food_positions.iter().map(|p| p.0).collect();
    let ys: Vec<usize> = env.food_positions.iter().map(|p| p.1).collect();
    assert!(xs.iter().max().unwrap() - xs.iter().min().unwrap() >= 2);
    assert!(ys.iter().max().unwrap() - ys.iter().min().unwrap() >= 2);

    let mut centers = Vec::new();
    for seed in 0..30 {
        let config = Config { clump_count: 1, food_count: 1, clump_radius: 0, ..base() };
        let mut rng = StdRng::seed_from_u64(seed);
        let env = Environment::new(&config, &mut rng).unwrap();
        centers.push(env.food_positions[0]);
    }
    assert!(centers.iter().any(|&c| c != centers[0]));
    assert!(centers.iter().any(|&c| c.0 != 3 && c.1 != 3));
}

#[test]
fn no_food_when_the_count_is_below_the_clump_count() {
    let config = Config { clump_count: 4, food_count: 3, ..base() };
    let mut rng = StdRng::seed_from_u64(5);
    let env = Environment::new(&config, &mut rng).unwrap();
    assert!(env.food_positions.is_empty());
}

#[test]
fn scatter_displaces_and_clamps_between_the_margins() {
    let config = base();
    assert_eq!(scatter(&config, (10, 10), 2, -1), (12, 9));
    assert_eq!(scatter(&config, (5, 5), -10, 3), (3, 8));
    assert_eq!(scatter(&config, (25, 15), 10, 10), (26, 16));
    assert_eq!(scatter(&config, (3, 16), i32::MIN, i32::MAX), (3, 16));
    assert_eq!(scatter(&config, (26, 3), 0, 0), (26, 3));
}

#[test]
fn food_is_found_only_at_the_exact_cell() {
    let mut rng = StdRng::seed_from_u64(5);
    let mut env = Environment::new(&Config { food_count: 0, ..base() }, &mut rng).unwrap();
    env.food_positions.push((5, 6));
    assert_eq!(env.find_food_near(5, 5), None);
    assert_eq!(env.find_food_near(6, 6), None);
    assert_eq!(env.find_food_near(4, 6), None);
    assert_eq!(env.find_food_near(5, 7), None);
    assert_eq!(env.find_food_near(6, 5), None);
    assert_eq!(env.find_food_near(5, 6), Some(0));
}

#[test]
fn the_first_matching_food_item_is_found() {
    let mut rng = StdRng::seed_from_u64(5);
    let mut env = Environment::new(&Config { food_count: 0, ..base() }, &mut rng).unwrap();
    env.food_positions = vec![(5, 6), (1, 1), (5, 6), (1, 1)];
    assert_eq!(env.find_food_near(5, 6), Some(0));
    assert_eq!(env.find_food_near(1, 1), Some(1));
    assert_eq!(env.find_food_near(6, 5), None);
}

#[test]
fn removing_food_takes_one_item_and_keeps_the_order() {
    let mut rng = StdRng::seed_from_u64(5);
    let mut env = Environment::new(&Config { food_count: 0, ..base() }, &mut rng).unwrap();
    env.food_positions = vec![(5, 6), (1, 1), (5, 6), (2, 2)];
    assert_eq!(env.remove_food(0), Some((5, 6)));
    assert_eq!(env.food_positions, vec![(1, 1), (5, 6), (2, 2)]);
    assert_eq!(env.find_food_near(5, 6), Some(1));
    assert_eq!(env.remove_food(2), Some((2, 2)));
    assert_eq!(env.food_positions, vec![(1, 1), (5, 6)]);
}

#[test]
fn removing_food_that_is_not_there_changes_nothing() {
    let mut rng = StdRng::seed_from_u64(5);
    let mut env = Environment::new(&Config { food_count: 0, ..base() }, &mut rng).unwrap();
    env.food_positions = vec![(5, 6), (1, 1)];
    assert_eq!(env.remove_food(2), None);
    assert_eq!(env.remove_food(usize::MAX), None);
    assert_eq!(env.food_positions, vec![(5, 6), (1, 1)]);
}

#[test]
fn deliveries_are_counted_and_saturate() {
    let mut rng = StdRng::seed_from_u64(5);
    let mut env = Environment::new(&base(), &mut rng).unwrap();
    let food = env.food_positions.clone();
    env.add_food_to_nest();
    assert_eq!(env.food_delivered, 1);
    env.add_food_to_nest();
    assert_eq!(env.food_delivered, 2);
    assert_eq!(env.food_positions, food);
    env.food_delivered = u64::MAX - 1;
    env.add_food_to_nest();
    assert_eq!(env.food_delivered, u64::MAX);
    env.add_food_to_nest();
    assert_eq!(env.food_delivered, u64::MAX);
}
