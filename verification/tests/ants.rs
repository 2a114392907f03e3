use ant_sim::ant::Ant;
use ant_sim::config::{Config, DECAY_PER_MILLE, DECAY_THRESHOLD, FULL_INTENSITY, TRAIL_THRESHOLD};
use ant_sim::environment::Environment;
use rand::rngs::StdRng;
use rand::SeedableRng;

fn world(width: usize, height: usize, nest: (usize, usize), food: &[(usize, usize)]) -> Environment {
    let config = Config {
        width,
        height,
        scale_x: 1,
        scale_y: 1,
        ant_count: 1,
        clump_count: 1,
        food_count: 0,
        clump_radius: 1,
        padding: 0,
        nest_position: nest,
        decay_per_mille: DECAY_PER_MILLE,
        decay_threshold: DECAY_THRESHOLD,
        trail_threshold: TRAIL_THRESHOLD,
    };
    let mut rng = StdRng::seed_from_u64(0);
    let mut env = Environment::new(&config, &mut rng).unwrap();
    env.food_positions = food.to_vec();
    env
}

fn trail_cells(env: &Environment) -> Vec<(usize, usize)> {
    let mut cells = Vec::new();
    for y in 0..env.height {
        for x in 0..env.width {
            if env.pheromone_at(x, y).is_some() {
                cells.push((x, y));
            }
        }
    }
    cells
}

fn chebyshev(a: (usize, usize), b: (usize, usize)) -> usize {
    a.0.abs_diff(b.0).max(a.1.abs_diff(b.1))
}

#[test]
fn a_new_ant_remembers_only_its_start() {
    let ant = Ant::new(4, 9);
    assert_eq!(ant.position(), (4, 9));
    assert_eq!(ant.last_positions(), [(4, 9), (4, 9), (4, 9)]);
    assert!(!ant.is_carrying_food());
    assert!(ant.is_position_in_memory(4, 9));
    assert!(!ant.is_position_in_memory(9, 4));
}

#[test]
fn memory_holds_the_last_three_of_five_moves() {
    let env = world(20, 20, (0, 0), &[]);
    let mut ant = Ant::new(5, 5);
    let steps = [(1, 0), (1, 1), (0, 1), (-1, 1), (1, 1)];
    let visited = [(6, 5), (7, 6), (7, 7), (6, 8), (7, 9)];
    for (step, cell) in steps.iter().zip(visited.iter()) {
        assert!(ant.try_step(&env, step.0, step.1));
        assert_eq!(ant.position(), *cell);
    }
    assert_eq!(ant.last_positions(), [(7, 7), (6, 8), (7, 9)]);
    assert!(!ant.is_position_in_memory(5, 5));
    assert!(!ant.is_position_in_memory(6, 5));
    assert!(!ant.is_position_in_memory(7, 6));
}

#[test]
fn memory_holds_the_last_three_of_five_random_moves() {
    let env = world(20, 20, (0, 0), &[]);
    for seed in 0..20 {
        let mut rng = StdRng::seed_from_u64(seed);
        let mut ant = Ant::new(10, 10);
        let mut visited = vec![ant.position()];
        while visited.len() < 6 {
            let before = ant.position();
            ant.move_randomly(&env, &mut rng);
            if ant.position() != before {
                visited.push(ant.position());
            }
        }
        assert_eq!(ant.last_positions().to_vec(), visited[3..6].to_vec());
    }
}

#[test]
fn a_stay_is_not_remembered() {
    let env = world(20, 20, (0, 0), &[]);
    let mut ant = Ant::new(5, 5);
    assert!(ant.try_step(&env, 1, 0));
    assert!(ant.try_step(&env, 1, 0));
    let memory = ant.last_positions();
    assert!(!ant.try_step(&env, 0, 0));
    assert!(!ant.try_step(&env, -1, 0));
    assert_eq!(ant.last_positions(), memory);
    assert_eq!(ant.position(), (7, 5));
}

#[test]
fn a_step_is_clamped_to_the_grid() {
    let env = world(4, 3, (0, 0), &[]);
    let mut ant = Ant::new(0, 0);
    // clamps to the ant's own cell, which it remembers
    assert!(!ant.try_step(&env, -1, -1));
    assert_eq!(ant.position(), (0, 0));
    assert!(ant.try_step(&env, -1, 1));
    assert_eq!(ant.position(), (0, 1));
    let mut ant = Ant::new(3, 2);
    assert!(!ant.try_step(&env, 1, 1));
    assert!(ant.try_step(&env, i32::MAX, i32::MIN));
    assert_eq!(ant.position(), (3, 0));
}

#[test]
fn a_random_move_leads_to_an_unremembered_neighbor() {
    let env = world(20, 20, (0, 0), &[]);
    let mut rng = StdRng::seed_from_u64(17);
    let mut targets = Vec::new();
    for _ in 0..300 {
        let mut ant = Ant::new(10, 10);
        ant.move_randomly(&env, &mut rng);
        let p = ant.position();
        assert!(chebyshev(p, (10, 10)) <= 1);
        if p != (10, 10) {
            assert_eq!(ant.last_positions(), [(10, 10), (10, 10), p]);
            if !targets.contains(&p) {
                targets.push(p);
            }
        } else {
            assert_eq!(ant.last_positions(), [(10, 10), (10, 10), (10, 10)]);
        }
    }
    assert_eq!(targets.len(), 8);
}

#[test]
fn a_cornered_ant_stays() {
    let env = world(1, 1, (0, 0), &[]);
    let mut rng = StdRng::seed_from_u64(17);
    let mut ant = Ant::new(0, 0);
    ant.move_randomly(&env, &mut rng);
    assert_eq!(ant.position(), (0, 0));
    assert_eq!(ant.last_positions(), [(0, 0), (0, 0), (0, 0)]);
}

#[test]
fn move_toward_walks_both_axes_at_once() {
    let mut ant = Ant::new(2, 7);
    ant.move_toward(5, 5, 1);
    assert_eq!(ant.position(), (3, 6));
    ant.move_toward(5, 5, 1);
    assert_eq!(ant.position(), (4, 5));
    ant.move_toward(5, 5, 1);
    assert_eq!(ant.position(), (5, 5));
    assert_eq!(ant.last_positions(), [(3, 6), (4, 5), (5, 5)]);
    ant.move_toward(5, 5, 1);
    assert_eq!(ant.position(), (5, 5));
    assert_eq!(ant.last_positions(), [(3, 6), (4, 5), (5, 5)]);
}

#[test]
fn move_toward_stops_on_arrival() {
    let mut ant = Ant::new(2, 7);
    ant.move_toward(5, 5, 10);
    assert_eq!(ant.position(), (5, 5));
    assert_eq!(ant.last_positions(), [(3, 6), (4, 5), (5, 5)]);
    let mut ant = Ant::new(2, 7);
    ant.move_toward(9, 7, 2);
    assert_eq!(ant.position(), (4, 7));
    assert_eq!(ant.last_positions(), [(2, 7), (3, 7), (4, 7)]);
    let mut ant = Ant::new(2, 7);
    ant.move_toward(9, 7, 0);
    assert_eq!(ant.position(), (2, 7));
}

#[test]
fn the_return_takes_as_many_steps_as_the_distance() {
    let mut env = world(20, 20, (0, 0), &[]);
    let mut ant = Ant::new(10, 10);
    assert_eq!(ant.return_to_nest(&mut env), 10);
    assert_eq!(ant.position(), (0, 0));
    let expected: Vec<(usize, usize)> = (0..10).map(|k| (k, k)).collect();
    assert_eq!(trail_cells(&env), expected);
    for k in 0..10 {
        assert_eq!(env.pheromone_at(k, k), Some((FULL_INTENSITY, (10, 10))));
    }
    assert_eq!(env.pheromone_at(10, 10), None);
    assert_eq!(ant.last_positions(), [(2, 2), (1, 1), (0, 0)]);
}

#[test]
fn the_return_bends_where_one_axis_is_reached() {
    let mut env = world(20, 20, (3, 5), &[]);
    let mut ant = Ant::new(7, 2);
    assert_eq!(ant.return_to_nest(&mut env), 4);
    assert_eq!(ant.position(), (3, 5));
    let mut cells = trail_cells(&env);
    cells.sort();
    assert_eq!(cells, vec![(3, 5), (4, 5), (5, 4), (6, 3)]);
    for &(x, y) in &cells {
        assert_eq!(env.pheromone_at(x, y), Some((FULL_INTENSITY, (4, -3))));
    }
    assert_eq!(ant.last_positions(), [(5, 4), (4, 5), (3, 5)]);
}

#[test]
fn every_return_step_comes_closer() {
    let nest = (6, 9);
    for &start in &[(0, 0), (19, 19), (6, 0), (19, 9), (0, 19), (7, 9), (13, 2)] {
        let distance = chebyshev(start, nest);
        let mut env = world(20, 20, nest, &[]);
        let mut ant = Ant::new(start.0, start.1);
        assert_eq!(ant.return_to_nest(&mut env), distance);
        let cells = trail_cells(&env);
        assert_eq!(cells.len(), distance);
        let mut distances: Vec<usize> = cells.iter().map(|&c| chebyshev(c, nest)).collect();
        distances.sort();
        assert_eq!(distances, (0..distance).collect::<Vec<usize>>());
        let mut walker = Ant::new(start.0, start.1);
        for left in (0..distance).rev() {
            walker.move_toward(nest.0, nest.1, 1);
            assert_eq!(chebyshev(walker.position(), nest), left);
            assert!(env.pheromone_at(walker.position().0, walker.position().1).is_some());
        }
    }
}

#[test]
fn a_return_from_the_nest_lays_nothing() {
    let mut env = world(20, 20, (4, 4), &[]);
    let mut ant = Ant::new(4, 4);
    assert_eq!(ant.return_to_nest(&mut env), 0);
    assert_eq!(ant.position(), (4, 4));
    assert!(trail_cells(&env).is_empty());
    assert_eq!(ant.last_positions(), [(4, 4), (4, 4), (4, 4)]);
}

#[test]
fn a_fresh_trail_overwrites_an_old_one() {
    let mut env = world(20, 20, (0, 0), &[]);
    env.add_pheromone(1, 1, (9, 9), 20_000_000);
    env.add_pheromone(5, 1, (9, 9), 20_000_000);
    let mut ant = Ant::new(2, 2);
    ant.return_to_nest(&mut env);
    assert_eq!(env.pheromone_at(1, 1), Some((FULL_INTENSITY, (2, 2))));
    assert_eq!(env.pheromone_at(5, 1), Some((20_000_000, (9, 9))));
}

#[test]
fn food_on_the_next_cell_is_not_picked_up() {
    for seed in 0..50 {
        let mut rng = StdRng::seed_from_u64(seed);
        let mut env = world(10, 10, (0, 0), &[(5, 6)]);
        let mut ant = Ant::new(5, 5);
        ant.update(&mut env, &mut rng);
        assert!(!ant.is_carrying_food());
        assert_eq!(env.food_positions, vec![(5, 6)]);
    }
}

#[test]
fn food_on_the_own_cell_is_picked_up() {
    let mut rng = StdRng::seed_from_u64(1);
    let mut env = world(10, 10, (0, 0), &[(5, 6), (5, 5), (2, 2), (5, 5)]);
    let mut ant = Ant::new(5, 5);
    ant.update(&mut env, &mut rng);
    assert!(ant.is_carrying_food());
    assert_eq!(ant.position(), (5, 5));
    assert_eq!(ant.last_positions(), [(5, 5), (5, 5), (5, 5)]);
    assert_eq!(env.food_positions, vec![(5, 6), (2, 2), (5, 5)]);
    assert_eq!(env.food_delivered, 0);
    assert!(trail_cells(&env).is_empty());
}

#[test]
fn food_on_the_nest_is_picked_up_and_then_delivered() {
    let mut rng = StdRng::seed_from_u64(1);
    let mut env = world(10, 10, (5, 5), &[(5, 5)]);
    let mut ant = Ant::new(5, 5);
    ant.update(&mut env, &mut rng);
    assert!(ant.is_carrying_food());
    assert!(env.food_positions.is_empty());
    assert_eq!(ant.position(), (5, 5));
    assert_eq!(env.food_delivered, 0);
    ant.update(&mut env, &mut rng);
    assert!(!ant.is_carrying_food());
    assert_eq!(ant.position(), (5, 5));
    assert_eq!(env.food_delivered, 1);
    assert!(trail_cells(&env).is_empty());
}

#[test]
fn a_carrying_ant_walks_home_in_one_tick_and_delivers_in_the_next() {
    let mut rng = StdRng::seed_from_u64(1);
    let mut env = world(20, 20, (0, 0), &[(10, 10)]);
    let mut ant = Ant::new(10, 10);
    ant.update(&mut env, &mut rng);
    assert!(ant.is_carrying_food());
    ant.update(&mut env, &mut rng);
    assert!(ant.is_carrying_food());
    assert_eq!(ant.position(), (0, 0));
    assert_eq!(env.food_delivered, 0);
    assert_eq!(trail_cells(&env).len(), 10);
    assert_eq!(env.pheromone_at(9, 9), Some((FULL_INTENSITY, (10, 10))));
    assert_eq!(env.pheromone_at(0, 0), Some((FULL_INTENSITY, (10, 10))));
    ant.update(&mut env, &mut rng);
    assert!(!ant.is_carrying_food());
    assert_eq!(env.food_delivered, 1);
    assert_eq!(ant.position(), (0, 0));
}

#[test]
fn directions_agree_above_a_cosine_of_three_quarters() {
    let ant = Ant::new(0, 0);
    assert!(ant.is_direction_valid((1, 0), (1, 0)));
    assert!(ant.is_direction_valid((3, 3), (10, 10)));
    // cos = 8 / sqrt(113) = 0.7526
    assert!(ant.is_direction_valid((1, 0), (8, 7)));
    assert!(ant.is_direction_valid((-5, 0), (-8, -7)));
    // cos = 9 / sqrt(145) = 0.7474
    assert!(!ant.is_direction_valid((1, 0), (9, 8)));
    assert!(!ant.is_direction_valid((0, 2), (-8, 9)));
    assert!(!ant.is_direction_valid((1, 0), (0, 1)));
    assert!(!ant.is_direction_valid((1, 0), (-1, 0)));
    assert!(!ant.is_direction_valid((1, 1), (-8, -7)));
}

#[test]
fn a_zero_direction_agrees_with_nothing() {
    let ant = Ant::new(0, 0);
    assert!(!ant.is_direction_valid((0, 0), (1, 0)));
    assert!(!ant.is_direction_valid((1, 0), (0, 0)));
    assert!(!ant.is_direction_valid((0, 0), (0, 0)));
}

#[test]
fn extreme_directions_are_compared_exactly() {
    let ant = Ant::new(0, 0);
    let min = i32::MIN;
    let max = i32::MAX;
    assert!(ant.is_direction_valid((min, min), (min, min)));
    assert!(ant.is_direction_valid((max, max), (max, max)));
    assert!(!ant.is_direction_valid((min, min), (max, max)));
    assert!(ant.is_direction_valid((min, 0), (min, max)) == false);
    assert!(ant.is_direction_valid((min, 0), (min, 1)));
}

#[test]
fn the_heading_points_from_the_nest_to_the_ant() {
    let env = world(20, 20, (6, 9), &[]);
    assert_eq!(Ant::new(10, 2).calculate_direction_from_nest(&env), (4, -7));
    assert_eq!(Ant::new(6, 9).calculate_direction_from_nest(&env), (0, 0));
    assert_eq!(Ant::new(0, 19).calculate_direction_from_nest(&env), (-6, 10));
}

#[test]
fn the_strongest_agreeing_neighbor_is_followed() {
    let mut rng = StdRng::seed_from_u64(1);
    let mut env = world(10, 10, (0, 0), &[]);
    env.add_pheromone(6, 6, (1, 1), 500_000_000);
    env.add_pheromone(6, 5, (1, 1), 900_000_000);
    env.add_pheromone(5, 6, (1, 1), 700_000_000);
    let mut ant = Ant::new(5, 5);
    ant.move_toward_food(&env, &mut rng);
    assert_eq!(ant.position(), (6, 5));
    assert_eq!(ant.last_positions(), [(5, 5), (5, 5), (6, 5)]);
}

#[test]
fn among_equals_the_last_scanned_neighbor_is_followed() {
    let mut rng = StdRng::seed_from_u64(1);
    let mut env = world(10, 10, (0, 0), &[]);
    env.add_pheromone(4, 6, (1, 1), 700_000_000);
    env.add_pheromone(6, 4, (1, 1), 700_000_000);
    env.add_pheromone(5, 4, (1, 1), 700_000_000);
    env.add_pheromone(5, 6, (1, 1), 600_000_000);
    let mut ant = Ant::new(5, 5);
    ant.move_toward_food(&env, &mut rng);
    assert_eq!(ant.position(), (6, 4));
}

#[test]
fn a_neighbor_at_the_trail_threshold_is_not_followed() {
    let mut rng = StdRng::seed_from_u64(1);
    let mut env = world(10, 10, (0, 0), &[]);
    env.add_pheromone(6, 6, (1, 1), TRAIL_THRESHOLD);
    env.add_pheromone(4, 4, (1, 1), TRAIL_THRESHOLD + 1);
    let mut ant = Ant::new(5, 5);
    ant.move_toward_food(&env, &mut rng);
    assert_eq!(ant.position(), (4, 4));
}

#[test]
fn a_remembered_neighbor_is_not_followed() {
    let mut rng = StdRng::seed_from_u64(1);
    let mut env = world(10, 10, (0, 0), &[]);
    env.add_pheromone(4, 5, (1, 1), 900_000_000);
    env.add_pheromone(6, 6, (1, 1), 200_000_000);
    let mut ant = Ant::new(4, 5);
    assert!(ant.try_step(&env, 1, 0));
    ant.move_toward_food(&env, &mut rng);
    assert_eq!(ant.position(), (6, 6));
    assert_eq!(ant.last_positions(), [(4, 5), (5, 5), (6, 6)]);
}

#[test]
fn a_trail_that_points_elsewhere_is_not_followed() {
    for seed in 0..30 {
        let mut rng = StdRng::seed_from_u64(seed);
        let mut env = world(10, 10, (0, 0), &[]);
        env.add_pheromone(6, 6, (-1, -1), 900_000_000);
        env.add_pheromone(6, 5, (1, -1), 900_000_000);
        env.add_pheromone(4, 4, (1, 1), 900_000_000);
        let mut ant = Ant::new(5, 5);
        ant.move_toward_food(&env, &mut rng);
        assert_eq!(ant.position(), (4, 4));
    }
}

#[test]
fn without_a_trail_to_follow_the_ant_wanders() {
    let mut moved = 0;
    for seed in 0..50 {
        let mut rng = StdRng::seed_from_u64(seed);
        let mut env = world(10, 10, (0, 0), &[]);
        env.add_pheromone(6, 6, (-1, -1), 900_000_000);
        let mut ant = Ant::new(5, 5);
        ant.move_toward_food(&env, &mut rng);
        assert!(chebyshev(ant.position(), (5, 5)) <= 1);
        if ant.position() != (5, 5) {
            moved += 1;
            assert_eq!(ant.last_positions(), [(5, 5), (5, 5), ant.position()]);
        }
    }
    assert!(moved >= 40);
}

#[test]
fn an_ant_on_the_nest_has_no_heading_to_follow() {
    let mut rng = StdRng::seed_from_u64(3);
    let mut env = world(10, 10, (5, 5), &[]);
    for y in 4..=6 {
        for x in 4..=6 {
            env.add_pheromone(x, y, (1, 1), 900_000_000);
        }
    }
    let mut ant = Ant::new(5, 5);
    ant.move_toward_food(&env, &mut rng);
    assert!(chebyshev(ant.position(), (5, 5)) <= 1);
}

#[test]
fn an_ant_on_a_trail_follows_it_when_ticked() {
    let mut rng = StdRng::seed_from_u64(1);
    let mut env = world(10, 10, (0, 0), &[]);
    env.add_pheromone(5, 5, (7, 7), FULL_INTENSITY);
    env.add_pheromone(6, 6, (7, 7), FULL_INTENSITY);
    let mut ant = Ant::new(5, 5);
    ant.update(&mut env, &mut rng);
    assert_eq!(ant.position(), (6, 6));
    assert!(!ant.is_carrying_food());
    assert_eq!(env.pheromone_at(5, 5), Some((FULL_INTENSITY, (7, 7))));
    assert_eq!(env.pheromone_at(6, 6), Some((FULL_INTENSITY, (7, 7))));
}

#[test]
fn an_ant_on_a_faint_trail_does_not_follow_it() {
    let mut followed = 0;
    for seed in 0..200 {
        let mut rng = StdRng::seed_from_u64(seed);
        let mut env = world(10, 10, (0, 0), &[]);
        env.add_pheromone(5, 5, (7, 7), DECAY_THRESHOLD);
        env.add_pheromone(6, 6, (7, 7), FULL_INTENSITY);
        let mut ant = Ant::new(5, 5);
        ant.update(&mut env, &mut rng);
        if ant.position() == (6, 6) {
            followed += 1;
        }
    }
    // only the occasional random step leads there
    assert!(followed < 20);
}

#[test]
fn an_idle_ant_wanders_about_one_tick_in_ten() {
    let mut rng = StdRng::seed_from_u64(23);
    let mut env = world(50, 50, (0, 0), &[]);
    let mut moves = 0;
    for _ in 0..2000 {
        let mut ant = Ant::new(25, 25);
        ant.update(&mut env, &mut rng);
        assert!(chebyshev(ant.position(), (25, 25)) <= 1);
        assert!(!ant.is_carrying_food());
        if ant.position() != (25, 25) {
            moves += 1;
        }
    }
    assert!(120 <= moves && moves <= 280, "moves = {}", moves);
    assert!(trail_cells(&env).is_empty());
}

#[test]
fn a_trail_laid_on_the_way_home_lasts_919_ticks() {
    // ceil(ln(0.01) / ln(0.995)) = ceil(918.73) = 919
    let mut rng = StdRng::seed_from_u64(1);
    let mut env = world(20, 20, (0, 0), &[(10, 10)]);
    let mut ant = Ant::new(10, 10);
    ant.update(&mut env, &mut rng);
    assert!(ant.is_carrying_food());
    ant.update(&mut env, &mut rng);
    assert_eq!(ant.position(), (0, 0));
    assert_eq!(env.pheromone_at(4, 4), Some((FULL_INTENSITY, (10, 10))));
    for tick in 1..919 {
        env.update_pheromones();
        for k in 0..10 {
            assert!(env.has_significant_pheromones(k, k), "cell {} absent after {} ticks", k, tick);
        }
    }
    assert_eq!(env.get_pheromone_direction(4, 4), Some((10, 10)));
    env.update_pheromones();
    assert!(trail_cells(&env).is_empty());
}
