use thermal_bugs::agents::{choose_move, closeness_of, is_comfortable, move_agents};
use thermal_bugs::config::{Config, COEF_DENOM, MAX_AGENTS, TEMP_SCALE};
use thermal_bugs::diffusion::diffuse;
use thermal_bugs::grid::{wrap_step, Coord, Grid, MAX_DIM, MAX_TEMP};
use thermal_bugs::simulation::{Simulation, BUG_COUNT, GRID_HEIGHT, GRID_WIDTH, INIT_TEMP_MAX};

fn c(x: usize, y: usize) -> Coord {
    Coord { x, y }
}

fn no_flow() -> Config {
    Config { decay: 0, diffusion: 0, ..Config::standard() }
}

/// A grid of the given size with every cell at 0 but `hot` at `t`.
fn one_hot(w: usize, h: usize, hot: Coord, t: i64) -> Grid {
    let mut g = Grid::filled(w, h, 0);
    g.set_temperature(hot, t);
    g
}

/// A 3x3 block around `centre` with the given temperatures, indexed by
/// scan slot (x outer, y inner), on a 5x5 grid at 0 elsewhere.
fn block(centre: Coord, ts: [i64; 9]) -> Grid {
    let mut g = Grid::filled(5, 5, 0);
    for k in 0..9 {
        let n = g.neighbor(centre, (k / 3) as i8 - 1, (k % 3) as i8 - 1);
        g.set_temperature(n, ts[k]);
    }
    g
}

#[test]
fn wrap_step_wraps_both_edges() {
    assert_eq!(wrap_step(0, -1, 5), 4);
    assert_eq!(wrap_step(4, 1, 5), 0);
    assert_eq!(wrap_step(2, 1, 5), 3);
    assert_eq!(wrap_step(2, 0, 5), 2);
    assert_eq!(wrap_step(0, 1, 1), 0);
}

#[test]
fn every_neighbor_stays_on_the_grid() {
    let g = Grid::filled(4, 3, 0);
    for x in 0..4 {
        for y in 0..3 {
            let ns = g.neighbors(c(x, y));
            assert_eq!(ns.len(), 8);
            for n in &ns {
                assert!(n.x < 4 && n.y < 3);
            }
            assert!(!ns.contains(&c(x, y)));
        }
    }
    let ns = g.neighbors(c(0, 0));
    assert_eq!(ns[0], c(3, 2));
    assert_eq!(ns[7], c(1, 1));
}

#[test]
fn grid_construction_checks_sizes() {
    assert!(Grid::from_temperatures(2, 2, vec![1, 2, 3, 4]).is_some());
    assert!(Grid::from_temperatures(2, 2, vec![1, 2, 3]).is_none());
    assert!(Grid::from_temperatures(0, 2, vec![]).is_none());
    assert!(Grid::from_temperatures(MAX_DIM + 1, 1, vec![0; MAX_DIM + 1]).is_none());
    let g = Grid::from_temperatures(2, 2, vec![1, 2, 3, 4]).unwrap();
    assert_eq!(g.get_temperature(c(1, 0)), 2);
    assert_eq!(g.get_temperature(c(0, 1)), 3);
}

#[test]
fn uniform_field_without_decay_is_steady() {
    let mut g = Grid::filled(6, 5, 7_000);
    let cfg = Config { decay: 0, ..Config::standard() };
    diffuse(&mut g, &vec![], &cfg);
    for x in 0..6 {
        for y in 0..5 {
            assert_eq!(g.get_temperature(c(x, y)), 7_000);
        }
    }
}

#[test]
fn uniform_field_decays_by_the_decay_rate() {
    let mut g = Grid::filled(4, 4, 1_000);
    diffuse(&mut g, &vec![], &Config::standard());
    assert_eq!(g.get_temperature(c(2, 3)), 990);
}

#[test]
fn diffusion_reads_only_the_previous_tick() {
    let mut g = one_hot(7, 7, c(0, 0), 10_000);
    diffuse(&mut g, &vec![], &Config::standard());
    assert_eq!(g.get_temperature(c(0, 0)), 1_900);
    for (x, y) in [(6, 6), (0, 6), (1, 6), (6, 0), (1, 0), (6, 1), (0, 1), (1, 1)] {
        assert_eq!(g.get_temperature(c(x, y)), 1_000);
    }
    for x in 0..7 {
        for y in 0..7 {
            let near = (x <= 1 || x == 6) && (y <= 1 || y == 6);
            if !near {
                assert_eq!(g.get_temperature(c(x, y)), 0);
            }
        }
    }
}

#[test]
fn diffusion_rounds_down() {
    let mut g = one_hot(5, 5, c(2, 2), -1);
    diffuse(&mut g, &vec![], &Config::standard());
    assert_eq!(g.get_temperature(c(2, 2)), -1);
    assert_eq!(g.get_temperature(c(1, 1)), -1);
    assert_eq!(g.get_temperature(c(0, 0)), 0);
}

#[test]
fn agent_heats_its_cell() {
    let mut g = Grid::filled(3, 3, 4_000);
    diffuse(&mut g, &vec![c(1, 2)], &no_flow());
    assert_eq!(g.get_temperature(c(1, 2)), 4_000 + 2_500);
    assert_eq!(g.get_temperature(c(2, 2)), 4_000);
}

#[test]
fn two_agents_heat_twice() {
    let mut g = Grid::filled(3, 3, 4_000);
    diffuse(&mut g, &vec![c(0, 0), c(2, 1), c(0, 0)], &no_flow());
    assert_eq!(g.get_temperature(c(0, 0)), 4_000 + 2 * 2_500);
    assert_eq!(g.get_temperature(c(2, 1)), 4_000 + 2_500);
}

#[test]
fn heat_is_added_after_diffusion() {
    let mut g = Grid::filled(3, 3, 1_000);
    diffuse(&mut g, &vec![c(1, 1)], &Config::standard());
    assert_eq!(g.get_temperature(c(1, 1)), 990 + 2_500);
}

#[test]
fn closeness_and_comfort() {
    let cfg = Config::standard();
    assert_eq!(closeness_of(&cfg, 9_000), 1_000);
    assert_eq!(closeness_of(&cfg, 12_000), 2_000);
    assert_eq!(closeness_of(&cfg, 14_000), 1_000);
    assert_eq!(closeness_of(&cfg, 20_000), 5_000);
    assert!(is_comfortable(&cfg, 10_000));
    assert!(is_comfortable(&cfg, 15_000));
    assert!(!is_comfortable(&cfg, 9_999));
    assert!(!is_comfortable(&cfg, 15_001));
}

#[test]
fn comfortable_agent_stays() {
    let g = block(c(2, 2), [12_500, 12_500, 12_500, 12_500, 10_000, 12_500, 12_500, 12_500, 12_500]);
    assert_eq!(choose_move(&g, c(2, 2), &Config::standard()), c(2, 2));
}

#[test]
fn cold_agent_moves_to_the_one_nearer_neighbor() {
    let g = block(c(2, 2), [5_000, 6_000, 4_000, 7_000, 8_000, 6_000, 9_000, 5_000, 2_000]);
    assert_eq!(choose_move(&g, c(2, 2), &Config::standard()), c(3, 1));
}

#[test]
fn band_beats_out_of_band() {
    let g = block(c(2, 2), [9_999, 9_999, 9_999, 9_999, 1_000, 9_999, 9_999, 9_999, 10_000]);
    assert_eq!(choose_move(&g, c(2, 2), &Config::standard()), c(3, 3));
}

#[test]
fn in_band_prefers_farther_from_edge() {
    let g = block(c(2, 2), [10_500, 14_000, 1_000, 1_000, 1_000, 12_000, 1_000, 1_000, 1_000]);
    assert_eq!(choose_move(&g, c(2, 2), &Config::standard()), c(2, 3));
}

#[test]
fn tie_goes_to_first_scanned() {
    let g = block(c(2, 2), [1_000, 9_000, 1_000, 1_000, 1_000, 1_000, 9_000, 1_000, 1_000]);
    assert_eq!(choose_move(&g, c(2, 2), &Config::standard()), c(1, 2));
    let g = block(c(2, 2), [1_000, 1_000, 12_000, 1_000, 1_000, 1_000, 12_000, 1_000, 1_000]);
    assert_eq!(choose_move(&g, c(2, 2), &Config::standard()), c(1, 3));
}

#[test]
fn no_better_cell_means_no_move() {
    let g = Grid::filled(3, 3, 1_000);
    assert_eq!(choose_move(&g, c(0, 0), &Config::standard()), c(0, 0));
}

#[test]
fn agents_move_on_a_wrapped_grid() {
    let g = one_hot(4, 4, c(3, 3), 12_000);
    let mut agents = vec![c(0, 0), c(1, 1), c(3, 3)];
    move_agents(&g, &mut agents, &Config::standard());
    assert_eq!(agents, vec![c(3, 3), c(1, 1), c(3, 3)]);
}

#[test]
fn simulation_checks_its_parts() {
    let cfg = Config::standard();
    assert!(Simulation::new(Grid::filled(3, 3, 0), vec![c(2, 2)], cfg).is_some());
    assert!(Simulation::new(Grid::filled(3, 3, 0), vec![c(3, 0)], cfg).is_none());
    let bad = Config { diffusion: COEF_DENOM + 1, ..cfg };
    assert!(Simulation::new(Grid::filled(3, 3, 0), vec![], bad).is_none());
    let many = vec![c(0, 0); MAX_AGENTS + 1];
    assert!(Simulation::new(Grid::filled(3, 3, 0), many, cfg).is_none());
}

#[test]
fn tick_diffuses_then_moves() {
    let cfg = Config::standard();
    let grid = Grid::from_temperatures(3, 1, vec![0, 0, 40_000]).unwrap();
    let mut sim = Simulation::new(grid, vec![c(0, 0)], cfg).unwrap();
    sim.tick();
    // On a 3x1 torus a cell is its own neighbour twice and each other cell's three times.
    assert_eq!(sim.temperature(c(2, 0)), 40_000 * 190 / 1000 + 2 * 4_000);
    assert_eq!(sim.temperature(c(1, 0)), 3 * 4_000);
    assert_eq!(sim.temperature(c(0, 0)), 3 * 4_000 + 2_500);
    assert_eq!(sim.agent_positions(), vec![c(0, 0)]);
}

#[test]
fn try_tick_refuses_out_of_range_fields() {
    let grid = Grid::from_temperatures(2, 1, vec![MAX_TEMP + 1, 0]).unwrap();
    let mut sim = Simulation::new(grid, vec![], Config::standard()).unwrap();
    assert!(!sim.try_tick());
    assert_eq!(sim.temperature(c(0, 0)), MAX_TEMP + 1);
    let grid = Grid::from_temperatures(2, 1, vec![MAX_TEMP, 0]).unwrap();
    let mut sim = Simulation::new(grid, vec![], Config::standard()).unwrap();
    assert!(sim.try_tick());
}

#[test]
fn random_start_is_in_range() {
    let sim = Simulation::random(GRID_WIDTH, GRID_HEIGHT, BUG_COUNT, Config::standard());
    assert_eq!(sim.grid().width(), 25);
    assert_eq!(sim.grid().height(), 25);
    let agents = sim.agent_positions();
    assert_eq!(agents.len(), 30);
    for a in &agents {
        assert!(a.x < 25 && a.y < 25);
    }
    let mut distinct = false;
    for x in 0..25 {
        for y in 0..25 {
            let t = sim.temperature(c(x, y));
            assert!((0..INIT_TEMP_MAX).contains(&t));
            if t != sim.temperature(c(0, 0)) {
                distinct = true;
            }
        }
    }
    assert!(distinct);
    assert_eq!(INIT_TEMP_MAX, 5 * TEMP_SCALE);
}

#[test]
fn standard_constants() {
    let cfg = Config::standard();
    assert_eq!(cfg, Config { decay: 10, diffusion: 100, bug_heat: 2_500, bug_min: 10_000, bug_max: 15_000 });
}
