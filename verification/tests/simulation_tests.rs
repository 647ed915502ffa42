use evolution_simulator::animal::{Mouse, Owl, Sex};
use evolution_simulator::board::Board;
use evolution_simulator::config::{BoardConfig, MiceConfig, OwlsConfig};
use evolution_simulator::population::{detect_breeding, progress_pregnancies, try_birth};
use evolution_simulator::simulation::Simulation;

fn mouse_at(id: &str, pos: (i32, i32), sex: Sex) -> Mouse {
    Mouse::new(id.to_string(), 0, 5, None, None, pos, sex)
}

fn owl_at(id: &str, pos: (i32, i32), sex: Sex) -> Owl {
    Owl::new(id.to_string(), 0, 10, None, None, pos, sex)
}

fn mice_cfg(count: u32) -> MiceConfig {
    MiceConfig { count, preg_time: 10, vision: 3, hunger_priority: 5, max_age: 50 }
}

#[test]
fn breeding_registers_full_gestation_time() {
    let mut mice = Vec::new();
    mice.push(mouse_at("M1", (2, 2), Sex::Male));
    mice.push(mouse_at("F1", (2, 3), Sex::Female));
    let mut pregnancies: Vec<(String, u32)> = Vec::new();
    detect_breeding(&mice, &mut pregnancies, 7);
    // Both mice see an opposite-sex mouse at distance one, and neither was
    // pregnant, so both register, in collection order.
    assert_eq!(pregnancies.len(), 2);
    assert_eq!(pregnancies[0], ("M1".to_string(), 7));
    assert_eq!(pregnancies[1], ("F1".to_string(), 7));
}

#[test]
fn breeding_skips_already_pregnant_and_distant_mice() {
    let mut mice = Vec::new();
    mice.push(mouse_at("M1", (2, 2), Sex::Male));
    mice.push(mouse_at("F1", (2, 3), Sex::Female));
    mice.push(mouse_at("F2", (8, 8), Sex::Female));
    let mut pregnancies = vec![("F1".to_string(), 3u32)];
    detect_breeding(&mice, &mut pregnancies, 7);
    // F1 is already pregnant; F2's nearest opposite-sex mouse is far away;
    // M1 registers anew.
    assert_eq!(pregnancies.len(), 2);
    assert_eq!(pregnancies[0], ("F1".to_string(), 3));
    assert_eq!(pregnancies[1], ("M1".to_string(), 7));
}

#[test]
fn stacked_opposite_sex_mice_do_not_breed() {
    // The nearest opposite-sex mouse is at distance zero, not one.
    let mut mice = Vec::new();
    mice.push(mouse_at("M1", (2, 2), Sex::Male));
    mice.push(mouse_at("F1", (2, 2), Sex::Female));
    let mut pregnancies: Vec<(String, u32)> = Vec::new();
    detect_breeding(&mice, &mut pregnancies, 7);
    assert_eq!(pregnancies.len(), 0);
}

#[test]
fn pregnancy_counts_down_and_queues_birth() {
    let mut pregnancies = vec![("A".to_string(), 3u32), ("B".to_string(), 1u32)];
    let births = progress_pregnancies(&mut pregnancies);
    assert_eq!(births, vec!["B".to_string()]);
    assert_eq!(pregnancies, vec![("A".to_string(), 2)]);

    let births = progress_pregnancies(&mut pregnancies);
    assert!(births.is_empty());
    assert_eq!(pregnancies, vec![("A".to_string(), 1)]);

    // After exactly three passes the record queues its birth and is gone.
    let births = progress_pregnancies(&mut pregnancies);
    assert_eq!(births, vec!["A".to_string()]);
    assert!(pregnancies.is_empty());
}

#[test]
fn birth_spawns_on_first_free_orthogonal_neighbor() {
    let mut rng = rand::rng();
    let mut board = Board::new(4, 4);
    board.add_mouse(mouse_at("M1", (2, 2), Sex::Female));
    board.add_owl(owl_at("O1", (2, 3), Sex::Male)); // north is taken
    let mut counter: usize = 5;
    let added = try_birth(&mut board, &"M1".to_string(), &mut counter, &mut rng);
    assert!(added);
    assert_eq!(counter, 6);
    assert_eq!(board.mice.len(), 2);
    let newborn = &board.mice[1];
    assert_eq!(newborn.location, (3, 2)); // east, the next direction scanned
    assert_eq!(newborn.id, "Mouse6");
    assert_eq!(newborn.age, 0);
    assert_eq!(newborn.ticks_since_last_eaten, 0);
}

#[test]
fn birth_with_all_neighbors_occupied_fails_silently() {
    let mut rng = rand::rng();
    let mut board = Board::new(4, 4);
    board.add_mouse(mouse_at("M1", (2, 2), Sex::Female));
    board.add_mouse(mouse_at("M2", (2, 3), Sex::Male));
    board.add_owl(owl_at("O1", (3, 2), Sex::Male));
    board.add_mouse(mouse_at("M3", (2, 1), Sex::Male));
    board.add_owl(owl_at("O2", (1, 2), Sex::Female));
    let mut counter: usize = 5;
    let added = try_birth(&mut board, &"M1".to_string(), &mut counter, &mut rng);
    assert!(!added);
    assert_eq!(counter, 5);
    assert_eq!(board.mice.len(), 3);
    assert_eq!(board.owls.len(), 2);
}

#[test]
fn birth_for_unknown_mother_does_nothing() {
    let mut rng = rand::rng();
    let mut board = Board::new(4, 4);
    board.add_mouse(mouse_at("M1", (2, 2), Sex::Female));
    let mut counter: usize = 5;
    let added = try_birth(&mut board, &"M9".to_string(), &mut counter, &mut rng);
    assert!(!added);
    assert_eq!(counter, 5);
    assert_eq!(board.mice.len(), 1);
}

#[test]
fn new_simulation_places_animals_on_distinct_cells() {
    let board_cfg = BoardConfig { width: 4, height: 4 };
    let owls_cfg = OwlsConfig { count: 5, max_age: 30 };
    let sim = Simulation::new(&board_cfg, &mice_cfg(8), &owls_cfg, 100);
    assert_eq!(sim.board.mice.len(), 8);
    assert_eq!(sim.board.owls.len(), 5);
    assert_eq!(sim.current_tick(), 0);
    let mut cells: Vec<(i32, i32)> = Vec::new();
    for m in &sim.board.mice {
        assert!(0 <= m.location.0 && m.location.0 <= 4);
        assert!(0 <= m.location.1 && m.location.1 <= 4);
        cells.push(m.location);
    }
    for o in &sim.board.owls {
        assert!(0 <= o.location.0 && o.location.0 <= 4);
        assert!(0 <= o.location.1 && o.location.1 <= 4);
        cells.push(o.location);
    }
    for a in 0..cells.len() {
        for b in 0..a {
            assert_ne!(cells[a], cells[b], "two animals share a cell");
        }
    }
    // Grass covers exactly the unoccupied cells: 25 cells, 13 animals.
    assert_eq!(sim.board.grass.len(), 12);
    for g in &sim.board.grass {
        assert!(!cells.contains(g));
    }
}

#[test]
fn ticks_keep_animals_on_the_board() {
    let board_cfg = BoardConfig { width: 6, height: 5 };
    let owls_cfg = OwlsConfig { count: 3, max_age: 30 };
    let mut sim = Simulation::new(&board_cfg, &mice_cfg(10), &owls_cfg, 100);
    for _ in 0..20 {
        sim.advance_tick();
        for m in &sim.board.mice {
            assert!(0 <= m.location.0 && m.location.0 <= 6);
            assert!(0 <= m.location.1 && m.location.1 <= 5);
        }
        for o in &sim.board.owls {
            assert!(0 <= o.location.0 && o.location.0 <= 6);
            assert!(0 <= o.location.1 && o.location.1 <= 5);
        }
    }
}

#[test]
fn ticks_keep_owls_on_distinct_cells() {
    let board_cfg = BoardConfig { width: 6, height: 6 };
    let owls_cfg = OwlsConfig { count: 6, max_age: 100 };
    let mut sim = Simulation::new(&board_cfg, &mice_cfg(6), &owls_cfg, 100);
    for _ in 0..20 {
        sim.advance_tick();
        for a in 0..sim.board.owls.len() {
            for b in 0..a {
                assert_ne!(sim.board.owls[a].location, sim.board.owls[b].location);
            }
        }
    }
}

#[test]
fn extinction_terminates_the_run_early() {
    let board_cfg = BoardConfig { width: 5, height: 5 };
    let owls_cfg = OwlsConfig { count: 1, max_age: 1000 };
    let n_ticks = 200;
    let mut sim = Simulation::new(&board_cfg, &mice_cfg(4), &owls_cfg, n_ticks);
    let mut ticks_run = 0;
    while sim.should_continue() {
        sim.step_forward();
        ticks_run += 1;
        if ticks_run == 3 {
            // The population collapses mid-run.
            sim.board.mice.clear();
        }
    }
    assert_eq!(sim.board.mice.len(), 0);
    assert!(sim.current_tick() < n_ticks);
    assert_eq!(sim.current_tick(), ticks_run);
}

#[test]
fn step_backward_is_inert() {
    let board_cfg = BoardConfig { width: 3, height: 3 };
    let owls_cfg = OwlsConfig { count: 1, max_age: 30 };
    let mut sim = Simulation::new(&board_cfg, &mice_cfg(2), &owls_cfg, 10);
    sim.step_forward();
    let tick = sim.current_tick();
    let mice = sim.board.mice.len();
    sim.step_backward();
    assert_eq!(sim.current_tick(), tick);
    assert_eq!(sim.board.mice.len(), mice);
}

#[test]
fn initial_ids_follow_the_naming_scheme() {
    let board_cfg = BoardConfig { width: 4, height: 4 };
    let owls_cfg = OwlsConfig { count: 2, max_age: 30 };
    let sim = Simulation::new(&board_cfg, &mice_cfg(3), &owls_cfg, 10);
    assert_eq!(sim.board.owls[0].id, "Owl1");
    assert_eq!(sim.board.owls[1].id, "Owl2");
    assert_eq!(sim.board.mice[0].id, "Mouse1");
    assert_eq!(sim.board.mice[1].id, "Mouse2");
    assert_eq!(sim.board.mice[2].id, "Mouse3");
    assert_eq!(sim.mouse_id_counter, 3);
}
