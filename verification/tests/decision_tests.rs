use evolution_simulator::animal::{Mouse, Owl, Sex};
use evolution_simulator::board::Board;
use evolution_simulator::config::MiceConfig;
use evolution_simulator::decision::{next_mouse_move, next_owl_move};

fn mouse_at(id: &str, pos: (i32, i32), sex: Sex) -> Mouse {
    Mouse::new(id.to_string(), 0, 5, None, None, pos, sex)
}

fn owl_at(id: &str, pos: (i32, i32), sex: Sex) -> Owl {
    Owl::new(id.to_string(), 0, 10, None, None, pos, sex)
}

fn cfg(vision: u32, hunger_priority: u32) -> MiceConfig {
    MiceConfig { count: 0, preg_time: 10, vision, hunger_priority, max_age: 100 }
}

#[test]
fn hungry_mouse_steps_one_cell_toward_grass() {
    // Grass at Manhattan distance 2, hunger over the threshold, vision 3:
    // the mouse steps exactly one cell toward the grass, diagonally when
    // both axes differ, never further.
    let mut rng = rand::rng();
    let mut board = Board::new(10, 10);
    board.add_mouse(mouse_at("M1", (5, 5), Sex::Female));
    board.mice[0].ticks_since_last_eaten = 6;
    board.grass.push((6, 6)); // distance 2, both axes differ
    let mv = next_mouse_move(0, &board, &cfg(3, 5), &Vec::new(), &mut rng);
    assert_eq!(mv, Some((6, 6)));

    board.grass.clear();
    board.grass.push((5, 7)); // distance 2, one axis
    let mv = next_mouse_move(0, &board, &cfg(3, 5), &Vec::new(), &mut rng);
    assert_eq!(mv, Some((5, 6)));
}

#[test]
fn hungry_mouse_ignores_grass_out_of_vision() {
    let mut rng = rand::rng();
    let mut board = Board::new(10, 10);
    board.add_mouse(mouse_at("M1", (0, 0), Sex::Female));
    board.mice[0].ticks_since_last_eaten = 6;
    board.grass.push((4, 0)); // distance 4 > vision 3: no grass in sight
    let mv = next_mouse_move(0, &board, &cfg(3, 5), &Vec::new(), &mut rng);
    assert_eq!(mv, None);
}

#[test]
fn mouse_standing_on_grass_stays() {
    let mut rng = rand::rng();
    let mut board = Board::new(10, 10);
    board.add_mouse(mouse_at("M1", (2, 2), Sex::Female));
    board.mice[0].ticks_since_last_eaten = 6;
    board.grass.push((2, 2));
    let mv = next_mouse_move(0, &board, &cfg(3, 5), &Vec::new(), &mut rng);
    assert_eq!(mv, None);
}

#[test]
fn blocked_step_toward_grass_means_no_move() {
    let mut rng = rand::rng();
    let mut board = Board::new(10, 10);
    board.add_mouse(mouse_at("M1", (5, 5), Sex::Female));
    board.add_mouse(mouse_at("M2", (6, 6), Sex::Male));
    board.mice[0].ticks_since_last_eaten = 6;
    board.grass.push((7, 7));
    let mv = next_mouse_move(0, &board, &cfg(5, 5), &Vec::new(), &mut rng);
    assert_eq!(mv, None);
}

#[test]
fn male_seeks_nearest_nonpregnant_female() {
    let mut rng = rand::rng();
    let mut board = Board::new(10, 10);
    board.add_mouse(mouse_at("M1", (5, 5), Sex::Male));
    board.add_mouse(mouse_at("F1", (8, 5), Sex::Female));
    board.add_mouse(mouse_at("F2", (5, 9), Sex::Female));
    let mv = next_mouse_move(0, &board, &cfg(5, 5), &Vec::new(), &mut rng);
    assert_eq!(mv, Some((6, 5))); // toward F1, the nearer female
}

#[test]
fn male_skips_pregnant_female() {
    let mut rng = rand::rng();
    let mut board = Board::new(10, 10);
    board.add_mouse(mouse_at("M1", (5, 5), Sex::Male));
    board.add_mouse(mouse_at("F1", (8, 5), Sex::Female));
    board.add_mouse(mouse_at("F2", (5, 2), Sex::Female));
    let pregnancies = vec![("F1".to_string(), 4u32)];
    let mv = next_mouse_move(0, &board, &cfg(5, 5), &pregnancies, &mut rng);
    assert_eq!(mv, Some((5, 4))); // F1 is pregnant, so head for F2
}

#[test]
fn male_adjacent_to_female_stays_to_breed() {
    let mut rng = rand::rng();
    let mut board = Board::new(10, 10);
    board.add_mouse(mouse_at("M1", (5, 5), Sex::Male));
    board.add_mouse(mouse_at("F1", (5, 6), Sex::Female));
    let mv = next_mouse_move(0, &board, &cfg(5, 5), &Vec::new(), &mut rng);
    assert_eq!(mv, None);
}

#[test]
fn female_falls_back_to_grass() {
    let mut rng = rand::rng();
    let mut board = Board::new(10, 10);
    board.add_mouse(mouse_at("F1", (5, 5), Sex::Female));
    board.add_mouse(mouse_at("M1", (5, 6), Sex::Male));
    board.grass.push((3, 5));
    let mv = next_mouse_move(0, &board, &cfg(5, 5), &Vec::new(), &mut rng);
    assert_eq!(mv, Some((4, 5))); // females never seek mates
}

#[test]
fn lone_mouse_wanders_to_a_free_neighbor() {
    let mut rng = rand::rng();
    let mut board = Board::new(10, 10);
    board.add_mouse(mouse_at("M1", (5, 5), Sex::Male));
    // No grass, no mates: a uniformly random free neighboring cell.
    let mv = next_mouse_move(0, &board, &cfg(3, 5), &Vec::new(), &mut rng);
    let p = mv.expect("a lone mouse on an open board always has a free neighbor");
    let (dx, dy) = (p.0 - 5, p.1 - 5);
    assert!(dx.abs() <= 1 && dy.abs() <= 1 && (dx, dy) != (0, 0));
}

#[test]
fn cornered_mouse_produces_no_move() {
    let mut rng = rand::rng();
    let mut board = Board::new(1, 1);
    board.add_mouse(mouse_at("M1", (0, 0), Sex::Male));
    board.add_mouse(mouse_at("M2", (0, 1), Sex::Male));
    board.add_mouse(mouse_at("M3", (1, 0), Sex::Male));
    board.add_mouse(mouse_at("M4", (1, 1), Sex::Male));
    let mv = next_mouse_move(0, &board, &cfg(0, 5), &Vec::new(), &mut rng);
    assert_eq!(mv, None);
}

#[test]
fn owl_steps_toward_nearest_mouse() {
    let mut rng = rand::rng();
    let mut board = Board::new(10, 10);
    board.add_owl(owl_at("O1", (2, 2), Sex::Male));
    let snapshot = vec![(6, 2), (2, 5)];
    // (2, 5) at distance 3 beats (6, 2) at distance 4.
    let mv = next_owl_move(0, &board, &snapshot, &mut rng);
    assert_eq!(mv, Some((2, 3)));
}

#[test]
fn owl_without_mice_stays() {
    let mut rng = rand::rng();
    let mut board = Board::new(10, 10);
    board.add_owl(owl_at("O1", (2, 2), Sex::Male));
    let mv = next_owl_move(0, &board, &Vec::new(), &mut rng);
    assert_eq!(mv, None);
}

#[test]
fn blocked_owl_falls_back_to_free_neighbor() {
    let mut rng = rand::rng();
    let mut board = Board::new(10, 10);
    board.add_owl(owl_at("O1", (2, 2), Sex::Male));
    board.add_owl(owl_at("O2", (3, 2), Sex::Female));
    let snapshot = vec![(6, 2)];
    // The direct step (3, 2) is blocked by owl 2: random free neighbor.
    let mv = next_owl_move(0, &board, &snapshot, &mut rng);
    let p = mv.expect("free neighbors exist");
    let (dx, dy) = (p.0 - 2, p.1 - 2);
    assert!(dx.abs() <= 1 && dy.abs() <= 1 && (dx, dy) != (0, 0));
    assert_ne!(p, (3, 2));
}

#[test]
fn owl_steps_are_clamped_to_the_board() {
    let mut rng = rand::rng();
    let mut board = Board::new(4, 4);
    board.add_owl(owl_at("O1", (0, 0), Sex::Male));
    let snapshot = vec![(0, 0)];
    // The nearest mouse shares the owl's cell: the step has no effect but
    // stays on the board.
    let mv = next_owl_move(0, &board, &snapshot, &mut rng);
    assert_eq!(mv, Some((0, 0)));
}
