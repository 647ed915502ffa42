use evolution_simulator::animal::{Mouse, Owl, Sex};
use evolution_simulator::board::{Board, CellKind};

fn mouse_at(id: &str, pos: (i32, i32), sex: Sex) -> Mouse {
    Mouse::new(id.to_string(), 0, 5, None, None, pos, sex)
}

fn owl_at(id: &str, pos: (i32, i32), sex: Sex) -> Owl {
    Owl::new(id.to_string(), 0, 10, None, None, pos, sex)
}

#[test]
fn test_add_animal_and_grass() {
    let mut board = Board::new(2, 2);
    let m = Mouse::new("M1".to_string(), 0, 5, None, None, (1, 1), Sex::Female);
    board.add_mouse(m);
    board.init_grass();
    assert!(board.grass.contains(&(0, 0)));
    assert!(!board.grass.contains(&(1, 1))); // occupied by mouse
}

#[test]
fn test_remove_caught_and_starved_mice() {
    let mut board = Board::new(2, 2);
    let m1 = Mouse::new("M1".to_string(), 0, 5, None, None, (1, 1), Sex::Female);
    let m2 = Mouse::new("M2".to_string(), 0, 5, None, None, (2, 2), Sex::Male);
    let o = Owl::new("O1".to_string(), 0, 10, None, None, (1, 1), Sex::Male);
    board.add_mouse(m1);
    board.add_mouse(m2);
    board.add_owl(o);
    board.init_grass();

    board.remove_caught_mice();
    assert_eq!(board.mice.len(), 1);
    assert_eq!(board.dead_mice_total, 1);

    // starve the remaining mouse
    if let Some(mouse) = board.mice.iter_mut().next() {
        mouse.ticks_since_last_eaten = 10;
    }
    board.remove_starved_mice();
    assert_eq!(board.mice.len(), 0);
    assert_eq!(board.dead_mice_total, 2);
}

#[test]
fn starvation_cull_counts_each_removal_once() {
    let mut board = Board::new(3, 3);
    board.add_mouse(mouse_at("M1", (0, 0), Sex::Female));
    board.add_mouse(mouse_at("M2", (1, 0), Sex::Male));
    board.add_mouse(mouse_at("M3", (2, 0), Sex::Female));
    board.mice[0].ticks_since_last_eaten = 10;
    board.mice[2].ticks_since_last_eaten = 12;
    board.remove_starved_mice();
    assert_eq!(board.mice.len(), 1);
    assert_eq!(board.mice[0].id, "M2");
    assert_eq!(board.dead_mice_starved, 2);
    assert_eq!(board.dead_mice_total, 2);
    assert_eq!(board.dead_mice_eaten, 0);
}

#[test]
fn predation_cull_counts_each_removal_once() {
    let mut board = Board::new(3, 3);
    board.add_mouse(mouse_at("M1", (0, 0), Sex::Female));
    board.add_mouse(mouse_at("M2", (1, 1), Sex::Male));
    board.add_mouse(mouse_at("M3", (1, 1), Sex::Female));
    board.add_owl(owl_at("O1", (1, 1), Sex::Male));
    board.remove_caught_mice();
    assert_eq!(board.mice.len(), 1);
    assert_eq!(board.mice[0].id, "M1");
    assert_eq!(board.dead_mice_eaten, 2);
    assert_eq!(board.dead_mice_total, 2);
    assert_eq!(board.dead_mice_starved, 0);
}

#[test]
fn mouse_move_onto_grass_resets_hunger() {
    let mut board = Board::new(2, 2);
    board.add_mouse(mouse_at("M1", (0, 0), Sex::Female));
    board.add_mouse(mouse_at("M2", (2, 2), Sex::Male));
    board.init_grass();
    board.mice[0].ticks_since_last_eaten = 7;
    board.mice[1].ticks_since_last_eaten = 3;
    // Mouse 1 moves onto grass at (0, 1); mouse 2 stays put.
    let moves = vec![Some((0, 1)), None];
    board.apply_moves(&moves);
    assert_eq!(board.mice[0].location, (0, 1));
    assert_eq!(board.mice[0].ticks_since_last_eaten, 0);
    assert!(!board.grass.contains(&(0, 1))); // eaten, never regrows
    assert_eq!(board.mice[1].ticks_since_last_eaten, 4); // standing still costs food
}

#[test]
fn mouse_move_onto_bare_cell_raises_hunger() {
    let mut board = Board::new(2, 2);
    board.add_mouse(mouse_at("M1", (0, 0), Sex::Female));
    // No grass seeded at all.
    board.mice[0].ticks_since_last_eaten = 2;
    let moves = vec![Some((1, 1))];
    board.apply_moves(&moves);
    assert_eq!(board.mice[0].location, (1, 1));
    assert_eq!(board.mice[0].ticks_since_last_eaten, 3);
}

#[test]
fn owl_moves_first_claim_wins() {
    let mut board = Board::new(3, 3);
    board.add_owl(owl_at("O1", (0, 0), Sex::Male));
    board.add_owl(owl_at("O2", (2, 2), Sex::Female));
    // Both owls target (1, 1); the first in collection order wins.
    let moves = vec![Some((1, 1)), Some((1, 1))];
    board.apply_moves(&moves);
    assert_eq!(board.owls[0].location, (1, 1));
    assert_eq!(board.owls[1].location, (2, 2));
    assert_ne!(board.owls[0].location, board.owls[1].location);
}

#[test]
fn owl_cannot_move_onto_pretick_owl_position() {
    let mut board = Board::new(3, 3);
    board.add_owl(owl_at("O1", (0, 0), Sex::Male));
    board.add_owl(owl_at("O2", (1, 1), Sex::Female));
    // Owl 2 vacates (1, 1), but owl 1 still may not claim it this tick.
    let moves = vec![Some((1, 1)), Some((2, 1))];
    board.apply_moves(&moves);
    assert_eq!(board.owls[0].location, (0, 0));
    assert_eq!(board.owls[1].location, (2, 1));
}

#[test]
fn aging_culls_at_max_age() {
    let mut board = Board::new(3, 3);
    board.add_mouse(mouse_at("M1", (0, 0), Sex::Female));
    board.add_mouse(mouse_at("M2", (1, 0), Sex::Male));
    board.add_owl(owl_at("O1", (2, 2), Sex::Male));
    board.mice[0].age = 4; // will reach 5
    board.mice[1].age = 1;
    board.owls[0].age = 9; // will reach 10
    board.age_and_remove_old(5, 10);
    assert_eq!(board.mice.len(), 1);
    assert_eq!(board.mice[0].id, "M2");
    assert_eq!(board.mice[0].age, 2);
    assert_eq!(board.owls.len(), 0);
    assert_eq!(board.dead_mice_old_age, 1);
    assert_eq!(board.dead_mice_total, 1);
    assert_eq!(board.dead_owls_old_age, 1);
}

#[test]
fn cell_kind_prefers_mouse_then_owl_then_grass() {
    let mut board = Board::new(2, 2);
    board.add_mouse(mouse_at("M1", (0, 0), Sex::Female));
    board.add_owl(owl_at("O1", (0, 0), Sex::Male));
    board.add_owl(owl_at("O2", (1, 0), Sex::Male));
    board.init_grass();
    assert_eq!(board.cell_kind((0, 0)), CellKind::MouseCell(Sex::Female));
    assert_eq!(board.cell_kind((1, 0)), CellKind::OwlCell);
    assert_eq!(board.cell_kind((2, 2)), CellKind::Grass);
    // Animals' own cells bear no grass, so a vacated cell shows empty.
    board.mice.clear();
    board.owls.clear();
    assert_eq!(board.cell_kind((0, 0)), CellKind::Empty);
}

#[test]
fn symbols_follow_species_and_sex() {
    let f = mouse_at("M1", (0, 0), Sex::Female);
    let m = mouse_at("M2", (0, 0), Sex::Male);
    let o = owl_at("O1", (0, 0), Sex::Male);
    assert_eq!(f.symbol(), "\x1b[35mM\x1b[0m");
    assert_eq!(m.symbol(), "\x1b[34mM\x1b[0m");
    assert_eq!(o.symbol(), "\x1b[31mO\x1b[0m");
}

#[test]
fn one_by_one_board_owl_catches_mouse() {
    // A (0, 0) board has a single cell; mice and owls may share it, and the
    // mouse is removed by the next predation cull.
    let mut board = Board::new(0, 0);
    board.add_mouse(mouse_at("M1", (0, 0), Sex::Female));
    board.add_owl(owl_at("O1", (0, 0), Sex::Male));
    board.remove_caught_mice();
    assert_eq!(board.mice.len(), 0);
    assert_eq!(board.owls.len(), 1);
    assert_eq!(board.dead_mice_eaten, 1);
    assert_eq!(board.dead_mice_total, 1);
}
