use vstd::prelude::*;

use crate::animal::{Mouse, Owl, Sex};
use crate::board::{aged_mouse, aged_owl, any_owl_at, grass_after_mouse_moves, keep_filter,
    mouse_after_moves, owl_loc_after, owl_with_location, owls_distinct, Board,
    STARVATION_THRESHOLD};
use crate::board::lemma_owl_moves_preserve_distinct;
use crate::config::{BoardConfig, MiceConfig, OwlsConfig};
use crate::decision::{mouse_decision, mouse_wander_ok, next_mouse_move, next_owl_move,
    owl_decision, owl_wander_ok, MoveDecision};
use crate::grid::{in_bounds, Position};
use crate::ids::{mouse_id, owl_id};
use crate::population::{births_of, breeding_result, detect_breeding, pregs_distinct, progressed,
    progress_pregnancies, try_birth};
use crate::rng::{fresh_rng, random_flip, shuffle_cells};

verus! {

/// Every cell of the board, in lexicographic order.
fn all_cells(width: i32, height: i32) -> (r: Vec<Position>)
    requires
        0 <= width,
        0 <= height,
    ensures
        forall|p: Position| #[trigger] r@.contains(p) <==> in_bounds(p, width, height),
        r@.no_duplicates(),
        r@.len() == (width + 1) * (height + 1),
{
    let w: i64 = width as i64;
    let h: i64 = height as i64;
    let mut r: Vec<Position> = Vec::new();
    let mut x: i64 = 0;
    while x <= w
        invariant
            0 <= x <= w + 1,
            w == width as int,
            h == height as int,
            0 <= w,
            0 <= h,
            forall|p: Position|
                #[trigger] r@.contains(p) <==> (p.0 < x && in_bounds(p, width, height)),
            forall|i: int, j: int| 0 <= i < j < r@.len() ==> r@[i] != r@[j],
            forall|i: int| 0 <= i < r@.len() ==> (#[trigger] r@[i]).0 < x,
            r@.len() == x * (h + 1),
        decreases w + 1 - x,
    {
        let mut y: i64 = 0;
        while y <= h
            invariant
                0 <= x <= w,
                0 <= y <= h + 1,
                w == width as int,
                h == height as int,
                forall|p: Position|
                    #[trigger] r@.contains(p) <==> ((p.0 < x || (p.0 == x && p.1 < y))
                        && in_bounds(p, width, height)),
                forall|i: int, j: int| 0 <= i < j < r@.len() ==> r@[i] != r@[j],
                forall|i: int|
                    0 <= i < r@.len() ==> ((#[trigger] r@[i]).0 < x || (r@[i].0 == x && r@[i].1
                        < y)),
                r@.len() == x * (h + 1) + y,
            decreases h + 1 - y,
        {
            let pos: Position = (x as i32, y as i32);
            let ghost pre = r@;
            r.push(pos);
            proof {
                assert(forall|j: int| 0 <= j < pre.len() ==> r@[j] == #[trigger] pre[j]);
                assert(r@[pre.len() as int] == pos);
                assert forall|p: Position| #[trigger] r@.contains(p) implies (pre.contains(p) || p
                    == pos) by {
                    let k = choose|k: int| 0 <= k < r@.len() && r@[k] == p;
                    if k < pre.len() {
                        assert(pre[k] == p);
                    }
                }
                assert forall|p: Position| pre.contains(p) implies #[trigger] r@.contains(p) by {
                    let k = choose|k: int| 0 <= k < pre.len() && pre[k] == p;
                    assert(r@[k] == p);
                }
                assert(r@.contains(pos));
            }
            y = y + 1;
        }
        proof {
            assert((x + 1) * (h + 1) == x * (h + 1) + (h + 1)) by (nonlinear_arith);
        }
        x = x + 1;
    }
    proof {
        assert((w + 1) * (h + 1) == (width + 1) * (height + 1)) by (nonlinear_arith)
            requires
                w == width as int,
                h == height as int,
        ;
        assert(forall|p: Position| in_bounds(p, width, height) ==> p.0 < x);
    }
    r
}


/// What the mouse rule allows as the recorded move of mouse `i`: the
/// deterministic decision verbatim, or, for a wander, any free neighboring
/// cell (and no move exactly when none is free).
pub open spec fn mouse_move_obeys(sim: Simulation, moves: Seq<Option<Position>>, i: int) -> bool {
    let cur = sim.board.mice@[i].location;
    let w = sim.board.width;
    let h = sim.board.height;
    match mouse_decision(
        sim.board.mice@,
        sim.board.grass@,
        sim.pregnancies@,
        i,
        sim.mice_cfg,
        w,
        h,
    ) {
        MoveDecision::Move(t) => moves[i] == Option::Some(t),
        MoveDecision::Stay => moves[i] is None,
        MoveDecision::Wander => match moves[i] {
            Option::None => forall|p: Position| !mouse_wander_ok(sim.board.mice@, cur, p, w, h),
            Option::Some(p) => mouse_wander_ok(sim.board.mice@, cur, p, w, h),
        },
    }
}

/// What the owl rule allows as the recorded move of owl `k`, judged against
/// the pre-tick mouse position snapshot.
pub open spec fn owl_move_obeys(sim: Simulation, moves: Seq<Option<Position>>, k: int) -> bool {
    let all_mice = sim.board.mice@.map_values(|m: Mouse| m.location);
    let i = sim.board.mice@.len() + k;
    let cur = sim.board.owls@[k].location;
    let w = sim.board.width;
    let h = sim.board.height;
    match owl_decision(sim.board.owls@, k, all_mice, w, h) {
        MoveDecision::Move(t) => moves[i] == Option::Some(t),
        MoveDecision::Stay => moves[i] is None,
        MoveDecision::Wander => match moves[i] {
            Option::None => forall|p: Position| !owl_wander_ok(sim.board.owls@, cur, p, w, h),
            Option::Some(p) => owl_wander_ok(sim.board.owls@, cur, p, w, h),
        },
    }
}

/// Every recorded move obeys its species' rule, mice first, then owls.
pub open spec fn moves_obey_rules(sim: Simulation, moves: Seq<Option<Position>>) -> bool {
    &&& moves.len() == sim.board.mice@.len() + sim.board.owls@.len()
    &&& forall|i: int| 0 <= i < sim.board.mice@.len() ==> #[trigger] mouse_move_obeys(sim, moves, i)
    &&& forall|k: int| 0 <= k < sim.board.owls@.len() ==> #[trigger] owl_move_obeys(sim, moves, k)
}

/// The move-application phase, tying `post` to `pre` and the move list.
pub open spec fn move_phase(pre: Board, moves: Seq<Option<Position>>, post: Board) -> bool {
    let mlen = pre.mice@.len() as int;
    &&& post.width == pre.width
    &&& post.height == pre.height
    &&& post.dead_mice_total == pre.dead_mice_total
    &&& post.dead_mice_starved == pre.dead_mice_starved
    &&& post.dead_mice_eaten == pre.dead_mice_eaten
    &&& post.dead_mice_old_age == pre.dead_mice_old_age
    &&& post.dead_owls_old_age == pre.dead_owls_old_age
    &&& post.mice@.len() == pre.mice@.len()
    &&& post.owls@.len() == pre.owls@.len()
    &&& forall|i: int|
        0 <= i < pre.mice@.len() ==> #[trigger] post.mice@[i] == mouse_after_moves(
            pre.mice@,
            pre.grass@,
            moves.subrange(0, mlen),
            i,
        )
    &&& post.grass@ == grass_after_mouse_moves(pre.grass@, moves.subrange(0, mlen), mlen)
    &&& forall|k: int|
        0 <= k < pre.owls@.len() ==> #[trigger] post.owls@[k] == owl_with_location(
            pre.owls@[k],
            owl_loc_after(pre.owls@, moves.subrange(mlen, moves.len() as int), k),
        )
}

/// The old-age cull: every animal one tick older, those at their species'
/// maximum removed and counted.
pub open spec fn aging_phase(pre: Board, max_mouse_age: u32, max_owl_age: u32, post: Board) -> bool {
    &&& post.width == pre.width
    &&& post.height == pre.height
    &&& post.grass == pre.grass
    &&& post.mice@ == keep_filter(
        pre.mice@.map_values(|m: Mouse| aged_mouse(m)),
        |m: Mouse| m.age < max_mouse_age,
        pre.mice@.len() as int,
    )
    &&& post.owls@ == keep_filter(
        pre.owls@.map_values(|o: Owl| aged_owl(o)),
        |o: Owl| o.age < max_owl_age,
        pre.owls@.len() as int,
    )
    &&& post.dead_mice_old_age == pre.dead_mice_old_age + (pre.mice@.len() - post.mice@.len())
    &&& post.dead_mice_total == pre.dead_mice_total + (pre.mice@.len() - post.mice@.len())
    &&& post.dead_owls_old_age == pre.dead_owls_old_age + (pre.owls@.len() - post.owls@.len())
    &&& post.dead_mice_starved == pre.dead_mice_starved
    &&& post.dead_mice_eaten == pre.dead_mice_eaten
}

/// The birth phase: newborn mice are only ever appended, each with age zero
/// and an empty stomach, one per queued birth at most.
pub open spec fn birth_phase(
    pre: Board,
    births: Seq<String>,
    counter_pre: usize,
    post: Board,
    counter_post: usize,
) -> bool {
    &&& post.width == pre.width
    &&& post.height == pre.height
    &&& post.grass == pre.grass
    &&& post.owls == pre.owls
    &&& post.dead_mice_total == pre.dead_mice_total
    &&& post.dead_mice_starved == pre.dead_mice_starved
    &&& post.dead_mice_eaten == pre.dead_mice_eaten
    &&& post.dead_mice_old_age == pre.dead_mice_old_age
    &&& post.dead_owls_old_age == pre.dead_owls_old_age
    &&& pre.mice@.len() <= post.mice@.len() <= pre.mice@.len() + births.len()
    &&& post.mice@.subrange(0, pre.mice@.len() as int) == pre.mice@
    &&& forall|k: int|
        pre.mice@.len() <= k < post.mice@.len() ==> (#[trigger] post.mice@[k]).age == 0
            && post.mice@[k].ticks_since_last_eaten == 0
    &&& counter_pre <= counter_post <= counter_pre + births.len()
}

/// The predation cull: exactly the mice not sharing a cell with an owl stay,
/// and the counters record each removal once.
pub open spec fn predation_phase(pre: Board, post: Board) -> bool {
    &&& post.width == pre.width
    &&& post.height == pre.height
    &&& post.grass == pre.grass
    &&& post.owls == pre.owls
    &&& post.mice@ == keep_filter(
        pre.mice@,
        |m: Mouse| !any_owl_at(pre.owls@, m.location),
        pre.mice@.len() as int,
    )
    &&& post.dead_mice_eaten == pre.dead_mice_eaten + (pre.mice@.len() - post.mice@.len())
    &&& post.dead_mice_total == pre.dead_mice_total + (pre.mice@.len() - post.mice@.len())
    &&& post.dead_mice_starved == pre.dead_mice_starved
    &&& post.dead_mice_old_age == pre.dead_mice_old_age
    &&& post.dead_owls_old_age == pre.dead_owls_old_age
}

/// The starvation cull: exactly the mice under the threshold stay, and the
/// counters record each removal once.
pub open spec fn starvation_phase(pre: Board, post: Board) -> bool {
    &&& post.width == pre.width
    &&& post.height == pre.height
    &&& post.grass == pre.grass
    &&& post.owls == pre.owls
    &&& post.mice@ == keep_filter(
        pre.mice@,
        |m: Mouse| m.ticks_since_last_eaten < STARVATION_THRESHOLD,
        pre.mice@.len() as int,
    )
    &&& post.dead_mice_starved == pre.dead_mice_starved + (pre.mice@.len() - post.mice@.len())
    &&& post.dead_mice_total == pre.dead_mice_total + (pre.mice@.len() - post.mice@.len())
    &&& post.dead_mice_eaten == pre.dead_mice_eaten
    &&& post.dead_mice_old_age == pre.dead_mice_old_age
    &&& post.dead_owls_old_age == pre.dead_owls_old_age
}

/// The states one tick passes through, kept as evidence that the tick
/// followed the pipeline.
pub struct TickWitness {
    /// The recorded movement decisions, mice first, then owls.
    pub moves: Seq<Option<Position>>,
    /// The board once the moves are applied.
    pub moved: Board,
    /// The board once the old-age cull has run.
    pub aged: Board,
    /// The pregnancy list once breeding detection has run.
    pub bred: Seq<(String, u32)>,
    /// The birth queue produced by the pregnancy progression.
    pub births: Seq<String>,
    /// The board once the queued births have spawned.
    pub born: Board,
    /// The board once the predation cull has run.
    pub hunted: Board,
}

/// The full pipeline of one tick, phase by phase, through the witness's
/// intermediate states.
pub open spec fn tick_steps(pre: Simulation, w: TickWitness, post: Simulation) -> bool {
    &&& moves_obey_rules(pre, w.moves)
    &&& move_phase(pre.board, w.moves, w.moved)
    &&& aging_phase(w.moved, pre.mice_cfg.max_age, pre.owls_cfg.max_age, w.aged)
    &&& w.bred == breeding_result(
        w.aged.mice@,
        pre.pregnancies@,
        pre.mice_cfg.preg_time,
        w.aged.mice@.len() as int,
    )
    &&& post.pregnancies@ == progressed(w.bred, w.bred.len() as int)
    &&& w.births == births_of(w.bred, w.bred.len() as int)
    &&& birth_phase(w.aged, w.births, pre.mouse_id_counter, w.born, post.mouse_id_counter)
    &&& predation_phase(w.born, w.hunted)
    &&& starvation_phase(w.hunted, post.board)
    &&& post.current_tick == pre.current_tick + 1
    &&& post.n_ticks == pre.n_ticks
    &&& post.mice_cfg == pre.mice_cfg
    &&& post.owls_cfg == pre.owls_cfg
}

/// One tick happened between `pre` and `post`: some run of the pipeline,
/// with every movement decision obeying its rule, connects the two.
pub open spec fn tick_relation(pre: Simulation, post: Simulation) -> bool {
    exists|w: TickWitness| #[trigger] tick_steps(pre, w, post)
}

/// The whole per-tick engine and its parameters: the board, the tunables,
/// the pregnancy list, the id counter for newborn mice and the tick counter.
pub struct Simulation {
    pub board: Board,
    pub mice_cfg: MiceConfig,
    pub owls_cfg: OwlsConfig,
    pub n_ticks: u32,
    pub pregnancies: Vec<(String, u32)>,
    pub mouse_id_counter: usize,
    pub rng: rand::rngs::ThreadRng,
    pub current_tick: u32,
}

impl Simulation {
    /// The invariant the engine keeps at every tick boundary: a well-formed
    /// board, no two owls on one cell, at most one pregnancy per id, every
    /// mouse under the starvation threshold, and ages with room to grow.
    pub open spec fn wf(self) -> bool {
        &&& self.board.wf()
        &&& owls_distinct(self.board.owls@)
        &&& pregs_distinct(self.pregnancies@)
        &&& forall|i: int|
            0 <= i < self.board.mice@.len() ==> (#[trigger] self.board.mice@[i]).ticks_since_last_eaten
                < STARVATION_THRESHOLD
        &&& forall|i: int|
            0 <= i < self.board.mice@.len() ==> (#[trigger] self.board.mice@[i]).age < u32::MAX
        &&& forall|i: int|
            0 <= i < self.board.owls@.len() ==> (#[trigger] self.board.owls@[i]).age < u32::MAX
    }

    /// Builds the initial world: every configured owl and mouse placed on a
    /// uniformly random cell, all cells pairwise distinct, and grass seeded
    /// on every cell left unoccupied.
    pub fn new(
        board_cfg: &BoardConfig,
        mice_cfg: &MiceConfig,
        owls_cfg: &OwlsConfig,
        n_ticks: u32,
    ) -> (sim: Simulation)
        requires
            0 <= board_cfg.width,
            0 <= board_cfg.height,
            owls_cfg.count + mice_cfg.count <= usize::MAX,
            owls_cfg.count + mice_cfg.count <= (board_cfg.width + 1) * (board_cfg.height + 1),
        ensures
            sim.wf(),
            sim.board.width == board_cfg.width,
            sim.board.height == board_cfg.height,
            sim.board.mice@.len() == mice_cfg.count,
            sim.board.owls@.len() == owls_cfg.count,
            sim.mice_cfg == *mice_cfg,
            sim.owls_cfg == *owls_cfg,
            sim.n_ticks == n_ticks,
            sim.current_tick == 0,
            sim.pregnancies@.len() == 0,
            sim.mouse_id_counter == mice_cfg.count,
            sim.board.dead_mice_total == 0,
            sim.board.dead_mice_starved == 0,
            sim.board.dead_mice_eaten == 0,
            sim.board.dead_mice_old_age == 0,
            sim.board.dead_owls_old_age == 0,
            forall|i: int|
                0 <= i < sim.board.mice@.len() ==> (#[trigger] sim.board.mice@[i]).age == 0
                    && sim.board.mice@[i].ticks_since_last_eaten == 0,
            forall|i: int|
                0 <= i < sim.board.owls@.len() ==> (#[trigger] sim.board.owls@[i]).age == 0,
            forall|a: int, b: int|
                0 <= a < b < sim.board.mice@.len() ==> (#[trigger] sim.board.mice@[a]).location
                    != (#[trigger] sim.board.mice@[b]).location,
            forall|a: int, b: int|
                0 <= a < sim.board.mice@.len() && 0 <= b < sim.board.owls@.len() ==> (
                #[trigger] sim.board.mice@[a]).location != (#[trigger] sim.board.owls@[b]).location,
            forall|p: Position|
                #[trigger] sim.board.grass@.contains(p) <==> (in_bounds(
                    p,
                    board_cfg.width,
                    board_cfg.height,
                ) && !sim.board.mouse_at(p) && !sim.board.owl_at(p)),
    {
        let mut positions = all_cells(board_cfg.width, board_cfg.height);
        let ghost cells0 = positions@;
        let mut rng = fresh_rng();
        shuffle_cells(&mut rng, &mut positions);
        proof {
            broadcast use vstd::seq_lib::group_to_multiset_ensures;

            cells0.lemma_multiset_has_no_duplicates();
            assert(positions@.to_multiset().len() == positions@.len());
            assert(cells0.to_multiset().len() == cells0.len());
            assert(positions@.len() == cells0.len());
            assert forall|q: Position| positions@.to_multiset().contains(q) implies positions@.to_multiset().count(q) == 1 by {
                assert(cells0.to_multiset().count(q) > 0);
                assert(cells0.contains(q));
            }
            positions@.lemma_multiset_has_no_duplicates_conv();
            assert forall|p: Position| #[trigger] positions@.contains(p) implies in_bounds(
                p,
                board_cfg.width,
                board_cfg.height,
            ) by {
                assert(positions@.to_multiset().count(p) > 0);
                assert(cells0.to_multiset().count(p) > 0);
                assert(cells0.contains(p));
            }
        }
        let mut board = Board::new(board_cfg.width, board_cfg.height);
        let n_owls: usize = owls_cfg.count as usize;
        let n_mice: usize = mice_cfg.count as usize;
        let mut i: usize = 0;
        while i < n_owls
            invariant
                0 <= i <= n_owls,
                n_owls + n_mice <= positions@.len(),
                positions@.no_duplicates(),
                forall|p: Position|
                    #[trigger] positions@.contains(p) ==> in_bounds(
                        p,
                        board_cfg.width,
                        board_cfg.height,
                    ),
                board.width == board_cfg.width,
                board.height == board_cfg.height,
                board.wf(),
                board.mice@.len() == 0,
                board.owls@.len() == i,
                board.grass@.len() == 0,
                board.dead_mice_total == 0,
                board.dead_mice_starved == 0,
                board.dead_mice_eaten == 0,
                board.dead_mice_old_age == 0,
                board.dead_owls_old_age == 0,
                forall|k: int|
                    0 <= k < i ==> (#[trigger] board.owls@[k]).location == positions@[k],
                forall|k: int|
                    0 <= k < i ==> (#[trigger] board.owls@[k]).age == 0,
            decreases n_owls - i,
        {
            let pos = positions[i];
            let sex = if random_flip(&mut rng) {
                Sex::Male
            } else {
                Sex::Female
            };
            let o = Owl::new(owl_id(i + 1), 0, 10, None, None, pos, sex);
            proof {
                assert(positions@.contains(positions@[i as int]));
            }
            board.add_owl(o);
            i = i + 1;
        }
        let mut j: usize = 0;
        while j < n_mice
            invariant
                0 <= j <= n_mice,
                n_owls + n_mice <= usize::MAX,
                n_owls + n_mice <= positions@.len(),
                positions@.no_duplicates(),
                forall|p: Position|
                    #[trigger] positions@.contains(p) ==> in_bounds(
                        p,
                        board_cfg.width,
                        board_cfg.height,
                    ),
                board.width == board_cfg.width,
                board.height == board_cfg.height,
                board.wf(),
                board.mice@.len() == j,
                board.owls@.len() == n_owls,
                board.grass@.len() == 0,
                board.dead_mice_total == 0,
                board.dead_mice_starved == 0,
                board.dead_mice_eaten == 0,
                board.dead_mice_old_age == 0,
                board.dead_owls_old_age == 0,
                forall|k: int|
                    0 <= k < n_owls ==> (#[trigger] board.owls@[k]).location == positions@[k],
                forall|k: int|
                    0 <= k < n_owls ==> (#[trigger] board.owls@[k]).age == 0,
                forall|k: int|
                    0 <= k < j ==> (#[trigger] board.mice@[k]).location == positions@[n_owls + k],
                forall|k: int|
                    0 <= k < j ==> (#[trigger] board.mice@[k]).age == 0
                        && board.mice@[k].ticks_since_last_eaten == 0,
            decreases n_mice - j,
        {
            let pos = positions[n_owls + j];
            let sex = if random_flip(&mut rng) {
                Sex::Male
            } else {
                Sex::Female
            };
            let m = Mouse::new(mouse_id(j + 1), 0, 5, None, None, pos, sex);
            proof {
                assert(positions@.contains(positions@[(n_owls + j) as int]));
            }
            board.add_mouse(m);
            j = j + 1;
        }
        board.init_grass();
        let sim = Simulation {
            board,
            mice_cfg: *mice_cfg,
            owls_cfg: *owls_cfg,
            n_ticks,
            pregnancies: Vec::new(),
            mouse_id_counter: n_mice,
            rng,
            current_tick: 0,
        };
        proof {
            assert(owls_distinct(sim.board.owls@));
            assert(forall|a: int, b: int|
                0 <= a < b < sim.board.mice@.len() ==> (#[trigger] sim.board.mice@[a]).location
                    != (#[trigger] sim.board.mice@[b]).location);
            assert(forall|a: int, b: int|
                0 <= a < sim.board.mice@.len() && 0 <= b < sim.board.owls@.len() ==> (
                #[trigger] sim.board.mice@[a]).location != (
                #[trigger] sim.board.owls@[b]).location);
        }
        sim
    }

    /// Executes one full simulation tick: position snapshot, all mouse moves
    /// then all owl moves (each against the pre-move state), move
    /// application, the old-age cull, breeding detection, pregnancy
    /// progression, births, the predation cull and the starvation cull.
    ///
    /// The arithmetic preconditions keep the death counters and the id
    /// counter from overflowing; they hold for any run that fits in memory.
    pub fn advance_tick(&mut self)
        requires
            old(self).wf(),
            old(self).current_tick < u32::MAX,
            old(self).board.dead_mice_total + 2 * old(self).board.mice@.len() + old(
                self,
            ).pregnancies@.len() <= usize::MAX,
            old(self).board.dead_mice_starved + 2 * old(self).board.mice@.len() + old(
                self,
            ).pregnancies@.len() <= usize::MAX,
            old(self).board.dead_mice_eaten + 2 * old(self).board.mice@.len() + old(
                self,
            ).pregnancies@.len() <= usize::MAX,
            old(self).board.dead_mice_old_age + 2 * old(self).board.mice@.len() + old(
                self,
            ).pregnancies@.len() <= usize::MAX,
            old(self).board.dead_owls_old_age + old(self).board.owls@.len() <= usize::MAX,
            old(self).mouse_id_counter + old(self).pregnancies@.len() + old(
                self,
            ).board.mice@.len() <= usize::MAX,
        ensures
            final(self).wf(),
            final(self).current_tick == old(self).current_tick + 1,
            final(self).n_ticks == old(self).n_ticks,
            final(self).mice_cfg == old(self).mice_cfg,
            final(self).owls_cfg == old(self).owls_cfg,
            final(self).board.width == old(self).board.width,
            final(self).board.height == old(self).board.height,
            final(self).board.dead_mice_total >= old(self).board.dead_mice_total,
            final(self).board.dead_mice_starved >= old(self).board.dead_mice_starved,
            final(self).board.dead_mice_eaten >= old(self).board.dead_mice_eaten,
            final(self).board.dead_mice_old_age >= old(self).board.dead_mice_old_age,
            final(self).board.dead_owls_old_age >= old(self).board.dead_owls_old_age,
            tick_relation(*old(self), *final(self)),
    {
        let ghost sim0 = *old(self);
        let mouse_snapshot = self.board.mouse_positions();
        let mlen: usize = self.board.mice.len();
        let olen: usize = self.board.owls.len();
        let mut moves: Vec<Option<Position>> = Vec::new();
        let mut i: usize = 0;
        while i < mlen
            invariant
                0 <= i <= mlen,
                self.board == sim0.board,
                self.pregnancies == sim0.pregnancies,
                self.mice_cfg == sim0.mice_cfg,
                self.owls_cfg == sim0.owls_cfg,
                self.n_ticks == sim0.n_ticks,
                self.mouse_id_counter == sim0.mouse_id_counter,
                self.current_tick == sim0.current_tick,
                sim0.wf(),
                mlen == self.board.mice@.len(),
                olen == self.board.owls@.len(),
                moves@.len() == i,
                forall|k: int|
                    0 <= k < moves@.len() && (#[trigger] moves@[k]) is Some ==> in_bounds(
                        moves@[k]->Some_0,
                        self.board.width,
                        self.board.height,
                    ),
                forall|q: int| 0 <= q < i ==> #[trigger] mouse_move_obeys(sim0, moves@, q),
            decreases mlen - i,
        {
            let ghost pre_moves = moves@;
            let mv = next_mouse_move(
                i,
                &self.board,
                &self.mice_cfg,
                &self.pregnancies,
                &mut self.rng,
            );
            moves.push(mv);
            proof {
                assert forall|q: int| 0 <= q < i + 1 implies #[trigger] mouse_move_obeys(
                    sim0,
                    moves@,
                    q,
                ) by {
                    if q < i {
                        assert(mouse_move_obeys(sim0, pre_moves, q));
                        assert(moves@[q] == pre_moves[q]);
                    } else {
                        assert(moves@[q] == mv);
                    }
                }
            }
            i = i + 1;
        }
        proof {
            assert(mouse_snapshot@ =~= sim0.board.mice@.map_values(|m: Mouse| m.location));
        }
        let mut k: usize = 0;
        while k < olen
            invariant
                0 <= k <= olen,
                self.board == sim0.board,
                self.pregnancies == sim0.pregnancies,
                self.mice_cfg == sim0.mice_cfg,
                self.owls_cfg == sim0.owls_cfg,
                self.n_ticks == sim0.n_ticks,
                self.mouse_id_counter == sim0.mouse_id_counter,
                self.current_tick == sim0.current_tick,
                sim0.wf(),
                mlen == self.board.mice@.len(),
                olen == self.board.owls@.len(),
                moves@.len() == mlen + k,
                forall|q: int|
                    0 <= q < moves@.len() && (#[trigger] moves@[q]) is Some ==> in_bounds(
                        moves@[q]->Some_0,
                        self.board.width,
                        self.board.height,
                    ),
                mouse_snapshot@ == sim0.board.mice@.map_values(|m: Mouse| m.location),
                forall|q: int| 0 <= q < mlen ==> #[trigger] mouse_move_obeys(sim0, moves@, q),
                forall|q: int| 0 <= q < k ==> #[trigger] owl_move_obeys(sim0, moves@, q),
            decreases olen - k,
        {
            let ghost pre_moves = moves@;
            let mv = next_owl_move(k, &self.board, &mouse_snapshot, &mut self.rng);
            moves.push(mv);
            proof {
                assert forall|q: int| 0 <= q < mlen implies #[trigger] mouse_move_obeys(
                    sim0,
                    moves@,
                    q,
                ) by {
                    assert(mouse_move_obeys(sim0, pre_moves, q));
                    assert(moves@[q] == pre_moves[q]);
                }
                assert forall|q: int| 0 <= q < k + 1 implies #[trigger] owl_move_obeys(
                    sim0,
                    moves@,
                    q,
                ) by {
                    if q < k {
                        assert(owl_move_obeys(sim0, pre_moves, q));
                        assert(moves@[(mlen + q) as int] == pre_moves[(mlen + q) as int]);
                    } else {
                        assert(moves@[(mlen + q) as int] == mv);
                    }
                }
            }
            k = k + 1;
        }

        proof {
            assert(forall|q: int|
                0 <= q < sim0.board.mice@.len() ==> (#[trigger] sim0.board.mice@[q]).ticks_since_last_eaten
                    < u32::MAX);
        }
        self.board.apply_moves(&moves);
        let ghost board1 = self.board;
        let ghost mmoves = sim0.board.mice@.len() as int;
        let ghost omoves = moves@.subrange(
            sim0.board.mice@.len() as int,
            moves@.len() as int,
        );
        proof {
            // The move phase keeps owls apart and changes no age.
            lemma_owl_moves_preserve_distinct(sim0.board.owls@, omoves);
            assert forall|a: int, b: int|
                0 <= a < b < board1.owls@.len() implies (#[trigger] board1.owls@[a]).location != (
            #[trigger] board1.owls@[b]).location by {
                assert(board1.owls@[a] == owl_with_location(
                    sim0.board.owls@[a],
                    owl_loc_after(sim0.board.owls@, omoves, a),
                ));
                assert(board1.owls@[b] == owl_with_location(
                    sim0.board.owls@[b],
                    owl_loc_after(sim0.board.owls@, omoves, b),
                ));
            }
            assert forall|q: int| 0 <= q < board1.mice@.len() implies (#[trigger] board1.mice@[q]).age
                < u32::MAX && board1.mice@[q].ticks_since_last_eaten <= STARVATION_THRESHOLD by {
                assert(board1.mice@[q] == mouse_after_moves(
                    sim0.board.mice@,
                    sim0.board.grass@,
                    moves@.subrange(0, sim0.board.mice@.len() as int),
                    q,
                ));
            }
            assert forall|q: int| 0 <= q < board1.owls@.len() implies (#[trigger] board1.owls@[q]).age
                < u32::MAX by {
                assert(board1.owls@[q] == owl_with_location(
                    sim0.board.owls@[q],
                    owl_loc_after(sim0.board.owls@, omoves, q),
                ));
            }
        }

        self.board.age_and_remove_old(self.mice_cfg.max_age, self.owls_cfg.max_age);
        let ghost board2 = self.board;
        proof {
            crate::board::lemma_keep_filter_props(
                board1.mice@.map_values(|m: Mouse| crate::board::aged_mouse(m)),
                |m: Mouse| m.age < sim0.mice_cfg.max_age,
                board1.mice@.len() as int,
            );
            crate::board::lemma_keep_filter_props(
                board1.owls@.map_values(|o: Owl| crate::board::aged_owl(o)),
                |o: Owl| o.age < sim0.owls_cfg.max_age,
                board1.owls@.len() as int,
            );
            assert(board2.mice@.len() <= board1.mice@.len());
            assert(board2.owls@.len() <= board1.owls@.len());
            assert forall|q: int| 0 <= q < board2.mice@.len() implies (#[trigger] board2.mice@[q]).age
                < u32::MAX && board2.mice@[q].ticks_since_last_eaten <= STARVATION_THRESHOLD by {
                let aged = board1.mice@.map_values(|m: Mouse| crate::board::aged_mouse(m));
                let j = choose|j: int| 0 <= j < board1.mice@.len() && #[trigger] board2.mice@[q]
                    == aged[j];
                assert(aged[j] == crate::board::aged_mouse(board1.mice@[j]));
            }
            assert forall|q: int| 0 <= q < board2.owls@.len() implies (#[trigger] board2.owls@[q]).age
                < u32::MAX by {
                let aged = board1.owls@.map_values(|o: Owl| crate::board::aged_owl(o));
                let j = choose|j: int| 0 <= j < board1.owls@.len() && #[trigger] board2.owls@[q]
                    == aged[j];
                assert(aged[j] == crate::board::aged_owl(board1.owls@[j]));
            }
        }

        detect_breeding(&self.board.mice, &mut self.pregnancies, self.mice_cfg.preg_time);
        let ghost pregs_bred = self.pregnancies@;
        let births = progress_pregnancies(&mut self.pregnancies);

        spawn_births(&mut self.board, &births, &mut self.mouse_id_counter, &mut self.rng);
        let ghost board3 = self.board;
        proof {
            assert forall|q: int| 0 <= q < board3.mice@.len() implies (#[trigger] board3.mice@[q]).age
                < u32::MAX && board3.mice@[q].ticks_since_last_eaten <= STARVATION_THRESHOLD by {
                if q < board2.mice@.len() {
                    assert(board3.mice@.subrange(0, board2.mice@.len() as int) == board2.mice@);
                    assert(board3.mice@[q] == board2.mice@[q]);
                }
            }
        }

        self.board.remove_caught_mice();
        let ghost board4 = self.board;
        proof {
            crate::board::lemma_keep_filter_props(
                board3.mice@,
                |m: Mouse| !crate::board::any_owl_at(board3.owls@, m.location),
                board3.mice@.len() as int,
            );
            assert forall|q: int| 0 <= q < board4.mice@.len() implies (#[trigger] board4.mice@[q]).age
                < u32::MAX && board4.mice@[q].ticks_since_last_eaten <= STARVATION_THRESHOLD by {
                let j = choose|j: int| 0 <= j < board3.mice@.len() && #[trigger] board4.mice@[q]
                    == board3.mice@[j];
            }
        }

        self.board.remove_starved_mice();
        let ghost board5 = self.board;
        proof {
            crate::board::lemma_keep_filter_props(
                board4.mice@,
                |m: Mouse| m.ticks_since_last_eaten < STARVATION_THRESHOLD,
                board4.mice@.len() as int,
            );
            assert forall|q: int| 0 <= q < board5.mice@.len() implies (#[trigger] board5.mice@[q]).age
                < u32::MAX by {
                let j = choose|j: int| 0 <= j < board4.mice@.len() && #[trigger] board5.mice@[q]
                    == board4.mice@[j];
            }
        }

        self.current_tick = self.current_tick + 1;
        proof {
            let w = TickWitness {
                moves: moves@,
                moved: board1,
                aged: board2,
                bred: pregs_bred,
                births: births@,
                born: board3,
                hunted: board4,
            };
            assert(moves_obey_rules(sim0, moves@));
            assert(move_phase(sim0.board, moves@, board1));
            assert(aging_phase(board1, sim0.mice_cfg.max_age, sim0.owls_cfg.max_age, board2));
            assert(birth_phase(board2, births@, sim0.mouse_id_counter, board3, self.mouse_id_counter));
            assert(predation_phase(board3, board4));
            assert(starvation_phase(board4, self.board));
            assert(tick_steps(sim0, w, *self));
            assert(tick_relation(sim0, *self));
        }
    }

    /// Advances exactly one tick, resuming from the current state: the
    /// interactive single-step control.
    pub fn step_forward(&mut self)
        requires
            old(self).wf(),
            old(self).current_tick < u32::MAX,
            old(self).board.dead_mice_total + 2 * old(self).board.mice@.len() + old(
                self,
            ).pregnancies@.len() <= usize::MAX,
            old(self).board.dead_mice_starved + 2 * old(self).board.mice@.len() + old(
                self,
            ).pregnancies@.len() <= usize::MAX,
            old(self).board.dead_mice_eaten + 2 * old(self).board.mice@.len() + old(
                self,
            ).pregnancies@.len() <= usize::MAX,
            old(self).board.dead_mice_old_age + 2 * old(self).board.mice@.len() + old(
                self,
            ).pregnancies@.len() <= usize::MAX,
            old(self).board.dead_owls_old_age + old(self).board.owls@.len() <= usize::MAX,
            old(self).mouse_id_counter + old(self).pregnancies@.len() + old(
                self,
            ).board.mice@.len() <= usize::MAX,
        ensures
            final(self).wf(),
            final(self).current_tick == old(self).current_tick + 1,
            final(self).n_ticks == old(self).n_ticks,
            final(self).mice_cfg == old(self).mice_cfg,
            final(self).owls_cfg == old(self).owls_cfg,
            tick_relation(*old(self), *final(self)),
    {
        self.advance_tick();
    }

    /// Reverse stepping is exposed by the interactive control surface but
    /// records nothing and has no effect.
    pub fn step_backward(&mut self)
        ensures
            *final(self) == *old(self),
    {
    }

    /// Whether the batch loop runs another tick: the tick budget is not
    /// exhausted and the mice are not extinct.
    pub fn should_continue(&self) -> (r: bool)
        ensures
            r == (self.current_tick < self.n_ticks && self.board.mice@.len() > 0),
    {
        self.current_tick < self.n_ticks && self.board.mice.len() > 0
    }

    /// How many ticks have been executed.
    pub fn current_tick(&self) -> (r: u32)
        ensures
            r == self.current_tick,
    {
        self.current_tick
    }
}

/// Spawns the queued births, in queue order; each one scans the mother's
/// orthogonal neighbors and silently fails when none is free.
fn spawn_births(
    board: &mut Board,
    births: &Vec<String>,
    counter: &mut usize,
    rng: &mut rand::rngs::ThreadRng,
)
    requires
        old(board).wf(),
        *old(counter) + births@.len() <= usize::MAX,
    ensures
        final(board).wf(),
        final(board).owls == old(board).owls,
        final(board).grass == old(board).grass,
        final(board).width == old(board).width,
        final(board).height == old(board).height,
        final(board).dead_mice_total == old(board).dead_mice_total,
        final(board).dead_mice_starved == old(board).dead_mice_starved,
        final(board).dead_mice_eaten == old(board).dead_mice_eaten,
        final(board).dead_mice_old_age == old(board).dead_mice_old_age,
        final(board).dead_owls_old_age == old(board).dead_owls_old_age,
        old(board).mice@.len() <= final(board).mice@.len() <= old(board).mice@.len()
            + births@.len(),
        final(board).mice@.subrange(0, old(board).mice@.len() as int) == old(board).mice@,
        forall|k: int|
            old(board).mice@.len() <= k < final(board).mice@.len()
                ==> (#[trigger] final(board).mice@[k]).age == 0
                && final(board).mice@[k].ticks_since_last_eaten == 0,
        *old(counter) <= *final(counter) <= *old(counter) + births@.len(),
{
    let mut b: usize = 0;
    while b < births.len()
        invariant
            0 <= b <= births@.len(),
            board.wf(),
            board.owls == old(board).owls,
            board.grass == old(board).grass,
            board.width == old(board).width,
            board.height == old(board).height,
            board.dead_mice_total == old(board).dead_mice_total,
            board.dead_mice_starved == old(board).dead_mice_starved,
            board.dead_mice_eaten == old(board).dead_mice_eaten,
            board.dead_mice_old_age == old(board).dead_mice_old_age,
            board.dead_owls_old_age == old(board).dead_owls_old_age,
            old(board).mice@.len() <= board.mice@.len() <= old(board).mice@.len() + b,
            board.mice@.subrange(0, old(board).mice@.len() as int) == old(board).mice@,
            forall|k: int|
                old(board).mice@.len() <= k < board.mice@.len() ==> (#[trigger] board.mice@[k]).age
                    == 0 && board.mice@[k].ticks_since_last_eaten == 0,
            *old(counter) <= *counter <= *old(counter) + b,
            *counter + (births@.len() - b) <= usize::MAX,
        decreases births@.len() - b,
    {
        let ghost pre_mice = board.mice@;
        let ghost pre_counter = *counter;
        let added = try_birth(board, &births[b], counter, rng);
        proof {
            if added {
                assert(board.mice@.subrange(0, old(board).mice@.len() as int) =~= pre_mice.subrange(
                    0,
                    old(board).mice@.len() as int,
                ));
                assert forall|k: int|
                    old(board).mice@.len() <= k < board.mice@.len() implies (#[trigger] board.mice@[k]).age
                        == 0 && board.mice@[k].ticks_since_last_eaten == 0 by {
                    if k < pre_mice.len() {
                        assert(board.mice@.subrange(0, pre_mice.len() as int) == pre_mice);
                        assert(board.mice@[k] == pre_mice[k]);
                    } else {
                        assert(board.mice@[k] == board.mice@.last());
                    }
                }
            }
        }
        b = b + 1;
    }
}

} // verus!
