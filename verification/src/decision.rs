use vstd::prelude::*;

use crate::animal::{Mouse, Owl, Sex};
use crate::board::{any_mouse_at, any_owl_at, Board};
use crate::config::MiceConfig;
use crate::grid::{
    adjacent8, contains_cell, in_bounds, manhattan, manhattan_dist, same_cell, step_toward,
    step_toward_cell, Position,
};
use crate::rng::random_index;

verus! {

/// Outcome of the deterministic part of a movement rule.
pub enum MoveDecision {
    /// Step to this cell.
    Move(Position),
    /// Produce no move this tick.
    Stay,
    /// Fall back to a uniformly random free neighboring cell.
    Wander,
}

/// Whether `id` is carried by some pregnancy record.
pub open spec fn is_pregnant_id(pregs: Seq<(String, u32)>, id: Seq<char>) -> bool {
    exists|i: int| 0 <= i < pregs.len() && (#[trigger] pregs[i]).0@ == id
}

/// The first element of `cands` at minimal Manhattan distance from `cur`:
/// iteration order breaks ties.
pub open spec fn first_nearest_in(cands: Seq<Position>, cur: Position) -> Position
    recommends
        cands.len() > 0,
    decreases cands.len(),
{
    if cands.len() <= 1 {
        cands[0]
    } else {
        let best_rest = first_nearest_in(cands.drop_first(), cur);
        if manhattan(cands[0], cur) <= manhattan(best_rest, cur) {
            cands[0]
        } else {
            best_rest
        }
    }
}

/// The grass cells within `vision` of `cur`, among the first `n` entries of
/// `grass`, kept in grass order.
pub open spec fn visible_grass(grass: Seq<Position>, cur: Position, vision: int, n: int) -> Seq<
    Position,
>
    decreases n,
{
    if n <= 0 {
        Seq::empty()
    } else {
        let pre = visible_grass(grass, cur, vision, n - 1);
        if manhattan(grass[n - 1], cur) <= vision {
            pre.push(grass[n - 1])
        } else {
            pre
        }
    }
}

/// The locations, in collection order among the first `n` mice, of the
/// eligible mates of mouse `idx`: another mouse, female, not pregnant, and
/// within `vision`.
pub open spec fn mate_candidates(
    mice: Seq<Mouse>,
    pregs: Seq<(String, u32)>,
    idx: int,
    vision: int,
    n: int,
) -> Seq<Position>
    decreases n,
{
    if n <= 0 {
        Seq::empty()
    } else {
        let pre = mate_candidates(mice, pregs, idx, vision, n - 1);
        let m = mice[n - 1];
        if n - 1 != idx && m.sex == Sex::Female && !is_pregnant_id(pregs, m.id@) && manhattan(
            m.location,
            mice[idx].location,
        ) <= vision {
            pre.push(m.location)
        } else {
            pre
        }
    }
}

/// Whether a mouse other than `idx` stands on `p`.
pub open spec fn other_mouse_at(mice: Seq<Mouse>, idx: int, p: Position) -> bool {
    exists|j: int| 0 <= j < mice.len() && j != idx && (#[trigger] mice[j]).location == p
}

/// Whether an owl other than `idx` stands on `p`.
pub open spec fn other_owl_at(owls: Seq<Owl>, idx: int, p: Position) -> bool {
    exists|j: int| 0 <= j < owls.len() && j != idx && (#[trigger] owls[j]).location == p
}

/// One step of mouse `idx` toward `target`, blocked (no move) when another
/// mouse already stands on the stepped-to cell.
pub open spec fn seek_step(mice: Seq<Mouse>, idx: int, target: Position, w: i32, h: i32) -> MoveDecision {
    let cur = mice[idx].location;
    let next = step_toward(cur, target, w, h);
    if other_mouse_at(mice, idx, next) {
        MoveDecision::Stay
    } else {
        MoveDecision::Move(next)
    }
}

/// Grass seeking: one step toward the nearest visible grass cell; no move
/// when already standing on it or when the step is blocked; `None` when no
/// grass is in sight (the caller decides between staying and wandering).
pub open spec fn grass_decision(
    grass: Seq<Position>,
    mice: Seq<Mouse>,
    idx: int,
    vision: int,
    w: i32,
    h: i32,
) -> Option<MoveDecision> {
    let cur = mice[idx].location;
    let cands = visible_grass(grass, cur, vision, grass.len() as int);
    if cands.len() == 0 {
        Option::None
    } else {
        let t = first_nearest_in(cands, cur);
        if manhattan(t, cur) == 0 {
            Option::Some(MoveDecision::Stay)
        } else {
            Option::Some(seek_step(mice, idx, t, w, h))
        }
    }
}

/// The deterministic part of the mouse rule, in strict precedence order:
/// hunger override, mate seeking (males only; an adjacent mate reserves the
/// tick for breeding), grass seeking, and last the random wander.
pub open spec fn mouse_decision(
    mice: Seq<Mouse>,
    grass: Seq<Position>,
    pregs: Seq<(String, u32)>,
    idx: int,
    cfg: MiceConfig,
    w: i32,
    h: i32,
) -> MoveDecision {
    let m = mice[idx];
    let cur = m.location;
    if m.ticks_since_last_eaten > cfg.hunger_priority {
        match grass_decision(grass, mice, idx, cfg.vision as int, w, h) {
            Option::Some(d) => d,
            Option::None => MoveDecision::Stay,
        }
    } else {
        let mates = if m.sex == Sex::Male {
            mate_candidates(mice, pregs, idx, cfg.vision as int, mice.len() as int)
        } else {
            Seq::empty()
        };
        if mates.len() > 0 {
            let t = first_nearest_in(mates, cur);
            if manhattan(t, cur) == 1 {
                MoveDecision::Stay
            } else {
                seek_step(mice, idx, t, w, h)
            }
        } else {
            match grass_decision(grass, mice, idx, cfg.vision as int, w, h) {
                Option::Some(d) => d,
                Option::None => MoveDecision::Wander,
            }
        }
    }
}

/// A valid wander target for a mouse: an in-bounds neighboring cell with no
/// mouse on it.
pub open spec fn mouse_wander_ok(mice: Seq<Mouse>, cur: Position, p: Position, w: i32, h: i32) -> bool {
    adjacent8(cur, p) && in_bounds(p, w, h) && !any_mouse_at(mice, p)
}

/// A valid wander target for an owl: an in-bounds neighboring cell with no
/// owl on it.
pub open spec fn owl_wander_ok(owls: Seq<Owl>, cur: Position, p: Position, w: i32, h: i32) -> bool {
    adjacent8(cur, p) && in_bounds(p, w, h) && !any_owl_at(owls, p)
}

/// The deterministic part of the owl rule: one step toward the Manhattan-
/// nearest mouse of the snapshot (ties by snapshot order), falling back to a
/// random neighbor when another owl's pre-tick position blocks the step; no
/// mice, no move.
pub open spec fn owl_decision(
    owls: Seq<Owl>,
    idx: int,
    all_mice: Seq<Position>,
    w: i32,
    h: i32,
) -> MoveDecision {
    if all_mice.len() == 0 {
        MoveDecision::Stay
    } else {
        let cur = owls[idx].location;
        let t = first_nearest_in(all_mice, cur);
        let next = step_toward(cur, t, w, h);
        if other_owl_at(owls, idx, next) {
            MoveDecision::Wander
        } else {
            MoveDecision::Move(next)
        }
    }
}

/// Whether the offset cell exists on the board.
pub open spec fn offset_ok(cur: Position, dx: int, dy: int, w: i32, h: i32) -> bool {
    0 <= cur.0 + dx <= w && 0 <= cur.1 + dy <= h
}

/// The cell one offset away from `cur` (meaningful only when `offset_ok`).
pub open spec fn offset_cell(cur: Position, dx: int, dy: int) -> Position {
    ((cur.0 + dx) as i32, (cur.1 + dy) as i32)
}

/// A free in-bounds neighbor of `cur`, where "free" is judged against the
/// position list `occupied`.
pub open spec fn wander_cell_ok(
    occupied: Seq<Position>,
    cur: Position,
    p: Position,
    w: i32,
    h: i32,
) -> bool {
    adjacent8(cur, p) && in_bounds(p, w, h) && !occupied.contains(p)
}

/// Whether some pregnancy record carries `id`.
pub fn is_pregnant(pregs: &Vec<(String, u32)>, id: &String) -> (r: bool)
    ensures
        r == is_pregnant_id(pregs@, id@),
{
    let mut i: usize = 0;
    while i < pregs.len()
        invariant
            0 <= i <= pregs@.len(),
            forall|j: int| 0 <= j < i ==> (#[trigger] pregs@[j]).0@ != id@,
        decreases pregs@.len() - i,
    {
        if pregs[i].0.eq(id) {
            return true;
        }
        i = i + 1;
    }
    false
}

/// The first entry of `cands` at minimal Manhattan distance from `cur`.
pub(crate) fn nearest_of(cands: &Vec<Position>, cur: Position) -> (r: Position)
    requires
        cands@.len() > 0,
    ensures
        r == first_nearest_in(cands@, cur),
{
    let mut i: usize = cands.len() - 1;
    let mut best: Position = cands[i];
    proof {
        let sub = cands@.subrange(i as int, cands@.len() as int);
        assert(sub.len() == 1);
        assert(sub[0] == cands@[i as int]);
    }
    while i > 0
        invariant
            0 <= i < cands@.len(),
            best == first_nearest_in(cands@.subrange(i as int, cands@.len() as int), cur),
        decreases i,
    {
        i = i - 1;
        let di = manhattan_dist(cands[i], cur);
        let db = manhattan_dist(best, cur);
        proof {
            let sub = cands@.subrange(i as int, cands@.len() as int);
            assert(sub.drop_first() =~= cands@.subrange(i as int + 1, cands@.len() as int));
            assert(sub[0] == cands@[i as int]);
            assert(sub.len() >= 2 ==> first_nearest_in(sub, cur) == (if manhattan(sub[0], cur)
                <= manhattan(first_nearest_in(sub.drop_first(), cur), cur) {
                sub[0]
            } else {
                first_nearest_in(sub.drop_first(), cur)
            }));
        }
        if di <= db {
            best = (cands[i].0, cands[i].1);
        }
    }
    proof {
        assert(cands@.subrange(0, cands@.len() as int) =~= cands@);
    }
    best
}

/// The grass cells within vision of `cur`, in grass order.
fn visible_grass_vec(grass: &Vec<Position>, cur: Position, vision: u32) -> (r: Vec<Position>)
    ensures
        r@ == visible_grass(grass@, cur, vision as int, grass@.len() as int),
{
    let mut r: Vec<Position> = Vec::new();
    let mut i: usize = 0;
    while i < grass.len()
        invariant
            0 <= i <= grass@.len(),
            r@ == visible_grass(grass@, cur, vision as int, i as int),
        decreases grass@.len() - i,
    {
        let d = manhattan_dist(grass[i], cur);
        if d <= vision as i64 {
            r.push((grass[i].0, grass[i].1));
        }
        i = i + 1;
    }
    r
}

/// The eligible mate locations of mouse `idx`, in collection order.
fn mate_candidates_vec(
    mice: &Vec<Mouse>,
    pregs: &Vec<(String, u32)>,
    idx: usize,
    vision: u32,
) -> (r: Vec<Position>)
    requires
        idx < mice@.len(),
    ensures
        r@ == mate_candidates(mice@, pregs@, idx as int, vision as int, mice@.len() as int),
{
    let cur = mice[idx].location;
    let mut r: Vec<Position> = Vec::new();
    let mut j: usize = 0;
    while j < mice.len()
        invariant
            0 <= j <= mice@.len(),
            idx < mice@.len(),
            cur == mice@[idx as int].location,
            r@ == mate_candidates(mice@, pregs@, idx as int, vision as int, j as int),
        decreases mice@.len() - j,
    {
        if j != idx && mice[j].sex == Sex::Female {
            let preg = is_pregnant(pregs, &mice[j].id);
            if !preg {
                let d = manhattan_dist(mice[j].location, cur);
                if d <= vision as i64 {
                    r.push(mice[j].location);
                }
            }
        }
        j = j + 1;
    }
    r
}

/// Whether a mouse other than `idx` stands on `p`.
fn other_mouse_on(mice: &Vec<Mouse>, idx: usize, p: Position) -> (r: bool)
    ensures
        r == other_mouse_at(mice@, idx as int, p),
{
    let mut j: usize = 0;
    while j < mice.len()
        invariant
            0 <= j <= mice@.len(),
            forall|k: int|
                0 <= k < j && k != idx ==> (#[trigger] mice@[k]).location != p,
        decreases mice@.len() - j,
    {
        if j != idx && same_cell(mice[j].location, p) {
            return true;
        }
        j = j + 1;
    }
    false
}

/// Whether an owl other than `idx` stands on `p`.
fn other_owl_on(owls: &Vec<Owl>, idx: usize, p: Position) -> (r: bool)
    ensures
        r == other_owl_at(owls@, idx as int, p),
{
    let mut j: usize = 0;
    while j < owls.len()
        invariant
            0 <= j <= owls@.len(),
            forall|k: int|
                0 <= k < j && k != idx ==> (#[trigger] owls@[k]).location != p,
        decreases owls@.len() - j,
    {
        if j != idx && same_cell(owls[j].location, p) {
            return true;
        }
        j = j + 1;
    }
    false
}

/// Appends the offset cell to the candidate list when it is on the board and
/// free of occupants.
fn consider_wander_cell(
    cands: &mut Vec<Position>,
    occupied: &Vec<Position>,
    cur: Position,
    dx: i32,
    dy: i32,
    w: i32,
    h: i32,
)
    requires
        -1 <= dx <= 1,
        -1 <= dy <= 1,
        !(dx == 0 && dy == 0),
        0 <= w,
        0 <= h,
    ensures
        forall|q: Position|
            #[trigger] final(cands)@.contains(q) <==> (old(cands)@.contains(q) || (offset_ok(
                cur,
                dx as int,
                dy as int,
                w,
                h,
            ) && !occupied@.contains(offset_cell(cur, dx as int, dy as int)) && q == offset_cell(
                cur,
                dx as int,
                dy as int,
            ))),
{
    let tx: i64 = cur.0 as i64 + dx as i64;
    let ty: i64 = cur.1 as i64 + dy as i64;
    if 0 <= tx && tx <= w as i64 && 0 <= ty && ty <= h as i64 {
        let p: Position = (tx as i32, ty as i32);
        if !contains_cell(occupied, p) {
            let ghost old_cands = cands@;
            cands.push(p);
            proof {
                assert(forall|j: int|
                    0 <= j < old_cands.len() ==> cands@[j] == #[trigger] old_cands[j]);
                assert(cands@[old_cands.len() as int] == p);
                assert forall|q: Position| #[trigger] cands@.contains(q) implies (
                old_cands.contains(q) || q == p) by {
                    let k = choose|k: int| 0 <= k < cands@.len() && cands@[k] == q;
                    if k < old_cands.len() {
                        assert(old_cands[k] == q);
                    }
                }
            }
        }
    }
}

/// Every in-bounds free neighbor of `cur`, judged against `occupied`.
fn wander_candidates(occupied: &Vec<Position>, cur: Position, w: i32, h: i32) -> (cands: Vec<
    Position,
>)
    requires
        0 <= w,
        0 <= h,
    ensures
        forall|p: Position|
            #[trigger] cands@.contains(p) <==> wander_cell_ok(occupied@, cur, p, w, h),
{
    let mut cands: Vec<Position> = Vec::new();
    consider_wander_cell(&mut cands, occupied, cur, -1, 0, w, h);
    consider_wander_cell(&mut cands, occupied, cur, 1, 0, w, h);
    consider_wander_cell(&mut cands, occupied, cur, 0, -1, w, h);
    consider_wander_cell(&mut cands, occupied, cur, 0, 1, w, h);
    consider_wander_cell(&mut cands, occupied, cur, -1, -1, w, h);
    consider_wander_cell(&mut cands, occupied, cur, -1, 1, w, h);
    consider_wander_cell(&mut cands, occupied, cur, 1, -1, w, h);
    consider_wander_cell(&mut cands, occupied, cur, 1, 1, w, h);
    proof {
        assert forall|p: Position| #[trigger] cands@.contains(p) implies wander_cell_ok(
            occupied@,
            cur,
            p,
            w,
            h,
        ) by {}
        assert forall|p: Position| wander_cell_ok(occupied@, cur, p, w, h)
            implies #[trigger] cands@.contains(p) by {
            let dx = p.0 - cur.0;
            let dy = p.1 - cur.1;
            assert(-1 <= dx <= 1 && -1 <= dy <= 1 && !(dx == 0 && dy == 0));
            assert(p == offset_cell(cur, dx, dy));
            assert(offset_ok(cur, dx, dy, w, h));
        }
    }
    cands
}

/// Bridges a copied position list back to the mice it was taken from.
proof fn lemma_positions_cover_mice(mice: Seq<Mouse>, occ: Seq<Position>)
    requires
        occ.len() == mice.len(),
        forall|i: int| 0 <= i < occ.len() ==> occ[i] == (#[trigger] mice[i]).location,
    ensures
        forall|p: Position| #[trigger] occ.contains(p) <==> any_mouse_at(mice, p),
{
    assert forall|p: Position| #[trigger] occ.contains(p) implies any_mouse_at(mice, p) by {
        let i = choose|i: int| 0 <= i < occ.len() && occ[i] == p;
        assert(mice[i].location == p);
    }
    assert forall|p: Position| any_mouse_at(mice, p) implies #[trigger] occ.contains(p) by {
        let i = choose|i: int| 0 <= i < mice.len() && (#[trigger] mice[i]).location == p;
        assert(occ[i] == p);
    }
}

/// Bridges a copied position list back to the owls it was taken from.
proof fn lemma_positions_cover_owls(owls: Seq<Owl>, occ: Seq<Position>)
    requires
        occ.len() == owls.len(),
        forall|i: int| 0 <= i < occ.len() ==> occ[i] == (#[trigger] owls[i]).location,
    ensures
        forall|p: Position| #[trigger] occ.contains(p) <==> any_owl_at(owls, p),
{
    assert forall|p: Position| #[trigger] occ.contains(p) implies any_owl_at(owls, p) by {
        let i = choose|i: int| 0 <= i < occ.len() && occ[i] == p;
        assert(owls[i].location == p);
    }
    assert forall|p: Position| any_owl_at(owls, p) implies #[trigger] occ.contains(p) by {
        let i = choose|i: int| 0 <= i < owls.len() && (#[trigger] owls[i]).location == p;
        assert(occ[i] == p);
    }
}

/// Computes the next move of mouse `idx` against the current (pre-move)
/// state, following the rule's precedence; only the wander fallback draws on
/// the random generator, and then the result is some free neighboring cell.
pub fn next_mouse_move(
    idx: usize,
    board: &Board,
    mice_cfg: &MiceConfig,
    pregnancies: &Vec<(String, u32)>,
    rng: &mut rand::rngs::ThreadRng,
) -> (r: Option<Position>)
    requires
        idx < board.mice@.len(),
        board.wf(),
    ensures
        ({
            let cur = board.mice@[idx as int].location;
            match mouse_decision(
                board.mice@,
                board.grass@,
                pregnancies@,
                idx as int,
                *mice_cfg,
                board.width,
                board.height,
            ) {
                MoveDecision::Move(t) => r == Option::Some(t),
                MoveDecision::Stay => r is None,
                MoveDecision::Wander => {
                    &&& (r is None ==> forall|p: Position|
                        !mouse_wander_ok(board.mice@, cur, p, board.width, board.height))
                    &&& (r matches Option::Some(p) ==> mouse_wander_ok(
                        board.mice@,
                        cur,
                        p,
                        board.width,
                        board.height,
                    ))
                },
            }
        }),
        r matches Option::Some(p) ==> in_bounds(p, board.width, board.height),
{
    let cur = board.mice[idx].location;
    let hungry = board.mice[idx].ticks_since_last_eaten > mice_cfg.hunger_priority;
    if hungry {
        let cands = visible_grass_vec(&board.grass, cur, mice_cfg.vision);
        if cands.len() == 0 {
            return None;
        }
        let t = nearest_of(&cands, cur);
        let d = manhattan_dist(t, cur);
        if d == 0 {
            return None;
        }
        let next = step_toward_cell(cur, t, board.width, board.height);
        if other_mouse_on(&board.mice, idx, next) {
            None
        } else {
            Some(next)
        }
    } else {
        let male = board.mice[idx].sex == Sex::Male;
        let mates: Vec<Position> = if male {
            mate_candidates_vec(&board.mice, pregnancies, idx, mice_cfg.vision)
        } else {
            Vec::new()
        };
        if mates.len() > 0 {
            let t = nearest_of(&mates, cur);
            let d = manhattan_dist(t, cur);
            if d == 1 {
                return None;
            }
            let next = step_toward_cell(cur, t, board.width, board.height);
            if other_mouse_on(&board.mice, idx, next) {
                None
            } else {
                Some(next)
            }
        } else {
            let cands = visible_grass_vec(&board.grass, cur, mice_cfg.vision);
            if cands.len() > 0 {
                let t = nearest_of(&cands, cur);
                let d = manhattan_dist(t, cur);
                if d == 0 {
                    return None;
                }
                let next = step_toward_cell(cur, t, board.width, board.height);
                if other_mouse_on(&board.mice, idx, next) {
                    None
                } else {
                    Some(next)
                }
            } else {
                let occ = board.mouse_positions();
                proof {
                    lemma_positions_cover_mice(board.mice@, occ@);
                }
                let wcands = wander_candidates(&occ, cur, board.width, board.height);
                if wcands.len() == 0 {
                    proof {
                        assert forall|p: Position|
                            !mouse_wander_ok(
                                board.mice@,
                                cur,
                                p,
                                board.width,
                                board.height,
                            ) by {
                            if mouse_wander_ok(board.mice@, cur, p, board.width, board.height) {
                                assert(!occ@.contains(p));
                                assert(wander_cell_ok(occ@, cur, p, board.width, board.height));
                                assert(wcands@.contains(p));
                            }
                        }
                    }
                    None
                } else {
                    let k = random_index(rng, wcands.len());
                    let p = (wcands[k].0, wcands[k].1);
                    proof {
                        assert(wcands@.contains(p));
                        assert(wander_cell_ok(occ@, cur, p, board.width, board.height));
                        assert(!occ@.contains(p));
                        assert(!any_mouse_at(board.mice@, p));
                        assert(mouse_wander_ok(board.mice@, cur, p, board.width, board.height));
                    }
                    Some(p)
                }
            }
        }
    }
}

/// Computes the next move of owl `idx` against the pre-tick mouse snapshot
/// `all_mice`; only the blocked-path fallback draws on the random generator,
/// and then the result is some neighboring cell free of owls.
pub fn next_owl_move(
    idx: usize,
    board: &Board,
    all_mice: &Vec<Position>,
    rng: &mut rand::rngs::ThreadRng,
) -> (r: Option<Position>)
    requires
        idx < board.owls@.len(),
        board.wf(),
    ensures
        ({
            let cur = board.owls@[idx as int].location;
            match owl_decision(board.owls@, idx as int, all_mice@, board.width, board.height) {
                MoveDecision::Move(t) => r == Option::Some(t),
                MoveDecision::Stay => r is None,
                MoveDecision::Wander => {
                    &&& (r is None ==> forall|p: Position|
                        !owl_wander_ok(board.owls@, cur, p, board.width, board.height))
                    &&& (r matches Option::Some(p) ==> owl_wander_ok(
                        board.owls@,
                        cur,
                        p,
                        board.width,
                        board.height,
                    ))
                },
            }
        }),
        r matches Option::Some(p) ==> in_bounds(p, board.width, board.height),
{
    if all_mice.len() == 0 {
        return None;
    }
    let cur = board.owls[idx].location;
    let t = nearest_of(all_mice, cur);
    let next = step_toward_cell(cur, t, board.width, board.height);
    if !other_owl_on(&board.owls, idx, next) {
        Some(next)
    } else {
        let occ = board.owl_positions();
        proof {
            lemma_positions_cover_owls(board.owls@, occ@);
        }
        let wcands = wander_candidates(&occ, cur, board.width, board.height);
        if wcands.len() == 0 {
            proof {
                assert forall|p: Position|
                    !owl_wander_ok(board.owls@, cur, p, board.width, board.height) by {
                    if owl_wander_ok(board.owls@, cur, p, board.width, board.height) {
                        assert(!occ@.contains(p));
                        assert(wander_cell_ok(occ@, cur, p, board.width, board.height));
                        assert(wcands@.contains(p));
                    }
                }
            }
            None
        } else {
            let k = random_index(rng, wcands.len());
            let p = (wcands[k].0, wcands[k].1);
            proof {
                assert(wcands@.contains(p));
                assert(wander_cell_ok(occ@, cur, p, board.width, board.height));
                assert(!occ@.contains(p));
                assert(!any_owl_at(board.owls@, p));
                assert(owl_wander_ok(board.owls@, cur, p, board.width, board.height));
            }
            Some(p)
        }
    }
}

} // verus!
