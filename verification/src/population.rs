use vstd::prelude::*;

use crate::animal::{Mouse, Owl, Sex};
use crate::board::{any_mouse_at, any_owl_at, keep_filter, lemma_keep_filter_pairwise,
    lemma_keep_filter_props, Board};
use crate::decision::{first_nearest_in, is_pregnant, is_pregnant_id, nearest_of};
use crate::grid::{manhattan, manhattan_dist, Position};
use crate::ids::{mouse_id, mouse_id_of};
use crate::rng::random_flip;

verus! {

/// A mouse id appears in at most one pregnancy record.
pub open spec fn pregs_distinct(pregs: Seq<(String, u32)>) -> bool {
    forall|i: int, j: int|
        0 <= i < j < pregs.len() ==> (#[trigger] pregs[i]).0@ != (#[trigger] pregs[j]).0@
}

/// The locations, in collection order among the first `n` mice, of the mice
/// of the opposite sex to mouse `idx`.
pub open spec fn opp_sex_candidates(mice: Seq<Mouse>, idx: int, n: int) -> Seq<Position>
    decreases n,
{
    if n <= 0 {
        Seq::empty()
    } else {
        let pre = opp_sex_candidates(mice, idx, n - 1);
        if n - 1 != idx && mice[n - 1].sex != mice[idx].sex {
            pre.push(mice[n - 1].location)
        } else {
            pre
        }
    }
}

/// Whether mouse `idx` breeds this tick: its Manhattan-nearest opposite-sex
/// mouse (ties by collection order) stands at distance exactly one.
pub open spec fn mouse_breeds(mice: Seq<Mouse>, idx: int) -> bool {
    let cands = opp_sex_candidates(mice, idx, mice.len() as int);
    cands.len() > 0 && manhattan(first_nearest_in(cands, mice[idx].location), mice[idx].location)
        == 1
}

/// One mouse's turn of the breeding scan: a mouse that is not already
/// pregnant and breeds registers a fresh record with the full gestation time.
pub open spec fn breeding_step(
    mice: Seq<Mouse>,
    pregs: Seq<(String, u32)>,
    i: int,
    preg_time: u32,
) -> Seq<(String, u32)> {
    if !is_pregnant_id(pregs, mice[i].id@) && mouse_breeds(mice, i) {
        pregs.push((mice[i].id, preg_time))
    } else {
        pregs
    }
}

/// The pregnancy list after the first `n` mice have been scanned, in order.
pub open spec fn breeding_result(
    mice: Seq<Mouse>,
    pregs0: Seq<(String, u32)>,
    preg_time: u32,
    n: int,
) -> Seq<(String, u32)>
    decreases n,
{
    if n <= 0 {
        pregs0
    } else {
        breeding_step(mice, breeding_result(mice, pregs0, preg_time, n - 1), n - 1, preg_time)
    }
}

/// One progression step keeps the records still counting down, each one tick
/// shorter.
pub open spec fn progressed(pregs: Seq<(String, u32)>, n: int) -> Seq<(String, u32)> {
    keep_filter(pregs, |r: (String, u32)| r.1 > 1, n).map_values(
        |r: (String, u32)| (r.0, (r.1 - 1) as u32),
    )
}

/// One progression step queues a birth for every record whose countdown
/// reaches zero (saturating).
pub open spec fn births_of(pregs: Seq<(String, u32)>, n: int) -> Seq<String> {
    keep_filter(pregs, |r: (String, u32)| r.1 <= 1, n).map_values(|r: (String, u32)| r.0)
}

/// The sex-opposite candidate locations for mouse `idx`.
fn opp_sex_candidates_vec(mice: &Vec<Mouse>, idx: usize) -> (r: Vec<Position>)
    requires
        idx < mice@.len(),
    ensures
        r@ == opp_sex_candidates(mice@, idx as int, mice@.len() as int),
{
    let my_sex = mice[idx].sex;
    let mut r: Vec<Position> = Vec::new();
    let mut j: usize = 0;
    while j < mice.len()
        invariant
            0 <= j <= mice@.len(),
            idx < mice@.len(),
            my_sex == mice@[idx as int].sex,
            r@ == opp_sex_candidates(mice@, idx as int, j as int),
        decreases mice@.len() - j,
    {
        if j != idx && !(mice[j].sex == my_sex) {
            r.push(mice[j].location);
        }
        j = j + 1;
    }
    r
}

/// Scans every mouse once, in collection order, and registers a pregnancy
/// (with the full gestation time) for each mouse that is not already
/// pregnant and has an opposite-sex mouse at distance exactly one.
pub fn detect_breeding(mice: &Vec<Mouse>, pregnancies: &mut Vec<(String, u32)>, preg_time: u32)
    ensures
        final(pregnancies)@ == breeding_result(
            mice@,
            old(pregnancies)@,
            preg_time,
            mice@.len() as int,
        ),
        old(pregnancies)@.len() <= final(pregnancies)@.len(),
        final(pregnancies)@.len() <= old(pregnancies)@.len() + mice@.len(),
        final(pregnancies)@.subrange(0, old(pregnancies)@.len() as int) == old(pregnancies)@,
        forall|k: int|
            old(pregnancies)@.len() <= k < final(pregnancies)@.len()
                ==> (#[trigger] final(pregnancies)@[k]).1 == preg_time,
        pregs_distinct(old(pregnancies)@) ==> pregs_distinct(final(pregnancies)@),
{
    let mut i: usize = 0;
    while i < mice.len()
        invariant
            0 <= i <= mice@.len(),
            pregnancies@ == breeding_result(mice@, old(pregnancies)@, preg_time, i as int),
            old(pregnancies)@.len() <= pregnancies@.len(),
            pregnancies@.len() <= old(pregnancies)@.len() + i,
            pregnancies@.subrange(0, old(pregnancies)@.len() as int) == old(pregnancies)@,
            forall|k: int|
                old(pregnancies)@.len() <= k < pregnancies@.len() ==> (#[trigger] pregnancies@[k]).1
                    == preg_time,
            pregs_distinct(old(pregnancies)@) ==> pregs_distinct(pregnancies@),
        decreases mice@.len() - i,
    {
        let ghost pre = pregnancies@;
        let pregnant = is_pregnant(pregnancies, &mice[i].id);
        if !pregnant {
            let cands = opp_sex_candidates_vec(mice, i);
            if cands.len() > 0 {
                let cur = mice[i].location;
                let t = nearest_of(&cands, cur);
                let d = manhattan_dist(t, cur);
                if d == 1 {
                    pregnancies.push((mice[i].id.clone(), preg_time));
                }
            }
        }
        proof {
            assert(pregnancies@ == breeding_step(mice@, pre, i as int, preg_time));
            if pregnancies@.len() > pre.len() {
                assert(pregnancies@.subrange(0, old(pregnancies)@.len() as int)
                    =~= old(pregnancies)@);
            }
        }
        i = i + 1;
    }
}

/// Decrements every pregnancy's countdown by one (saturating at zero),
/// removes the records that reach zero, and returns their mother ids, in
/// record order, as the queued births.
pub fn progress_pregnancies(pregnancies: &mut Vec<(String, u32)>) -> (births: Vec<String>)
    ensures
        final(pregnancies)@ == progressed(old(pregnancies)@, old(pregnancies)@.len() as int),
        births@ == births_of(old(pregnancies)@, old(pregnancies)@.len() as int),
        births@.len() + final(pregnancies)@.len() == old(pregnancies)@.len(),
        pregs_distinct(old(pregnancies)@) ==> pregs_distinct(final(pregnancies)@),
{
    let ghost pregs0 = pregnancies@;
    let mut remaining: Vec<(String, u32)> = Vec::new();
    let mut births: Vec<String> = Vec::new();
    let mut i: usize = 0;
    while i < pregnancies.len()
        invariant
            0 <= i <= pregnancies@.len(),
            pregnancies@ == pregs0,
            remaining@ == progressed(pregs0, i as int),
            births@ == births_of(pregs0, i as int),
            births@.len() + remaining@.len() == i,
        decreases pregnancies@.len() - i,
    {
        let t = pregnancies[i].1;
        let ghost kept_pre = keep_filter(pregs0, |r: (String, u32)| r.1 > 1, i as int);
        let ghost birth_pre = keep_filter(pregs0, |r: (String, u32)| r.1 <= 1, i as int);
        if t > 1 {
            remaining.push((pregnancies[i].0.clone(), t - 1));
            proof {
                assert(remaining@ =~= kept_pre.push(pregs0[i as int]).map_values(
                    |r: (String, u32)| (r.0, (r.1 - 1) as u32),
                ));
            }
        } else {
            births.push(pregnancies[i].0.clone());
            proof {
                assert(births@ =~= birth_pre.push(pregs0[i as int]).map_values(
                    |r: (String, u32)| r.0,
                ));
            }
        }
        proof {
            assert(remaining@ =~= progressed(pregs0, i + 1));
            assert(births@ =~= births_of(pregs0, i + 1));
        }
        i = i + 1;
    }
    proof {
        if pregs_distinct(pregs0) {
            lemma_keep_filter_pairwise(
                pregs0,
                |r: (String, u32)| r.1 > 1,
                pregs0.len() as int,
                |a: (String, u32), b: (String, u32)| a.0@ != b.0@,
            );
        }
    }
    *pregnancies = remaining;
    births
}

/// Whether the cell `(x, y)` lies on the board and carries no animal.
pub open spec fn cell_free(
    mice: Seq<Mouse>,
    owls: Seq<Owl>,
    w: i32,
    h: i32,
    x: int,
    y: int,
) -> bool {
    0 <= x <= w && 0 <= y <= h && !any_mouse_at(mice, ((x as i32, y as i32))) && !any_owl_at(
        owls,
        ((x as i32, y as i32)),
    )
}

/// The spawn cell of a birth at `pos`: the first free cell scanning the
/// orthogonal neighbors north, east, south, west, in that fixed order.
pub open spec fn birth_cell(mice: Seq<Mouse>, owls: Seq<Owl>, w: i32, h: i32, pos: Position) -> Option<
    (int, int),
> {
    let x = pos.0 as int;
    let y = pos.1 as int;
    if cell_free(mice, owls, w, h, x, y + 1) {
        Option::Some((x, y + 1))
    } else if cell_free(mice, owls, w, h, x + 1, y) {
        Option::Some((x + 1, y))
    } else if cell_free(mice, owls, w, h, x, y - 1) {
        Option::Some((x, y - 1))
    } else if cell_free(mice, owls, w, h, x - 1, y) {
        Option::Some((x - 1, y))
    } else {
        Option::None
    }
}

/// The first mouse, in collection order among the first `n`, carrying `id`.
pub open spec fn first_index_with_id(mice: Seq<Mouse>, id: Seq<char>, n: int) -> Option<int>
    decreases n,
{
    if n <= 0 {
        Option::None
    } else {
        match first_index_with_id(mice, id, n - 1) {
            Option::Some(j) => Option::Some(j),
            Option::None => if mice[n - 1].id@ == id {
                Option::Some(n - 1)
            } else {
                Option::None
            },
        }
    }
}

/// What `first_index_with_id` finds: the first match, or nothing.
pub proof fn lemma_first_index_with_id(mice: Seq<Mouse>, id: Seq<char>, n: int)
    requires
        0 <= n <= mice.len(),
    ensures
        match first_index_with_id(mice, id, n) {
            Option::Some(j) => 0 <= j < n && mice[j].id@ == id && forall|k: int|
                0 <= k < j ==> (#[trigger] mice[k]).id@ != id,
            Option::None => forall|k: int| 0 <= k < n ==> (#[trigger] mice[k]).id@ != id,
        },
    decreases n,
{
    if n > 0 {
        lemma_first_index_with_id(mice, id, n - 1);
    }
}

/// Index of the first mouse carrying `id`, if any.
fn find_mouse_index(mice: &Vec<Mouse>, id: &String) -> (r: Option<usize>)
    ensures
        match r {
            Option::Some(j) => j < mice@.len() && mice@[j as int].id@ == id@ && forall|k: int|
                0 <= k < j ==> (#[trigger] mice@[k]).id@ != id@,
            Option::None => forall|k: int| 0 <= k < mice@.len() ==> (#[trigger] mice@[k]).id@ != id@,
        },
{
    let mut j: usize = 0;
    while j < mice.len()
        invariant
            0 <= j <= mice@.len(),
            forall|k: int| 0 <= k < j ==> (#[trigger] mice@[k]).id@ != id@,
        decreases mice@.len() - j,
    {
        if mice[j].id.eq(id) {
            return Some(j);
        }
        j = j + 1;
    }
    None
}

/// Whether the executable cell `(x, y)` (given widened) is free.
fn cell_is_free(board: &Board, x: i64, y: i64) -> (r: bool)
    ensures
        r == cell_free(board.mice@, board.owls@, board.width, board.height, x as int, y as int),
{
    if x < 0 || x > board.width as i64 || y < 0 || y > board.height as i64 {
        return false;
    }
    let p: Position = (x as i32, y as i32);
    !board.has_mouse_at(p) && !board.has_owl_at(p)
}

/// Attempts the queued birth of `parent_id`'s mother: looks up her current
/// position, scans north, east, south, west for a cell free of animals, and
/// spawns a mouse with a fresh id, age zero and a random sex on the first
/// free cell.  With no parent or no free cell the birth silently fails.
pub fn try_birth(
    board: &mut Board,
    parent_id: &String,
    counter: &mut usize,
    rng: &mut rand::rngs::ThreadRng,
) -> (added: bool)
    requires
        old(board).wf(),
        *old(counter) < usize::MAX,
    ensures
        final(board).owls == old(board).owls,
        final(board).grass == old(board).grass,
        final(board).width == old(board).width,
        final(board).height == old(board).height,
        final(board).dead_mice_total == old(board).dead_mice_total,
        final(board).dead_mice_starved == old(board).dead_mice_starved,
        final(board).dead_mice_eaten == old(board).dead_mice_eaten,
        final(board).dead_mice_old_age == old(board).dead_mice_old_age,
        final(board).dead_owls_old_age == old(board).dead_owls_old_age,
        final(board).wf(),
        match first_index_with_id(old(board).mice@, parent_id@, old(board).mice@.len() as int) {
            Option::None => !added && final(board).mice == old(board).mice && *final(counter)
                == *old(counter),
            Option::Some(pi) => match birth_cell(
                old(board).mice@,
                old(board).owls@,
                old(board).width,
                old(board).height,
                old(board).mice@[pi].location,
            ) {
                Option::None => !added && final(board).mice == old(board).mice && *final(counter)
                    == *old(counter),
                Option::Some(c) => {
                    &&& added
                    &&& *final(counter) == *old(counter) + 1
                    &&& final(board).mice@.len() == old(board).mice@.len() + 1
                    &&& final(board).mice@.subrange(0, old(board).mice@.len() as int) == old(
                        board,
                    ).mice@
                    &&& final(board).mice@.last().location == ((c.0 as i32, c.1 as i32))
                    &&& final(board).mice@.last().age == 0
                    &&& final(board).mice@.last().ticks_since_last_eaten == 0
                    &&& final(board).mice@.last().id@ == mouse_id_of((*old(counter) + 1) as usize)
                    &&& final(board).mice@.last().father is None
                    &&& final(board).mice@.last().mother is None
                },
            },
        },
{
    proof {
        lemma_first_index_with_id(board.mice@, parent_id@, board.mice@.len() as int);
    }
    match find_mouse_index(&board.mice, parent_id) {
        Option::None => false,
        Option::Some(pi) => {
            let pos = board.mice[pi].location;
            let px: i64 = pos.0 as i64;
            let py: i64 = pos.1 as i64;
            let spawn: Option<Position> = if cell_is_free(board, px, py + 1) {
                Some((px as i32, (py + 1) as i32))
            } else if cell_is_free(board, px + 1, py) {
                Some(((px + 1) as i32, py as i32))
            } else if cell_is_free(board, px, py - 1) {
                Some((px as i32, (py - 1) as i32))
            } else if cell_is_free(board, px - 1, py) {
                Some(((px - 1) as i32, py as i32))
            } else {
                None
            };
            match spawn {
                Option::None => false,
                Option::Some(c) => {
                    *counter = *counter + 1;
                    let id = mouse_id(*counter);
                    let sex = if random_flip(rng) {
                        Sex::Male
                    } else {
                        Sex::Female
                    };
                    let m = Mouse::new(id, 0, 5, None, None, c, sex);
                    let ghost pre_mice = board.mice@;
                    board.add_mouse(m);
                    proof {
                        assert(board.mice@.subrange(0, pre_mice.len() as int) =~= pre_mice);
                    }
                    true
                },
            }
        },
    }
}

/// The pregnancy list after one whole progression pass.
pub open spec fn progress_all(pregs: Seq<(String, u32)>) -> Seq<(String, u32)> {
    progressed(pregs, pregs.len() as int)
}

/// The births queued by one whole progression pass.
pub open spec fn births_all(pregs: Seq<(String, u32)>) -> Seq<String> {
    births_of(pregs, pregs.len() as int)
}

/// The pregnancy list after `k` whole progression passes, with no other
/// mutation of the list in between.
pub open spec fn progress_iter(pregs: Seq<(String, u32)>, k: nat) -> Seq<(String, u32)>
    decreases k,
{
    if k == 0 {
        pregs
    } else {
        progress_all(progress_iter(pregs, (k - 1) as nat))
    }
}

/// What one progression pass does to each record: a countdown above one is
/// kept one lower, a countdown at or below one queues its id as a birth, and
/// every surviving record descends from one that was counting down.
proof fn lemma_progress_membership(pregs: Seq<(String, u32)>)
    ensures
        forall|j: int|
            0 <= j < pregs.len() && (#[trigger] pregs[j]).1 > 1 ==> progress_all(pregs).contains(
                ((pregs[j].0, (pregs[j].1 - 1) as u32)),
            ),
        forall|j: int|
            0 <= j < pregs.len() && (#[trigger] pregs[j]).1 <= 1 ==> births_all(pregs).contains(
                pregs[j].0,
            ),
        forall|k: int|
            0 <= k < progress_all(pregs).len() ==> exists|j: int|
                0 <= j < pregs.len() && (#[trigger] progress_all(pregs)[k]) == ((
                pregs[j].0,
                (pregs[j].1 - 1) as u32,
                )) && pregs[j].1 > 1,
{
    let keep = |r: (String, u32)| r.1 > 1;
    let born = |r: (String, u32)| r.1 <= 1;
    let n = pregs.len() as int;
    lemma_keep_filter_props(pregs, keep, n);
    lemma_keep_filter_props(pregs, born, n);
    let kept = keep_filter(pregs, keep, n);
    let queued = keep_filter(pregs, born, n);
    assert forall|j: int| 0 <= j < pregs.len() && (#[trigger] pregs[j]).1 > 1 implies progress_all(
        pregs,
    ).contains(((pregs[j].0, (pregs[j].1 - 1) as u32))) by {
        assert(kept.contains(pregs[j]));
        let k = choose|k: int| 0 <= k < kept.len() && kept[k] == pregs[j];
        assert(progress_all(pregs)[k] == ((pregs[j].0, (pregs[j].1 - 1) as u32)));
    }
    assert forall|j: int| 0 <= j < pregs.len() && (#[trigger] pregs[j]).1 <= 1 implies births_all(
        pregs,
    ).contains(pregs[j].0) by {
        assert(queued.contains(pregs[j]));
        let k = choose|k: int| 0 <= k < queued.len() && queued[k] == pregs[j];
        assert(births_all(pregs)[k] == pregs[j].0);
    }
    assert forall|k: int| 0 <= k < progress_all(pregs).len() implies exists|j: int|
        0 <= j < pregs.len() && (#[trigger] progress_all(pregs)[k]) == ((
        pregs[j].0,
        (pregs[j].1 - 1) as u32,
        )) && pregs[j].1 > 1 by {
        assert(progress_all(pregs)[k] == ((kept[k].0, (kept[k].1 - 1) as u32)));
        let j = choose|j: int| 0 <= j < n && #[trigger] kept[k] == pregs[j];
        assert(keep(kept[k]));
        assert(progress_all(pregs)[k] == ((pregs[j].0, (pregs[j].1 - 1) as u32)) && pregs[j].1
            > 1);
    }
}

/// A progression pass never duplicates an id.
proof fn lemma_progress_distinct(pregs: Seq<(String, u32)>)
    requires
        pregs_distinct(pregs),
    ensures
        pregs_distinct(progress_all(pregs)),
{
    let keep = |r: (String, u32)| r.1 > 1;
    let n = pregs.len() as int;
    lemma_keep_filter_pairwise(
        pregs,
        keep,
        n,
        |a: (String, u32), b: (String, u32)| a.0@ != b.0@,
    );
    let kept = keep_filter(pregs, keep, n);
    assert forall|a: int, b: int|
        0 <= a < b < progress_all(pregs).len() implies (#[trigger] progress_all(pregs)[a]).0@ != (
    #[trigger] progress_all(pregs)[b]).0@ by {
        assert(progress_all(pregs)[a].0 == kept[a].0);
        assert(progress_all(pregs)[b].0 == kept[b].0);
    }
}

/// A pregnancy registered with `t` ticks remaining still stands, with
/// `t - k` remaining, after any `k < t` whole progression passes.
pub proof fn lemma_pregnancy_countdown(pregs: Seq<(String, u32)>, id: Seq<char>, t: u32, k: nat)
    requires
        pregs_distinct(pregs),
        exists|j: int|
            0 <= j < pregs.len() && (#[trigger] pregs[j]).0@ == id && pregs[j].1 == t,
        1 <= t,
        k < t,
    ensures
        pregs_distinct(progress_iter(pregs, k)),
        exists|j: int|
            0 <= j < progress_iter(pregs, k).len() && (#[trigger] progress_iter(pregs, k)[j]).0@
                == id && progress_iter(pregs, k)[j].1 == t - k,
    decreases k,
{
    if k > 0 {
        lemma_pregnancy_countdown(pregs, id, t, (k - 1) as nat);
        let cur = progress_iter(pregs, (k - 1) as nat);
        let j = choose|j: int|
            0 <= j < cur.len() && (#[trigger] cur[j]).0@ == id && cur[j].1 == t - (k - 1);
        lemma_progress_membership(cur);
        lemma_progress_distinct(cur);
        assert(cur[j].1 > 1);
        assert(progress_all(cur).contains(((cur[j].0, (cur[j].1 - 1) as u32))));
        let b = choose|b: int|
            0 <= b < progress_all(cur).len() && progress_all(cur)[b] == ((
            cur[j].0,
            (cur[j].1 - 1) as u32,
            ));
        assert(progress_iter(pregs, k) == progress_all(cur));
        assert(progress_iter(pregs, k)[b].0@ == id && progress_iter(pregs, k)[b].1 == t - k);
    }
}

/// After exactly `t` progression passes a record registered with `t` ticks
/// remaining has queued its birth — on the last of those passes — and has
/// left the list.
pub proof fn lemma_pregnancy_completion(pregs: Seq<(String, u32)>, id: Seq<char>, t: u32)
    requires
        pregs_distinct(pregs),
        exists|j: int|
            0 <= j < pregs.len() && (#[trigger] pregs[j]).0@ == id && pregs[j].1 == t,
        1 <= t,
    ensures
        exists|b: int|
            0 <= b < births_all(progress_iter(pregs, (t - 1) as nat)).len() && (#[trigger] births_all(
                progress_iter(pregs, (t - 1) as nat),
            )[b])@ == id,
        forall|j: int|
            0 <= j < progress_iter(pregs, t as nat).len() ==> (#[trigger] progress_iter(
                pregs,
                t as nat,
            )[j]).0@ != id,
{
    lemma_pregnancy_countdown(pregs, id, t, (t - 1) as nat);
    let cur = progress_iter(pregs, (t - 1) as nat);
    let j = choose|j: int| 0 <= j < cur.len() && (#[trigger] cur[j]).0@ == id && cur[j].1 == 1;
    lemma_progress_membership(cur);
    lemma_progress_distinct(cur);
    assert(births_all(cur).contains(cur[j].0));
    let b = choose|b: int| 0 <= b < births_all(cur).len() && births_all(cur)[b] == cur[j].0;
    assert(births_all(cur)[b]@ == id);
    assert(progress_iter(pregs, t as nat) == progress_all(cur));
    assert forall|q: int| 0 <= q < progress_all(cur).len() implies (#[trigger] progress_all(
        cur,
    )[q]).0@ != id by {
        let j2 = choose|j2: int|
            0 <= j2 < cur.len() && #[trigger] progress_all(cur)[q] == ((
            cur[j2].0,
            (cur[j2].1 - 1) as u32,
            )) && cur[j2].1 > 1;
        if cur[j2].0@ == id {
            assert(j2 == j);
        }
    }
}

} // verus!
