use vstd::prelude::*;

use crate::animal::{Mouse, Owl, Sex};
use crate::grid::{contains_cell, in_bounds, lex_lt, same_cell, Position};

verus! {

/// A mouse starves once it has gone this many ticks without eating.
pub const STARVATION_THRESHOLD: u32 = 10;

/// All simulation state: dimensions, the live animals, the grass cells and
/// the cumulative death counters.
///
/// The grass set is kept as a vector without duplicates, ordered
/// lexicographically by cell; that order is the tie-break order whenever a
/// nearest grass cell is chosen.
pub struct Board {
    pub width: i32,
    pub height: i32,
    pub mice: Vec<Mouse>,
    pub owls: Vec<Owl>,
    pub grass: Vec<Position>,
    pub dead_mice_total: usize,
    pub dead_mice_starved: usize,
    pub dead_mice_eaten: usize,
    pub dead_mice_old_age: usize,
    pub dead_owls_old_age: usize,
}

/// Whether some mouse in `mice` stands on `p`.
pub open spec fn any_mouse_at(mice: Seq<Mouse>, p: Position) -> bool {
    exists|i: int| 0 <= i < mice.len() && (#[trigger] mice[i]).location == p
}

/// Whether some owl in `owls` stands on `p`.
pub open spec fn any_owl_at(owls: Seq<Owl>, p: Position) -> bool {
    exists|i: int| 0 <= i < owls.len() && (#[trigger] owls[i]).location == p
}

/// No two owls share a cell.
pub open spec fn owls_distinct(owls: Seq<Owl>) -> bool {
    forall|i: int, j: int|
        0 <= i < j < owls.len() ==> (#[trigger] owls[i]).location != (#[trigger] owls[j]).location
}

/// The cells on which some owl of `owls` stands.
pub open spec fn owl_positions_set(owls: Seq<Owl>) -> Set<Position> {
    Set::new(|p: Position| any_owl_at(owls, p))
}

/// The grass sequence after the first `n` mice have had their moves applied:
/// each committed move removes its target cell from the grass (the first
/// occurrence; there are no duplicates in a well-formed board).
pub open spec fn grass_after_mouse_moves(
    grass: Seq<Position>,
    moves: Seq<Option<Position>>,
    n: int,
) -> Seq<Position>
    decreases n,
{
    if n <= 0 {
        grass
    } else {
        let prev = grass_after_mouse_moves(grass, moves, n - 1);
        match moves[n - 1] {
            Option::Some(t) => prev.remove_value(t),
            Option::None => prev,
        }
    }
}

/// State of mouse `i` after the move phase: a mouse given a move lands there,
/// eating (hunger reset) exactly when the target still bore grass once the
/// mice before it had moved; otherwise, moved or not, its hunger grows by one.
pub open spec fn mouse_after_moves(
    mice: Seq<Mouse>,
    grass: Seq<Position>,
    moves: Seq<Option<Position>>,
    i: int,
) -> Mouse {
    let m = mice[i];
    match moves[i] {
        Option::Some(t) => Mouse {
            location: t,
            ticks_since_last_eaten: if grass_after_mouse_moves(grass, moves, i).contains(t) {
                0u32
            } else {
                (m.ticks_since_last_eaten + 1) as u32
            },
            ..m
        },
        Option::None => Mouse { ticks_since_last_eaten: (m.ticks_since_last_eaten + 1) as u32, ..m },
    }
}

/// The cells claimed by owls once the first `n` owl moves are resolved: every
/// pre-move owl position, plus every target an owl has moved to.
pub open spec fn claimed_after(owls: Seq<Owl>, moves: Seq<Option<Position>>, n: int) -> Set<
    Position,
>
    decreases n,
{
    if n <= 0 {
        owl_positions_set(owls)
    } else {
        let prev = claimed_after(owls, moves, n - 1);
        match moves[n - 1] {
            Option::Some(t) => prev.insert(t),
            Option::None => prev,
        }
    }
}

/// Whether owl `i`'s move commits: it has a target and no earlier claim holds
/// that cell (first claim wins).
pub open spec fn owl_move_committed(owls: Seq<Owl>, moves: Seq<Option<Position>>, i: int) -> bool {
    moves[i] is Some && !claimed_after(owls, moves, i).contains(moves[i]->Some_0)
}

/// Location of owl `i` after the move phase.
pub open spec fn owl_loc_after(owls: Seq<Owl>, moves: Seq<Option<Position>>, i: int) -> Position {
    if owl_move_committed(owls, moves, i) {
        moves[i]->Some_0
    } else {
        owls[i].location
    }
}

/// `o` moved to `p`, all other fields kept.
pub open spec fn owl_with_location(o: Owl, p: Position) -> Owl {
    Owl { location: p, ..o }
}

/// Claims only ever accumulate.
proof fn lemma_claimed_monotonic(owls: Seq<Owl>, moves: Seq<Option<Position>>, m: int, n: int)
    requires
        m <= n,
    ensures
        claimed_after(owls, moves, m).subset_of(claimed_after(owls, moves, n)),
    decreases n - m,
{
    if m < n {
        lemma_claimed_monotonic(owls, moves, m, n - 1);
    }
}

/// Every owl's location, before and after its move is resolved, is claimed.
proof fn lemma_claimed_covers(owls: Seq<Owl>, moves: Seq<Option<Position>>, n: int)
    requires
        0 <= n <= moves.len(),
        moves.len() == owls.len(),
    ensures
        forall|j: int|
            0 <= j < owls.len() ==> claimed_after(owls, moves, n).contains(
                (#[trigger] owls[j]).location,
            ),
        forall|j: int|
            0 <= j < n ==> claimed_after(owls, moves, n).contains(
                #[trigger] owl_loc_after(owls, moves, j),
            ),
    decreases n,
{
    if n == 0 {
        assert(forall|j: int|
            0 <= j < owls.len() ==> owl_positions_set(owls).contains(
                (#[trigger] owls[j]).location,
            ));
    } else {
        lemma_claimed_covers(owls, moves, n - 1);
        assert forall|j: int| 0 <= j < n implies claimed_after(owls, moves, n).contains(
            #[trigger] owl_loc_after(owls, moves, j),
        ) by {
            if j < n - 1 {
                lemma_claimed_monotonic(owls, moves, n - 1, n);
            } else {
                if owl_move_committed(owls, moves, j) {
                    assert(claimed_after(owls, moves, n).contains(moves[j]->Some_0));
                } else {
                    lemma_claimed_monotonic(owls, moves, n - 1, n);
                }
            }
        }
    }
}

/// First claim wins keeps owls apart: if no two owls shared a cell before the
/// move phase, no two owls share a cell after it.
pub proof fn lemma_owl_moves_preserve_distinct(owls: Seq<Owl>, moves: Seq<Option<Position>>)
    requires
        moves.len() == owls.len(),
        owls_distinct(owls),
    ensures
        forall|i: int, j: int|
            0 <= i < j < owls.len() ==> #[trigger] owl_loc_after(owls, moves, i)
                != #[trigger] owl_loc_after(owls, moves, j),
{
    assert forall|i: int, j: int| 0 <= i < j < owls.len() implies #[trigger] owl_loc_after(
        owls,
        moves,
        i,
    ) != #[trigger] owl_loc_after(owls, moves, j) by {
        if owl_move_committed(owls, moves, j) {
            // owl j moves to a cell no earlier claim holds; owl i's final
            // location is claimed by the time owl j is resolved.
            lemma_claimed_covers(owls, moves, j);
        } else {
            if owl_move_committed(owls, moves, i) {
                // owl i moved to a cell unclaimed at its turn, so distinct
                // from every pre-move owl position, including owl j's.
                lemma_claimed_covers(owls, moves, i);
            }
        }
    }
}

/// What one cell shows when the board is rendered: the first mouse standing
/// on it (in collection order) wins, then any owl, then grass.
#[derive(Clone, Copy, Debug, PartialEq, Eq, Structural)]
pub enum CellKind {
    MouseCell(Sex),
    OwlCell,
    Grass,
    Empty,
}

/// Order-preserving filter of the first `n` elements of `s`: what a cull pass
/// keeps, in the order they stood.
pub open spec fn keep_filter<A>(s: Seq<A>, pred: spec_fn(A) -> bool, n: int) -> Seq<A>
    decreases n,
{
    if n <= 0 {
        Seq::empty()
    } else {
        let pre = keep_filter(s, pred, n - 1);
        if pred(s[n - 1]) {
            pre.push(s[n - 1])
        } else {
            pre
        }
    }
}

/// What a cull keeps: no more elements than it saw, every kept element
/// satisfies the predicate and occurs in the input, and every input element
/// satisfying the predicate is kept.
pub proof fn lemma_keep_filter_props<A>(s: Seq<A>, pred: spec_fn(A) -> bool, n: int)
    requires
        0 <= n <= s.len(),
    ensures
        keep_filter(s, pred, n).len() <= n,
        forall|k: int|
            0 <= k < keep_filter(s, pred, n).len() ==> pred(#[trigger] keep_filter(s, pred, n)[k]),
        forall|k: int|
            0 <= k < keep_filter(s, pred, n).len() ==> exists|j: int|
                0 <= j < n && #[trigger] keep_filter(s, pred, n)[k] == s[j],
        forall|j: int|
            0 <= j < n && pred(#[trigger] s[j]) ==> keep_filter(s, pred, n).contains(s[j]),
    decreases n,
{
    if n > 0 {
        lemma_keep_filter_props(s, pred, n - 1);
        assert forall|j: int| 0 <= j < n && pred(#[trigger] s[j]) implies keep_filter(
            s,
            pred,
            n,
        ).contains(s[j]) by {
            if j < n - 1 {
                assert(keep_filter(s, pred, n - 1).contains(s[j]));
                let k = choose|k: int|
                    0 <= k < keep_filter(s, pred, n - 1).len() && #[trigger] keep_filter(
                        s,
                        pred,
                        n - 1,
                    )[k] == s[j];
                assert(keep_filter(s, pred, n)[k] == s[j]);
            } else {
                assert(keep_filter(s, pred, n).last() == s[j]);
            }
        }
    }
}

/// A cull pass keeps any relation that held pairwise, in order, on the input.
pub proof fn lemma_keep_filter_pairwise<A>(
    s: Seq<A>,
    pred: spec_fn(A) -> bool,
    n: int,
    rel: spec_fn(A, A) -> bool,
)
    requires
        0 <= n <= s.len(),
        forall|i: int, j: int| 0 <= i < j < n ==> rel(#[trigger] s[i], #[trigger] s[j]),
    ensures
        forall|a: int, b: int|
            0 <= a < b < keep_filter(s, pred, n).len() ==> rel(
                #[trigger] keep_filter(s, pred, n)[a],
                #[trigger] keep_filter(s, pred, n)[b],
            ),
    decreases n,
{
    if n > 0 {
        lemma_keep_filter_pairwise(s, pred, n - 1, rel);
        lemma_keep_filter_props(s, pred, n - 1);
        if pred(s[n - 1]) {
            assert forall|a: int, b: int|
                0 <= a < b < keep_filter(s, pred, n).len() implies rel(
                #[trigger] keep_filter(s, pred, n)[a],
                #[trigger] keep_filter(s, pred, n)[b],
            ) by {
                if b == keep_filter(s, pred, n).len() - 1 {
                    assert(keep_filter(s, pred, n)[a] == keep_filter(s, pred, n - 1)[a]);
                    let j = choose|j: int|
                        0 <= j < n - 1 && keep_filter(s, pred, n - 1)[a] == #[trigger] s[j];
                    assert(rel(s[j], s[n - 1]));
                } else {
                    assert(keep_filter(s, pred, n)[a] == keep_filter(s, pred, n - 1)[a]);
                    assert(keep_filter(s, pred, n)[b] == keep_filter(s, pred, n - 1)[b]);
                }
            }
        }
    }
}

/// `m`, one tick older.
pub open spec fn aged_mouse(m: Mouse) -> Mouse {
    Mouse { age: (m.age + 1) as u32, ..m }
}

/// `o`, one tick older.
pub open spec fn aged_owl(o: Owl) -> Owl {
    Owl { age: (o.age + 1) as u32, ..o }
}

/// Whether any owl of `owls` stands on `p`.
fn owls_on_cell(owls: &Vec<Owl>, p: Position) -> (r: bool)
    ensures
        r == any_owl_at(owls@, p),
{
    let mut i: usize = 0;
    while i < owls.len()
        invariant
            0 <= i <= owls@.len(),
            forall|j: int| 0 <= j < i ==> (#[trigger] owls@[j]).location != p,
        decreases owls@.len() - i,
    {
        if same_cell(owls[i].location, p) {
            return true;
        }
        i = i + 1;
    }
    false
}

impl Board {
    /// The grass cells as a set.
    pub open spec fn grass_set(self) -> Set<Position> {
        self.grass@.to_set()
    }

    pub open spec fn mouse_at(self, p: Position) -> bool {
        any_mouse_at(self.mice@, p)
    }

    pub open spec fn owl_at(self, p: Position) -> bool {
        any_owl_at(self.owls@, p)
    }

    /// Geometric well-formedness: non-negative dimensions, every animal and
    /// every grass cell on the board, and no duplicate grass cells.
    pub open spec fn wf(self) -> bool {
        &&& 0 <= self.width
        &&& 0 <= self.height
        &&& forall|i: int|
            0 <= i < self.mice@.len() ==> in_bounds(
                (#[trigger] self.mice@[i]).location,
                self.width,
                self.height,
            )
        &&& forall|i: int|
            0 <= i < self.owls@.len() ==> in_bounds(
                (#[trigger] self.owls@[i]).location,
                self.width,
                self.height,
            )
        &&& forall|i: int|
            0 <= i < self.grass@.len() ==> in_bounds(
                #[trigger] self.grass@[i],
                self.width,
                self.height,
            )
        &&& self.grass@.no_duplicates()
    }

    pub fn new(width: i32, height: i32) -> (b: Board)
        requires
            0 <= width,
            0 <= height,
        ensures
            b.width == width,
            b.height == height,
            b.mice@ == Seq::<Mouse>::empty(),
            b.owls@ == Seq::<Owl>::empty(),
            b.grass@ == Seq::<Position>::empty(),
            b.dead_mice_total == 0,
            b.dead_mice_starved == 0,
            b.dead_mice_eaten == 0,
            b.dead_mice_old_age == 0,
            b.dead_owls_old_age == 0,
            b.wf(),
    {
        let b = Board {
            width,
            height,
            mice: Vec::new(),
            owls: Vec::new(),
            grass: Vec::new(),
            dead_mice_total: 0,
            dead_mice_starved: 0,
            dead_mice_eaten: 0,
            dead_mice_old_age: 0,
            dead_owls_old_age: 0,
        };
        proof {
            assert(b.mice@ =~= Seq::<Mouse>::empty());
            assert(b.owls@ =~= Seq::<Owl>::empty());
            assert(b.grass@ =~= Seq::<Position>::empty());
        }
        b
    }

    pub fn add_mouse(&mut self, mouse: Mouse)
        ensures
            final(self).mice@ == old(self).mice@.push(mouse),
            final(self).owls == old(self).owls,
            final(self).grass == old(self).grass,
            final(self).width == old(self).width,
            final(self).height == old(self).height,
            final(self).dead_mice_total == old(self).dead_mice_total,
            final(self).dead_mice_starved == old(self).dead_mice_starved,
            final(self).dead_mice_eaten == old(self).dead_mice_eaten,
            final(self).dead_mice_old_age == old(self).dead_mice_old_age,
            final(self).dead_owls_old_age == old(self).dead_owls_old_age,
            old(self).wf() && in_bounds(mouse.location, old(self).width, old(self).height)
                ==> final(self).wf(),
    {
        self.mice.push(mouse);
    }

    pub fn add_owl(&mut self, owl: Owl)
        ensures
            final(self).owls@ == old(self).owls@.push(owl),
            final(self).mice == old(self).mice,
            final(self).grass == old(self).grass,
            final(self).width == old(self).width,
            final(self).height == old(self).height,
            final(self).dead_mice_total == old(self).dead_mice_total,
            final(self).dead_mice_starved == old(self).dead_mice_starved,
            final(self).dead_mice_eaten == old(self).dead_mice_eaten,
            final(self).dead_mice_old_age == old(self).dead_mice_old_age,
            final(self).dead_owls_old_age == old(self).dead_owls_old_age,
            old(self).wf() && in_bounds(owl.location, old(self).width, old(self).height)
                ==> final(self).wf(),
    {
        self.owls.push(owl);
    }

    /// Whether any mouse currently stands on `p`.
    pub fn has_mouse_at(&self, p: Position) -> (r: bool)
        ensures
            r == self.mouse_at(p),
    {
        let mut i: usize = 0;
        while i < self.mice.len()
            invariant
                0 <= i <= self.mice@.len(),
                forall|j: int| 0 <= j < i ==> (#[trigger] self.mice@[j]).location != p,
            decreases self.mice@.len() - i,
        {
            if same_cell(self.mice[i].location, p) {
                return true;
            }
            i = i + 1;
        }
        false
    }

    /// Whether any owl currently stands on `p`.
    pub fn has_owl_at(&self, p: Position) -> (r: bool)
        ensures
            r == self.owl_at(p),
    {
        let mut i: usize = 0;
        while i < self.owls.len()
            invariant
                0 <= i <= self.owls@.len(),
                forall|j: int| 0 <= j < i ==> (#[trigger] self.owls@[j]).location != p,
            decreases self.owls@.len() - i,
        {
            if same_cell(self.owls[i].location, p) {
                return true;
            }
            i = i + 1;
        }
        false
    }

    /// Independent copy of all mouse positions, in collection order.
    pub fn mouse_positions(&self) -> (r: Vec<Position>)
        ensures
            r@.len() == self.mice@.len(),
            forall|i: int| 0 <= i < r@.len() ==> r@[i] == (#[trigger] self.mice@[i]).location,
    {
        let mut r: Vec<Position> = Vec::new();
        let mut i: usize = 0;
        while i < self.mice.len()
            invariant
                0 <= i <= self.mice@.len(),
                r@.len() == i,
                forall|j: int| 0 <= j < i ==> r@[j] == (#[trigger] self.mice@[j]).location,
            decreases self.mice@.len() - i,
        {
            r.push(self.mice[i].location);
            i = i + 1;
        }
        r
    }

    /// Independent copy of all owl positions, in collection order.
    pub fn owl_positions(&self) -> (r: Vec<Position>)
        ensures
            r@.len() == self.owls@.len(),
            forall|i: int| 0 <= i < r@.len() ==> r@[i] == (#[trigger] self.owls@[i]).location,
    {
        let mut r: Vec<Position> = Vec::new();
        let mut i: usize = 0;
        while i < self.owls.len()
            invariant
                0 <= i <= self.owls@.len(),
                r@.len() == i,
                forall|j: int| 0 <= j < i ==> r@[j] == (#[trigger] self.owls@[j]).location,
            decreases self.owls@.len() - i,
        {
            r.push(self.owls[i].location);
            i = i + 1;
        }
        r
    }

    /// Whether `p` currently bears grass.
    pub fn has_grass_at(&self, p: Position) -> (r: bool)
        ensures
            r == self.grass@.contains(p),
    {
        let mut i: usize = 0;
        while i < self.grass.len()
            invariant
                0 <= i <= self.grass@.len(),
                forall|j: int| 0 <= j < i ==> #[trigger] self.grass@[j] != p,
            decreases self.grass@.len() - i,
        {
            if same_cell(self.grass[i], p) {
                return true;
            }
            i = i + 1;
        }
        false
    }

    /// Index of the first grass entry at `p`, if any.
    fn find_grass(&self, p: Position) -> (r: Option<usize>)
        ensures
            match r {
                Option::Some(j) => j < self.grass@.len() && self.grass@[j as int] == p && forall|
                    k: int,
                |
                    0 <= k < j ==> self.grass@[k] != p,
                Option::None => !self.grass@.contains(p),
            },
    {
        let mut i: usize = 0;
        while i < self.grass.len()
            invariant
                0 <= i <= self.grass@.len(),
                forall|k: int| 0 <= k < i ==> self.grass@[k] != p,
            decreases self.grass@.len() - i,
        {
            if same_cell(self.grass[i], p) {
                return Some(i);
            }
            i = i + 1;
        }
        None
    }

    /// Removes the first grass entry at `p`, reporting whether one was there.
    fn remove_grass(&mut self, p: Position) -> (ate: bool)
        ensures
            final(self).grass@ == old(self).grass@.remove_value(p),
            ate == old(self).grass@.contains(p),
            final(self).mice == old(self).mice,
            final(self).owls == old(self).owls,
            final(self).width == old(self).width,
            final(self).height == old(self).height,
            final(self).dead_mice_total == old(self).dead_mice_total,
            final(self).dead_mice_starved == old(self).dead_mice_starved,
            final(self).dead_mice_eaten == old(self).dead_mice_eaten,
            final(self).dead_mice_old_age == old(self).dead_mice_old_age,
            final(self).dead_owls_old_age == old(self).dead_owls_old_age,
            forall|k: int|
                0 <= k < final(self).grass@.len() ==> old(self).grass@.contains(
                    #[trigger] final(self).grass@[k],
                ),
            old(self).grass@.no_duplicates() ==> final(self).grass@.no_duplicates(),
    {
        proof {
            self.grass@.index_of_first_ensures(p);
        }
        match self.find_grass(p) {
            Option::Some(j) => {
                let ghost old_grass = self.grass@;
                self.grass.remove(j);
                proof {
                    assert(old_grass.index_of_first(p) == Option::Some(j as int));
                    assert(self.grass@ == old_grass.remove_value(p));
                    assert(forall|k: int|
                        0 <= k < self.grass@.len() ==> old_grass.contains(
                            #[trigger] self.grass@[k],
                        )) by {
                        old_grass.remove_ensures(j as int);
                    }
                    if old_grass.no_duplicates() {
                        assert(self.grass@.no_duplicates()) by {
                            old_grass.remove_ensures(j as int);
                            assert forall|a: int, b: int|
                                0 <= a < b < self.grass@.len() implies self.grass@[a]
                                != self.grass@[b] by {
                                let a0 = if a < j { a } else { a + 1 };
                                let b0 = if b < j { b } else { b + 1 };
                                assert(self.grass@[a] == old_grass[a0]);
                                assert(self.grass@[b] == old_grass[b0]);
                            }
                        }
                    }
                }
                true
            },
            Option::None => {
                false
            },
        }
    }

    /// Applies one tick's worth of movement decisions: first the mice in
    /// collection order (`moves[i]` belongs to mouse `i`), then the owls
    /// (`moves[mice.len() + k]` belongs to owl `k`).
    ///
    /// A mouse's move always commits; landing on grass eats it and resets the
    /// mouse's hunger, and any other outcome (moved or not) raises the hunger
    /// by one.  An owl's move commits only if no owl stood on the target
    /// before the tick and no earlier owl moved onto it this tick.
    pub fn apply_moves(&mut self, moves: &Vec<Option<Position>>)
        requires
            old(self).wf(),
            moves@.len() == old(self).mice@.len() + old(self).owls@.len(),
            forall|i: int|
                0 <= i < moves@.len() && (#[trigger] moves@[i]) is Some ==> in_bounds(
                    moves@[i]->Some_0,
                    old(self).width,
                    old(self).height,
                ),
            forall|i: int|
                0 <= i < old(self).mice@.len() ==> (#[trigger] old(self).mice@[i]).ticks_since_last_eaten
                    < u32::MAX,
        ensures
            final(self).width == old(self).width,
            final(self).height == old(self).height,
            final(self).dead_mice_total == old(self).dead_mice_total,
            final(self).dead_mice_starved == old(self).dead_mice_starved,
            final(self).dead_mice_eaten == old(self).dead_mice_eaten,
            final(self).dead_mice_old_age == old(self).dead_mice_old_age,
            final(self).dead_owls_old_age == old(self).dead_owls_old_age,
            final(self).mice@.len() == old(self).mice@.len(),
            final(self).owls@.len() == old(self).owls@.len(),
            forall|i: int|
                0 <= i < old(self).mice@.len() ==> #[trigger] final(self).mice@[i]
                    == mouse_after_moves(
                    old(self).mice@,
                    old(self).grass@,
                    moves@.subrange(0, old(self).mice@.len() as int),
                    i,
                ),
            final(self).grass@ == grass_after_mouse_moves(
                old(self).grass@,
                moves@.subrange(0, old(self).mice@.len() as int),
                old(self).mice@.len() as int,
            ),
            forall|i: int|
                0 <= i < old(self).owls@.len() ==> #[trigger] final(self).owls@[i]
                    == owl_with_location(
                    old(self).owls@[i],
                    owl_loc_after(
                        old(self).owls@,
                        moves@.subrange(
                            old(self).mice@.len() as int,
                            moves@.len() as int,
                        ),
                        i,
                    ),
                ),
            final(self).wf(),
    {
        let mlen: usize = self.mice.len();
        let olen: usize = self.owls.len();
        let total: usize = moves.len();
        let ghost mmoves = moves@.subrange(0, mlen as int);
        let ghost omoves = moves@.subrange(mlen as int, moves@.len() as int);

        // Mice: every move commits, grass is eaten in processing order.
        let mut i: usize = 0;
        while i < mlen
            invariant
                0 <= i <= mlen,
                mlen == old(self).mice@.len(),
                olen == old(self).owls@.len(),
                moves@.len() == mlen + olen,
                total == moves@.len(),
                mmoves == moves@.subrange(0, mlen as int),
                self.mice@.len() == mlen,
                self.owls == old(self).owls,
                self.width == old(self).width,
                self.height == old(self).height,
                self.dead_mice_total == old(self).dead_mice_total,
                self.dead_mice_starved == old(self).dead_mice_starved,
                self.dead_mice_eaten == old(self).dead_mice_eaten,
                self.dead_mice_old_age == old(self).dead_mice_old_age,
                self.dead_owls_old_age == old(self).dead_owls_old_age,
                old(self).wf(),
                forall|k: int|
                    0 <= k < moves@.len() && (#[trigger] moves@[k]) is Some ==> in_bounds(
                        moves@[k]->Some_0,
                        old(self).width,
                        old(self).height,
                    ),
                forall|k: int|
                    0 <= k < mlen ==> (#[trigger] old(self).mice@[k]).ticks_since_last_eaten
                        < u32::MAX,
                self.grass@ == grass_after_mouse_moves(old(self).grass@, mmoves, i as int),
                forall|j: int|
                    0 <= j < i ==> #[trigger] self.mice@[j] == mouse_after_moves(
                        old(self).mice@,
                        old(self).grass@,
                        mmoves,
                        j,
                    ),
                forall|j: int| i <= j < mlen ==> #[trigger] self.mice@[j] == old(self).mice@[j],
                forall|j: int|
                    0 <= j < self.mice@.len() ==> in_bounds(
                        (#[trigger] self.mice@[j]).location,
                        self.width,
                        self.height,
                    ),
                forall|k: int|
                    0 <= k < self.grass@.len() ==> in_bounds(
                        #[trigger] self.grass@[k],
                        self.width,
                        self.height,
                    ),
                self.grass@.no_duplicates(),
            decreases mlen - i,
        {
            match moves[i] {
                Option::Some(t) => {
                    let ate = self.remove_grass(t);
                    self.mice[i].location = t;
                    if ate {
                        self.mice[i].ticks_since_last_eaten = 0;
                    } else {
                        let hunger = self.mice[i].ticks_since_last_eaten;
                        self.mice[i].ticks_since_last_eaten = hunger + 1;
                    }
                    proof {
                        assert(mmoves[i as int] == moves@[i as int]);
                    }
                },
                Option::None => {
                    let hunger = self.mice[i].ticks_since_last_eaten;
                    self.mice[i].ticks_since_last_eaten = hunger + 1;
                    proof {
                        assert(mmoves[i as int] == moves@[i as int]);
                    }
                },
            }
            i = i + 1;
        }

        // Owls: first claim wins; the claims start as all pre-move positions.
        let mut claimed: Vec<Position> = self.owl_positions();
        proof {
            assert forall|q: Position| claimed@.to_set().contains(q) implies owl_positions_set(
                old(self).owls@,
            ).contains(q) by {
                let idx = choose|idx: int| 0 <= idx < claimed@.len() && claimed@[idx] == q;
                assert((old(self).owls@[idx]).location == q);
            }
            assert forall|q: Position| owl_positions_set(old(self).owls@).contains(q)
                implies claimed@.to_set().contains(q) by {
                let idx = choose|idx: int|
                    0 <= idx < old(self).owls@.len() && (#[trigger] old(self).owls@[idx]).location
                        == q;
                assert(claimed@[idx] == q);
                assert(claimed@.contains(q));
            }
            assert(claimed@.to_set() =~= owl_positions_set(old(self).owls@));
        }
        let mut k: usize = 0;
        while k < olen
            invariant
                0 <= k <= olen,
                mlen == old(self).mice@.len(),
                olen == old(self).owls@.len(),
                moves@.len() == mlen + olen,
                total == moves@.len(),
                mmoves == moves@.subrange(0, mlen as int),
                omoves == moves@.subrange(mlen as int, moves@.len() as int),
                self.mice@.len() == mlen,
                self.owls@.len() == olen,
                self.width == old(self).width,
                self.height == old(self).height,
                self.dead_mice_total == old(self).dead_mice_total,
                self.dead_mice_starved == old(self).dead_mice_starved,
                self.dead_mice_eaten == old(self).dead_mice_eaten,
                self.dead_mice_old_age == old(self).dead_mice_old_age,
                self.dead_owls_old_age == old(self).dead_owls_old_age,
                old(self).wf(),
                forall|j: int|
                    0 <= j < moves@.len() && (#[trigger] moves@[j]) is Some ==> in_bounds(
                        moves@[j]->Some_0,
                        old(self).width,
                        old(self).height,
                    ),
                self.grass@ == grass_after_mouse_moves(old(self).grass@, mmoves, mlen as int),
                forall|j: int|
                    0 <= j < mlen ==> #[trigger] self.mice@[j] == mouse_after_moves(
                        old(self).mice@,
                        old(self).grass@,
                        mmoves,
                        j,
                    ),
                forall|j: int|
                    0 <= j < self.mice@.len() ==> in_bounds(
                        (#[trigger] self.mice@[j]).location,
                        self.width,
                        self.height,
                    ),
                forall|j: int|
                    0 <= j < self.grass@.len() ==> in_bounds(
                        #[trigger] self.grass@[j],
                        self.width,
                        self.height,
                    ),
                self.grass@.no_duplicates(),
                claimed@.to_set() == claimed_after(old(self).owls@, omoves, k as int),
                forall|j: int|
                    0 <= j < k ==> #[trigger] self.owls@[j] == owl_with_location(
                        old(self).owls@[j],
                        owl_loc_after(old(self).owls@, omoves, j),
                    ),
                forall|j: int| k <= j < olen ==> #[trigger] self.owls@[j] == old(self).owls@[j],
                forall|j: int|
                    0 <= j < self.owls@.len() ==> in_bounds(
                        (#[trigger] self.owls@[j]).location,
                        self.width,
                        self.height,
                    ),
            decreases olen - k,
        {
            proof {
                assert(omoves[k as int] == moves@[(mlen + k) as int]);
            }
            match moves[mlen + k] {
                Option::Some(t) => {
                    let taken = contains_cell(&claimed, t);
                    if !taken {
                        self.owls[k].location = t;
                        let ghost old_claimed = claimed@;
                        claimed.push(t);
                        proof {
                            assert(claimed@.to_set() =~= old_claimed.to_set().insert(t)) by {
                                assert(forall|j: int|
                                    0 <= j < old_claimed.len() ==> claimed@[j]
                                        == #[trigger] old_claimed[j]);
                                assert(claimed@[old_claimed.len() as int] == t);
                                assert(forall|q: Position|
                                    #[trigger] claimed@.contains(q) ==> (old_claimed.contains(q)
                                        || q == t));
                                assert(forall|q: Position|
                                    #[trigger] old_claimed.contains(q) ==> claimed@.contains(q));
                            }
                        }
                    } else {
                        proof {
                            assert(claimed_after(old(self).owls@, omoves, (k + 1) as int)
                                =~= claimed_after(old(self).owls@, omoves, k as int));
                        }
                    }
                },
                Option::None => {},
            }
            k = k + 1;
        }
    }
    pub fn init_grass(&mut self)
        requires
            old(self).wf(),
        ensures
            final(self).width == old(self).width,
            final(self).height == old(self).height,
            final(self).mice == old(self).mice,
            final(self).owls == old(self).owls,
            final(self).dead_mice_total == old(self).dead_mice_total,
            final(self).dead_mice_starved == old(self).dead_mice_starved,
            final(self).dead_mice_eaten == old(self).dead_mice_eaten,
            final(self).dead_mice_old_age == old(self).dead_mice_old_age,
            final(self).dead_owls_old_age == old(self).dead_owls_old_age,
            final(self).wf(),
            forall|p: Position|
                #[trigger] final(self).grass@.contains(p) <==> (in_bounds(
                    p,
                    old(self).width,
                    old(self).height,
                ) && !old(self).mouse_at(p) && !old(self).owl_at(p)),
            forall|i: int, j: int|
                0 <= i < j < final(self).grass@.len() ==> lex_lt(
                    #[trigger] final(self).grass@[i],
                    #[trigger] final(self).grass@[j],
                ),
    {
        let w: i64 = self.width as i64;
        let h: i64 = self.height as i64;
        self.grass = Vec::new();
        let mut x: i64 = 0;
        while x <= w
            invariant
                self.width == old(self).width,
                self.height == old(self).height,
                self.mice == old(self).mice,
                self.owls == old(self).owls,
                self.dead_mice_total == old(self).dead_mice_total,
                self.dead_mice_starved == old(self).dead_mice_starved,
                self.dead_mice_eaten == old(self).dead_mice_eaten,
                self.dead_mice_old_age == old(self).dead_mice_old_age,
                self.dead_owls_old_age == old(self).dead_owls_old_age,
                w == self.width as int,
                h == self.height as int,
                0 <= w,
                0 <= h,
                0 <= x <= w + 1,
                forall|p: Position|
                    #[trigger] self.grass@.contains(p) <==> (p.0 < x && in_bounds(
                        p,
                        self.width,
                        self.height,
                    ) && !self.mouse_at(p) && !self.owl_at(p)),
                forall|i: int, j: int|
                    0 <= i < j < self.grass@.len() ==> lex_lt(
                        #[trigger] self.grass@[i],
                        #[trigger] self.grass@[j],
                    ),
                forall|i: int| 0 <= i < self.grass@.len() ==> (#[trigger] self.grass@[i]).0 < x,
                forall|i: int|
                    0 <= i < self.grass@.len() ==> in_bounds(
                        #[trigger] self.grass@[i],
                        self.width,
                        self.height,
                    ),
            decreases w + 1 - x,
        {
            let mut y: i64 = 0;
            while y <= h
                invariant
                    self.width == old(self).width,
                    self.height == old(self).height,
                    self.mice == old(self).mice,
                    self.owls == old(self).owls,
                    self.dead_mice_total == old(self).dead_mice_total,
                    self.dead_mice_starved == old(self).dead_mice_starved,
                    self.dead_mice_eaten == old(self).dead_mice_eaten,
                    self.dead_mice_old_age == old(self).dead_mice_old_age,
                    self.dead_owls_old_age == old(self).dead_owls_old_age,
                    w == self.width as int,
                    h == self.height as int,
                    0 <= w,
                    0 <= h,
                    0 <= x <= w,
                    0 <= y <= h + 1,
                    forall|p: Position|
                        #[trigger] self.grass@.contains(p) <==> ((p.0 < x || (p.0 == x && p.1 < y))
                            && in_bounds(p, self.width, self.height) && !self.mouse_at(p)
                            && !self.owl_at(p)),
                    forall|i: int, j: int|
                        0 <= i < j < self.grass@.len() ==> lex_lt(
                            #[trigger] self.grass@[i],
                            #[trigger] self.grass@[j],
                        ),
                    forall|i: int|
                        0 <= i < self.grass@.len() ==> ((#[trigger] self.grass@[i]).0 < x || (
                        self.grass@[i].0 == x && self.grass@[i].1 < y)),
                    forall|i: int|
                        0 <= i < self.grass@.len() ==> in_bounds(
                            #[trigger] self.grass@[i],
                            self.width,
                            self.height,
                        ),
                decreases h + 1 - y,
            {
                let pos: Position = (x as i32, y as i32);
                if !self.has_mouse_at(pos) && !self.has_owl_at(pos) {
                    let ghost old_grass = self.grass@;
                    self.grass.push(pos);
                    proof {
                        assert(forall|p: Position|
                            #[trigger] self.grass@.contains(p) <==> (old_grass.contains(p) || p
                                == pos)) by {
                            assert(forall|p: Position| old_grass.contains(p)
                                ==> #[trigger] self.grass@.contains(p)) by {
                                assert(forall|j: int|
                                    0 <= j < old_grass.len() ==> self.grass@[j] == #[trigger] old_grass[j]);
                            }
                            assert(self.grass@[old_grass.len() as int] == pos);
                        }
                    }
                }
                y = y + 1;
            }
            x = x + 1;
        }
        proof {
            assert(forall|p: Position|
                #[trigger] self.grass@.contains(p) <==> (in_bounds(p, self.width, self.height)
                    && !self.mouse_at(p) && !self.owl_at(p))) by {
                assert(forall|p: Position|
                    in_bounds(p, self.width, self.height) ==> p.0 < x);
            }
            assert(self.grass@.no_duplicates()) by {
                assert(forall|i: int, j: int|
                    0 <= i < j < self.grass@.len() ==> self.grass@[i] != self.grass@[j]) by {
                    assert(forall|i: int, j: int|
                        0 <= i < j < self.grass@.len() ==> lex_lt(
                            #[trigger] self.grass@[i],
                            #[trigger] self.grass@[j],
                        ));
                }
            }
        }
    }

    /// Mice kept by the predation cull: those standing on no owl's cell.
    fn mice_not_caught(mice: &Vec<Mouse>, owls: &Vec<Owl>) -> (kept: Vec<Mouse>)
        ensures
            kept@ == keep_filter(
                mice@,
                |m: Mouse| !any_owl_at(owls@, m.location),
                mice@.len() as int,
            ),
    {
        let ghost pred = |m: Mouse| !any_owl_at(owls@, m.location);
        let mut kept: Vec<Mouse> = Vec::new();
        let mut i: usize = 0;
        while i < mice.len()
            invariant
                0 <= i <= mice@.len(),
                pred == (|m: Mouse| !any_owl_at(owls@, m.location)),
                kept@ == keep_filter(mice@, pred, i as int),
            decreases mice@.len() - i,
        {
            if !owls_on_cell(owls, mice[i].location) {
                kept.push(mice[i].duplicate());
            }
            i = i + 1;
        }
        kept
    }

    /// Mice kept by the starvation cull: those still under the threshold.
    fn mice_not_starved(mice: &Vec<Mouse>) -> (kept: Vec<Mouse>)
        ensures
            kept@ == keep_filter(
                mice@,
                |m: Mouse| m.ticks_since_last_eaten < STARVATION_THRESHOLD,
                mice@.len() as int,
            ),
    {
        let ghost pred = |m: Mouse| m.ticks_since_last_eaten < STARVATION_THRESHOLD;
        let mut kept: Vec<Mouse> = Vec::new();
        let mut i: usize = 0;
        while i < mice.len()
            invariant
                0 <= i <= mice@.len(),
                pred == (|m: Mouse| m.ticks_since_last_eaten < STARVATION_THRESHOLD),
                kept@ == keep_filter(mice@, pred, i as int),
            decreases mice@.len() - i,
        {
            if mice[i].ticks_since_last_eaten < STARVATION_THRESHOLD {
                kept.push(mice[i].duplicate());
            }
            i = i + 1;
        }
        kept
    }

    /// Mice kept by the old-age cull.
    fn mice_not_old(mice: &Vec<Mouse>, max_age: u32) -> (kept: Vec<Mouse>)
        ensures
            kept@ == keep_filter(mice@, |m: Mouse| m.age < max_age, mice@.len() as int),
    {
        let ghost pred = |m: Mouse| m.age < max_age;
        let mut kept: Vec<Mouse> = Vec::new();
        let mut i: usize = 0;
        while i < mice.len()
            invariant
                0 <= i <= mice@.len(),
                pred == (|m: Mouse| m.age < max_age),
                kept@ == keep_filter(mice@, pred, i as int),
            decreases mice@.len() - i,
        {
            if mice[i].age < max_age {
                kept.push(mice[i].duplicate());
            }
            i = i + 1;
        }
        kept
    }

    /// Owls kept by the old-age cull.
    fn owls_not_old(owls: &Vec<Owl>, max_age: u32) -> (kept: Vec<Owl>)
        ensures
            kept@ == keep_filter(owls@, |o: Owl| o.age < max_age, owls@.len() as int),
    {
        let ghost pred = |o: Owl| o.age < max_age;
        let mut kept: Vec<Owl> = Vec::new();
        let mut i: usize = 0;
        while i < owls.len()
            invariant
                0 <= i <= owls@.len(),
                pred == (|o: Owl| o.age < max_age),
                kept@ == keep_filter(owls@, pred, i as int),
            decreases owls@.len() - i,
        {
            if owls[i].age < max_age {
                kept.push(owls[i].duplicate());
            }
            i = i + 1;
        }
        kept
    }

    /// Removes every mouse that shares a cell with some owl, counting each
    /// removal once under `dead_mice_eaten` and once under `dead_mice_total`.
    pub fn remove_caught_mice(&mut self)
        requires
            old(self).dead_mice_total + old(self).mice@.len() <= usize::MAX,
            old(self).dead_mice_eaten + old(self).mice@.len() <= usize::MAX,
        ensures
            final(self).mice@ == keep_filter(
                old(self).mice@,
                |m: Mouse| !any_owl_at(old(self).owls@, m.location),
                old(self).mice@.len() as int,
            ),
            forall|k: int|
                0 <= k < final(self).mice@.len() ==> !any_owl_at(
                    old(self).owls@,
                    (#[trigger] final(self).mice@[k]).location,
                ),
            forall|j: int|
                0 <= j < old(self).mice@.len() && !any_owl_at(
                    old(self).owls@,
                    (#[trigger] old(self).mice@[j]).location,
                ) ==> final(self).mice@.contains(old(self).mice@[j]),
            final(self).dead_mice_eaten == old(self).dead_mice_eaten + (old(self).mice@.len()
                - final(self).mice@.len()),
            final(self).dead_mice_total == old(self).dead_mice_total + (old(self).mice@.len()
                - final(self).mice@.len()),
            final(self).owls == old(self).owls,
            final(self).grass == old(self).grass,
            final(self).width == old(self).width,
            final(self).height == old(self).height,
            final(self).dead_mice_starved == old(self).dead_mice_starved,
            final(self).dead_mice_old_age == old(self).dead_mice_old_age,
            final(self).dead_owls_old_age == old(self).dead_owls_old_age,
            old(self).wf() ==> final(self).wf(),
    {
        let ghost pred = |m: Mouse| !any_owl_at(old(self).owls@, m.location);
        proof {
            lemma_keep_filter_props(old(self).mice@, pred, old(self).mice@.len() as int);
        }
        let before: usize = self.mice.len();
        let kept = Self::mice_not_caught(&self.mice, &self.owls);
        let after: usize = kept.len();
        self.mice = kept;
        let killed: usize = before - after;
        self.dead_mice_total = self.dead_mice_total + killed;
        self.dead_mice_eaten = self.dead_mice_eaten + killed;
    }

    /// Removes every mouse whose hunger has reached the starvation threshold,
    /// counting each removal once under `dead_mice_starved` and once under
    /// `dead_mice_total`.
    pub fn remove_starved_mice(&mut self)
        requires
            old(self).dead_mice_total + old(self).mice@.len() <= usize::MAX,
            old(self).dead_mice_starved + old(self).mice@.len() <= usize::MAX,
        ensures
            final(self).mice@ == keep_filter(
                old(self).mice@,
                |m: Mouse| m.ticks_since_last_eaten < STARVATION_THRESHOLD,
                old(self).mice@.len() as int,
            ),
            forall|k: int|
                0 <= k < final(self).mice@.len() ==> (#[trigger] final(self).mice@[k]).ticks_since_last_eaten
                    < STARVATION_THRESHOLD,
            forall|j: int|
                0 <= j < old(self).mice@.len() && (#[trigger] old(self).mice@[j]).ticks_since_last_eaten
                    < STARVATION_THRESHOLD ==> final(self).mice@.contains(old(self).mice@[j]),
            final(self).dead_mice_starved == old(self).dead_mice_starved + (old(self).mice@.len()
                - final(self).mice@.len()),
            final(self).dead_mice_total == old(self).dead_mice_total + (old(self).mice@.len()
                - final(self).mice@.len()),
            final(self).owls == old(self).owls,
            final(self).grass == old(self).grass,
            final(self).width == old(self).width,
            final(self).height == old(self).height,
            final(self).dead_mice_eaten == old(self).dead_mice_eaten,
            final(self).dead_mice_old_age == old(self).dead_mice_old_age,
            final(self).dead_owls_old_age == old(self).dead_owls_old_age,
            old(self).wf() ==> final(self).wf(),
    {
        let ghost pred = |m: Mouse| m.ticks_since_last_eaten < STARVATION_THRESHOLD;
        proof {
            lemma_keep_filter_props(old(self).mice@, pred, old(self).mice@.len() as int);
        }
        let before: usize = self.mice.len();
        let kept = Self::mice_not_starved(&self.mice);
        let after: usize = kept.len();
        self.mice = kept;
        let killed: usize = before - after;
        self.dead_mice_total = self.dead_mice_total + killed;
        self.dead_mice_starved = self.dead_mice_starved + killed;
    }

    /// Ages every animal by one tick, then removes mice and owls that have
    /// reached their species' maximum age, counting the removals under the
    /// old-age counters (and, for mice, under `dead_mice_total` as well).
    pub fn age_and_remove_old(&mut self, max_mouse_age: u32, max_owl_age: u32)
        requires
            old(self).dead_mice_total + old(self).mice@.len() <= usize::MAX,
            old(self).dead_mice_old_age + old(self).mice@.len() <= usize::MAX,
            old(self).dead_owls_old_age + old(self).owls@.len() <= usize::MAX,
            forall|i: int| 0 <= i < old(self).mice@.len() ==> (#[trigger] old(self).mice@[i]).age < u32::MAX,
            forall|i: int| 0 <= i < old(self).owls@.len() ==> (#[trigger] old(self).owls@[i]).age < u32::MAX,
        ensures
            final(self).mice@ == keep_filter(
                old(self).mice@.map_values(|m: Mouse| aged_mouse(m)),
                |m: Mouse| m.age < max_mouse_age,
                old(self).mice@.len() as int,
            ),
            final(self).owls@ == keep_filter(
                old(self).owls@.map_values(|o: Owl| aged_owl(o)),
                |o: Owl| o.age < max_owl_age,
                old(self).owls@.len() as int,
            ),
            forall|k: int|
                0 <= k < final(self).mice@.len() ==> (#[trigger] final(self).mice@[k]).age
                    < max_mouse_age,
            forall|k: int|
                0 <= k < final(self).owls@.len() ==> (#[trigger] final(self).owls@[k]).age
                    < max_owl_age,
            final(self).dead_mice_old_age == old(self).dead_mice_old_age + (old(self).mice@.len()
                - final(self).mice@.len()),
            final(self).dead_mice_total == old(self).dead_mice_total + (old(self).mice@.len()
                - final(self).mice@.len()),
            final(self).dead_owls_old_age == old(self).dead_owls_old_age + (old(self).owls@.len()
                - final(self).owls@.len()),
            final(self).grass == old(self).grass,
            final(self).width == old(self).width,
            final(self).height == old(self).height,
            final(self).dead_mice_starved == old(self).dead_mice_starved,
            final(self).dead_mice_eaten == old(self).dead_mice_eaten,
            old(self).wf() ==> final(self).wf(),
            owls_distinct(old(self).owls@) ==> owls_distinct(final(self).owls@),
    {
        let ghost aged_mice = old(self).mice@.map_values(|m: Mouse| aged_mouse(m));
        let ghost aged_owls = old(self).owls@.map_values(|o: Owl| aged_owl(o));
        let mut i: usize = 0;
        while i < self.mice.len()
            invariant
                0 <= i <= self.mice@.len(),
                self.mice@.len() == old(self).mice@.len(),
                aged_mice == old(self).mice@.map_values(|m: Mouse| aged_mouse(m)),
                forall|k: int| 0 <= k < old(self).mice@.len() ==> (#[trigger] old(self).mice@[k]).age < u32::MAX,
                forall|j: int| 0 <= j < i ==> #[trigger] self.mice@[j] == aged_mice[j],
                forall|j: int| i <= j < self.mice@.len() ==> #[trigger] self.mice@[j] == old(self).mice@[j],
                self.owls == old(self).owls,
                self.grass == old(self).grass,
                self.width == old(self).width,
                self.height == old(self).height,
                self.dead_mice_total == old(self).dead_mice_total,
                self.dead_mice_starved == old(self).dead_mice_starved,
                self.dead_mice_eaten == old(self).dead_mice_eaten,
                self.dead_mice_old_age == old(self).dead_mice_old_age,
                self.dead_owls_old_age == old(self).dead_owls_old_age,
            decreases self.mice@.len() - i,
        {
            let a = self.mice[i].age;
            self.mice[i].age = a + 1;
            i = i + 1;
        }
        let mut k: usize = 0;
        while k < self.owls.len()
            invariant
                0 <= k <= self.owls@.len(),
                self.owls@.len() == old(self).owls@.len(),
                aged_owls == old(self).owls@.map_values(|o: Owl| aged_owl(o)),
                forall|q: int| 0 <= q < old(self).owls@.len() ==> (#[trigger] old(self).owls@[q]).age < u32::MAX,
                forall|j: int| 0 <= j < k ==> #[trigger] self.owls@[j] == aged_owls[j],
                forall|j: int| k <= j < self.owls@.len() ==> #[trigger] self.owls@[j] == old(self).owls@[j],
                self.mice@ == aged_mice,
                self.grass == old(self).grass,
                self.width == old(self).width,
                self.height == old(self).height,
                self.dead_mice_total == old(self).dead_mice_total,
                self.dead_mice_starved == old(self).dead_mice_starved,
                self.dead_mice_eaten == old(self).dead_mice_eaten,
                self.dead_mice_old_age == old(self).dead_mice_old_age,
                self.dead_owls_old_age == old(self).dead_owls_old_age,
            decreases self.owls@.len() - k,
        {
            let a = self.owls[k].age;
            self.owls[k].age = a + 1;
            k = k + 1;
        }
        proof {
            assert(self.mice@ =~= aged_mice);
            assert(self.owls@ =~= aged_owls);
            lemma_keep_filter_props(aged_mice, |m: Mouse| m.age < max_mouse_age, aged_mice.len() as int);
            lemma_keep_filter_props(aged_owls, |o: Owl| o.age < max_owl_age, aged_owls.len() as int);
            if owls_distinct(old(self).owls@) {
                lemma_keep_filter_pairwise(
                    aged_owls,
                    |o: Owl| o.age < max_owl_age,
                    aged_owls.len() as int,
                    |a: Owl, b: Owl| a.location != b.location,
                );
            }
        }
        let before_mice: usize = self.mice.len();
        let kept_mice = Self::mice_not_old(&self.mice, max_mouse_age);
        let after_mice: usize = kept_mice.len();
        self.mice = kept_mice;
        let mice_killed: usize = before_mice - after_mice;
        self.dead_mice_total = self.dead_mice_total + mice_killed;
        self.dead_mice_old_age = self.dead_mice_old_age + mice_killed;

        let before_owls: usize = self.owls.len();
        let kept_owls = Self::owls_not_old(&self.owls, max_owl_age);
        let after_owls: usize = kept_owls.len();
        self.owls = kept_owls;
        let owls_killed: usize = before_owls - after_owls;
        self.dead_owls_old_age = self.dead_owls_old_age + owls_killed;
    }

    /// What cell `p` shows when rendered.
    pub fn cell_kind(&self, p: Position) -> (r: CellKind)
        ensures
            r is MouseCell <==> self.mouse_at(p),
            r matches CellKind::MouseCell(sx) ==> exists|i: int|
                0 <= i < self.mice@.len() && (#[trigger] self.mice@[i]).location == p
                    && self.mice@[i].sex == sx && (forall|j: int|
                    0 <= j < i ==> (#[trigger] self.mice@[j]).location != p),
            r is OwlCell <==> (!self.mouse_at(p) && self.owl_at(p)),
            r is Grass <==> (!self.mouse_at(p) && !self.owl_at(p) && self.grass@.contains(p)),
            r is Empty <==> (!self.mouse_at(p) && !self.owl_at(p) && !self.grass@.contains(p)),
    {
        let mut i: usize = 0;
        while i < self.mice.len()
            invariant
                0 <= i <= self.mice@.len(),
                forall|j: int| 0 <= j < i ==> (#[trigger] self.mice@[j]).location != p,
            decreases self.mice@.len() - i,
        {
            if same_cell(self.mice[i].location, p) {
                return CellKind::MouseCell(self.mice[i].sex);
            }
            i = i + 1;
        }
        if self.has_owl_at(p) {
            CellKind::OwlCell
        } else if self.has_grass_at(p) {
            CellKind::Grass
        } else {
            CellKind::Empty
        }
    }
}

} // verus!
