//! The tile world: its size, the fighters on it and where enemies may walk.
use vstd::prelude::*;
use crate::chance::random_in_range;
use crate::ennemi::{is_cardinal, Ennemi, MAX_MOVE_DELAY_MS, MIN_MOVE_DELAY_MS};
use crate::joueur::Joueur;
use crate::types::{saturating_add_spec, Combatant, Position};

verus! {

pub struct World {
    pub width: usize,
    pub height: usize,
    pub players: Vec<Joueur>,
    pub enemies: Vec<Ennemi>,
    /// True while a combat holds the enemies in place.
    pub enemies_frozen: bool,
    /// Which cells enemies may walk on, row by row.
    pub walkable: Vec<Vec<bool>>,
}

/// The fighter is alive and stands on `(x, y)`.
pub open spec fn alive_at<C: Combatant>(c: C, x: int, y: int) -> bool {
    c.spec_stats().vie > 0 && c.spec_position().x == x && c.spec_position().y == y
}

/// No two living enemies share a cell.
pub open spec fn alive_positions_distinct(es: Seq<Ennemi>) -> bool {
    forall|a: int, b: int|
        0 <= a < es.len() && 0 <= b < es.len() && a != b && #[trigger] es[a].spec_stats().vie > 0
            && #[trigger] es[b].spec_stats().vie > 0 ==> es[a].spec_position() != es[b].spec_position()
}

/// The cells on which a living enemy stands.
pub open spec fn alive_position_set(es: Seq<Ennemi>) -> Set<Position> {
    Set::new(|p: Position| exists|j: int| 0 <= j < es.len() && es[j].spec_stats().vie > 0 && #[trigger] es[j].spec_position() == p)
}

/// `i` is the first index whose player has identifier `id`.
pub open spec fn is_first_with_id(players: Seq<Joueur>, id: usize, i: int) -> bool {
    &&& 0 <= i < players.len()
    &&& players[i].spec_id() == id
    &&& forall|j: int| 0 <= j < i ==> #[trigger] players[j].spec_id() != id
}

/// The cell reached from `pos` by the step `(dx, dy)`, each coordinate read as
/// an `isize`.
pub open spec fn step_target(pos: Position, dx: isize, dy: isize) -> (int, int) {
    ((pos.x as isize) + dx, (pos.y as isize) + dy)
}

/// The step from `pos` stays within `isize`.
pub open spec fn step_fits(pos: Position, dx: isize, dy: isize) -> bool {
    &&& isize::MIN <= (pos.x as isize) + dx <= isize::MAX
    &&& isize::MIN <= (pos.y as isize) + dy <= isize::MAX
}

/// The timer of `o` advanced by `dt_ms` as `Ennemi::tick_timer` does, giving `n`.
pub open spec fn timer_ticked(o: Ennemi, n: Ennemi, dt_ms: u32) -> bool {
    let t = saturating_add_spec(o.spec_move_timer(), dt_ms);
    if t >= o.spec_move_delay() {
        n.spec_move_timer() == 0 && MIN_MOVE_DELAY_MS <= n.spec_move_delay() <= MAX_MOVE_DELAY_MS
    } else {
        n.spec_move_timer() == t && n.spec_move_delay() == o.spec_move_delay()
    }
}

/// `timer` plus `dt_ms` reaches `delay`: the enemy is due to move.
pub open spec fn timer_fires(o: Ennemi, dt_ms: u32) -> bool {
    saturating_add_spec(o.spec_move_timer(), dt_ms) >= o.spec_move_delay()
}

/// `q` is one unit step along one axis away from `p`, the coordinates of `p`
/// read as `isize` (for coordinates up to `isize::MAX`, the plain neighbours).
pub open spec fn is_neighbor(p: Position, q: Position) -> bool {
    let px = (p.x as isize) as int;
    let py = (p.y as isize) as int;
    ||| q.x == px && (q.y == py - 1 || q.y == py + 1)
    ||| q.y == py && (q.x == px - 1 || q.x == px + 1)
}

/// The timer of `o` advanced by `dt_ms` as `Ennemi::tick_timer_with(dt_ms,
/// delay)` does, giving `n`.
pub open spec fn delay_ticked(o: Ennemi, n: Ennemi, dt_ms: u32, delay: u32) -> bool {
    let t = saturating_add_spec(o.spec_move_timer(), dt_ms);
    if t >= o.spec_move_delay() {
        n.spec_move_timer() == 0 && n.spec_move_delay() == delay
    } else {
        n.spec_move_timer() == t && n.spec_move_delay() == o.spec_move_delay()
    }
}

/// The drawn steps, each enemy's four as a sequence.
pub open spec fn draws_view(dirs: Seq<[(isize, isize); 4]>) -> Seq<Seq<(isize, isize)>> {
    dirs.map_values(|a: [(isize, isize); 4]| a@)
}

impl World {
    /// The walkability grid, row by row.
    pub open spec fn walkable_view(&self) -> Seq<Seq<bool>> {
        self.walkable@.map_values(|row: Vec<bool>| row@)
    }

    /// The cell `(x, y)` lies in the walkability grid and is walkable.
    pub open spec fn cell_walkable(&self, x: int, y: int) -> bool {
        &&& 0 <= y < self.walkable_view().len()
        &&& 0 <= x < self.walkable_view()[y].len()
        &&& self.walkable_view()[y][x]
    }

    /// The cell `(x, y)` lies in the world.
    pub open spec fn within(&self, x: int, y: int) -> bool {
        0 <= x < self.width && 0 <= y < self.height
    }

    /// No living player and no living enemy stands on `(x, y)`.
    pub open spec fn cell_free(&self, x: int, y: int) -> bool {
        &&& forall|i: int| 0 <= i < self.players@.len() ==> !alive_at(#[trigger] self.players@[i], x, y)
        &&& forall|i: int| 0 <= i < self.enemies@.len() ==> !alive_at(#[trigger] self.enemies@[i], x, y)
    }

    /// The player at index `i` may step by `(dx, dy)`: it is alive, the target
    /// lies in the world, and the target is its own cell or a free one.
    pub open spec fn move_allowed(&self, i: int, dx: isize, dy: isize) -> bool {
        let p = self.players@[i];
        let (nx, ny) = step_target(p.spec_position(), dx, dy);
        &&& p.spec_stats().vie > 0
        &&& self.within(nx, ny)
        &&& ((nx == p.spec_position().x && ny == p.spec_position().y) || self.cell_free(nx, ny))
    }

    /// `World::move_player(id, dx, dy)` succeeds on this world.
    pub open spec fn move_succeeds(&self, id: usize, dx: isize, dy: isize) -> bool {
        exists|i: int| is_first_with_id(self.players@, id, i) && self.move_allowed(i, dx, dy)
    }

    /// `after` is this world once `move_player(id, dx, dy)` has run: if the move
    /// succeeds, the first player with identifier `id` stands on the target
    /// cell and nothing else differs; otherwise nothing differs at all.
    pub open spec fn player_moved(&self, after: World, id: usize, dx: isize, dy: isize) -> bool {
        if self.move_succeeds(id, dx, dy) {
            &&& exists|i: int| {
                &&& is_first_with_id(self.players@, id, i)
                &&& after.players@.len() == self.players@.len()
                &&& forall|j: int| 0 <= j < self.players@.len() && j != i
                    ==> #[trigger] after.players@[j] == self.players@[j]
                &&& after.players@[i].spec_position().x == step_target(self.players@[i].spec_position(), dx, dy).0
                &&& after.players@[i].spec_position().y == step_target(self.players@[i].spec_position(), dx, dy).1
                &&& after.players@[i].spec_stats() == self.players@[i].spec_stats()
                &&& after.players@[i].spec_id() == self.players@[i].spec_id()
            }
            &&& after.enemies@ == self.enemies@
            &&& after.width == self.width
            &&& after.height == self.height
            &&& after.enemies_frozen == self.enemies_frozen
            &&& after.walkable == self.walkable
        } else {
            after == *self
        }
    }

    /// Index of the first living enemy on `(x, y)`, if any.
    pub fn find_enemy_on_tile(&self, x: usize, y: usize) -> (r: Option<usize>)
        ensures
            match r {
                Some(i) => {
                    &&& i < self.enemies@.len()
                    &&& alive_at(self.enemies@[i as int], x as int, y as int)
                    &&& forall|j: int| 0 <= j < i ==> !alive_at(#[trigger] self.enemies@[j], x as int, y as int)
                },
                None => forall|j: int| 0 <= j < self.enemies@.len() ==> !alive_at(#[trigger] self.enemies@[j], x as int, y as int),
            },
    {
        let n = self.enemies.len();
        for i in 0..n
            invariant
                n == self.enemies@.len(),
                forall|j: int| 0 <= j < i ==> !alive_at(#[trigger] self.enemies@[j], x as int, y as int),
        {
            let e = &self.enemies[i];
            let pos = e.position();
            if e.est_vivant() && pos.x == x && pos.y == y {
                return Some(i);
            }
        }
        None
    }

    /// An empty world of the given size on which every cell is walkable.
    pub fn new(width: usize, height: usize) -> (w: Self)
        ensures
            w.width == width,
            w.height == height,
            w.players@.len() == 0,
            w.enemies@.len() == 0,
            !w.enemies_frozen,
            w.walkable_view().len() == height,
            forall|y: int| 0 <= y < height ==> #[trigger] w.walkable_view()[y].len() == width,
            forall|x: int, y: int| 0 <= x < width && 0 <= y < height ==> w.cell_walkable(x, y),
    {
        let mut walkable: Vec<Vec<bool>> = Vec::new();
        for y in 0..height
            invariant
                walkable@.len() == y,
                forall|r: int| 0 <= r < y ==> #[trigger] walkable@[r]@.len() == width,
                forall|r: int, c: int| 0 <= r < y && 0 <= c < width ==> #[trigger] walkable@[r]@[c],
        {
            let mut row: Vec<bool> = Vec::new();
            for x in 0..width
                invariant
                    row@.len() == x,
                    forall|c: int| 0 <= c < x ==> #[trigger] row@[c],
            {
                row.push(true);
            }
            walkable.push(row);
        }
        let w = World { width, height, players: Vec::new(), enemies: Vec::new(), enemies_frozen: false, walkable };
        assert forall|x: int, y: int| 0 <= x < width && 0 <= y < height implies w.cell_walkable(x, y) by {
            assert(w.walkable_view()[y] == w.walkable@[y]@);
        }
        w
    }

    pub fn add_player(&mut self, p: Joueur)
        ensures
            final(self).players@ == old(self).players@.push(p),
            final(self).enemies@ == old(self).enemies@,
            final(self).width == old(self).width,
            final(self).height == old(self).height,
            final(self).enemies_frozen == old(self).enemies_frozen,
            final(self).walkable == old(self).walkable,
    {
        self.players.push(p);
    }

    pub fn add_enemy(&mut self, e: Ennemi)
        ensures
            final(self).enemies@ == old(self).enemies@.push(e),
            final(self).players@ == old(self).players@,
            final(self).width == old(self).width,
            final(self).height == old(self).height,
            final(self).enemies_frozen == old(self).enemies_frozen,
            final(self).walkable == old(self).walkable,
    {
        self.enemies.push(e);
    }

    /// The cell `(x, y)` lies in the world.
    pub fn is_within(&self, x: isize, y: isize) -> (r: bool)
        ensures
            r == self.within(x as int, y as int),
    {
        x >= 0 && y >= 0 && (x as usize) < self.width && (y as usize) < self.height
    }

    /// No living player and no living enemy stands on `(x, y)`.
    pub(crate) fn is_cell_free(&self, x: usize, y: usize) -> (r: bool)
        ensures
            r == self.cell_free(x as int, y as int),
    {
        let np = self.players.len();
        for i in 0..np
            invariant
                np == self.players@.len(),
                forall|j: int| 0 <= j < i ==> !alive_at(#[trigger] self.players@[j], x as int, y as int),
        {
            let p = &self.players[i];
            let pos = p.position();
            if p.est_vivant() && pos.x == x && pos.y == y {
                return false;
            }
        }
        let ne = self.enemies.len();
        for i in 0..ne
            invariant
                ne == self.enemies@.len(),
                forall|j: int| 0 <= j < np ==> !alive_at(#[trigger] self.players@[j], x as int, y as int),
                forall|j: int| 0 <= j < i ==> !alive_at(#[trigger] self.enemies@[j], x as int, y as int),
        {
            let e = &self.enemies[i];
            let pos = e.position();
            if e.est_vivant() && pos.x == x && pos.y == y {
                return false;
            }
        }
        true
    }

    /// Moves the first player with identifier `player_id` by `(dx, dy)`. The
    /// move happens, and the result is `true`, exactly when that player is
    /// alive, the target lies in the world and the target is its own cell or a
    /// cell that no living fighter holds. Nothing else changes.
    pub fn move_player(&mut self, player_id: usize, dx: isize, dy: isize) -> (r: bool)
        requires
            forall|i: int|
                0 <= i < old(self).players@.len() && #[trigger] old(self).players@[i].spec_id() == player_id
                    ==> step_fits(old(self).players@[i].spec_position(), dx, dy),
        ensures
            r == old(self).move_succeeds(player_id, dx, dy),
            old(self).player_moved(*final(self), player_id, dx, dy),
    {
        let n = self.players.len();
        let mut idx: usize = 0;
        while idx < n && self.players[idx].id() != player_id
            invariant
                n == self.players@.len(),
                idx <= n,
                forall|j: int| 0 <= j < idx ==> #[trigger] self.players@[j].spec_id() != player_id,
            decreases n - idx,
        {
            idx = idx + 1;
        }
        if idx == n {
            assert forall|i: int| !is_first_with_id(self.players@, player_id, i) by {
                if 0 <= i < n {
                    assert(self.players@[i].spec_id() != player_id);
                }
            }
            return false;
        }
        let ghost gi = idx as int;
        assert(is_first_with_id(self.players@, player_id, gi));
        assert forall|i: int| is_first_with_id(self.players@, player_id, i) implies i == gi by {
            if i < gi {
                assert(self.players@[i].spec_id() != player_id);
            } else if i > gi {
                assert(self.players@[gi].spec_id() != player_id);
            }
        }
        if !self.players[idx].est_vivant() {
            return false;
        }
        let current = self.players[idx].position();
        #[verifier::truncate]
        let nx = (current.x as isize) + dx;
        #[verifier::truncate]
        let ny = (current.y as isize) + dy;
        if self.is_within(nx, ny) {
            let nxu = nx as usize;
            let nyu = ny as usize;
            let can_move = (nxu == current.x && nyu == current.y) || self.is_cell_free(nxu, nyu);
            if can_move {
                assert(self.move_allowed(gi, dx, dy));
                assert(self.move_succeeds(player_id, dx, dy));
                let pos = self.players[idx].position_mut();
                pos.x = nxu;
                pos.y = nyu;
                return true;
            }
        }
        false
    }

    /// The enemy at index `i` of this world may step to `p`: it is alive, its
    /// timer fires after `dt_ms`, and `p` is a walkable neighbour cell inside
    /// the world.
    pub open spec fn enemy_step_allowed(&self, i: int, dt_ms: u32, p: Position) -> bool {
        let o = self.enemies@[i];
        &&& o.spec_stats().vie > 0
        &&& timer_fires(o, dt_ms)
        &&& is_neighbor(o.spec_position(), p)
        &&& self.within(p.x as int, p.y as int)
        &&& self.cell_walkable(p.x as int, p.y as int)
    }

    /// What `wander_enemies` may make of the enemy at index `i`, ending as `n`.
    pub open spec fn enemy_wandered(&self, i: int, dt_ms: u32, n: Ennemi) -> bool {
        let o = self.enemies@[i];
        if dt_ms == 0 || self.enemies_frozen || o.spec_stats().vie == 0 {
            n == o
        } else {
            &&& timer_ticked(o, n, dt_ms)
            &&& n.spec_id() == o.spec_id()
            &&& n.spec_stats() == o.spec_stats()
            &&& (n.spec_position() == o.spec_position() || self.enemy_step_allowed(i, dt_ms, n.spec_position()))
        }
    }

    /// The first of the steps `dirs` that takes `cur` to a cell inside the
    /// world, walkable, and not in `occ`.
    pub open spec fn first_open_step(&self, cur: Position, dirs: Seq<(isize, isize)>, occ: Set<Position>) -> Option<Position>
        decreases dirs.len(),
    {
        if dirs.len() == 0 {
            None
        } else {
            let (nx, ny) = step_target(cur, dirs[0].0, dirs[0].1);
            let p = Position { x: nx as usize, y: ny as usize };
            if self.within(nx, ny) && self.cell_walkable(nx, ny) && !occ.contains(p) {
                Some(p)
            } else {
                self.first_open_step(cur, dirs.drop_first(), occ)
            }
        }
    }

    /// Where enemy `i` steps on its turn, the cells in `occ` being held: to
    /// the first open cell among its drawn steps `dirs[i]`, if it is alive and
    /// its timer fires after `dt_ms`.
    pub open spec fn wander_move(&self, dt_ms: u32, dirs: Seq<Seq<(isize, isize)>>, i: int, occ: Set<Position>) -> Option<Position> {
        let o = self.enemies@[i];
        if dt_ms == 0 || self.enemies_frozen || o.spec_stats().vie == 0 || !timer_fires(o, dt_ms) {
            None
        } else {
            self.first_open_step(o.spec_position(), dirs[i], occ)
        }
    }

    /// The cells counted as held once the first `k` enemies had their turn: at
    /// first those of the living enemies; an enemy that steps gives up its cell
    /// and takes the new one.
    pub open spec fn occupied_after(&self, dt_ms: u32, dirs: Seq<Seq<(isize, isize)>>, k: int) -> Set<Position>
        decreases k,
    {
        if k <= 0 {
            alive_position_set(self.enemies@)
        } else {
            let occ = self.occupied_after(dt_ms, dirs, k - 1);
            match self.wander_move(dt_ms, dirs, k - 1, occ) {
                Some(p) => occ.remove(self.enemies@[k - 1].spec_position()).insert(p),
                None => occ,
            }
        }
    }

    /// `n` is enemy `i` after its turn with the draws `dirs` and `delays`.
    pub open spec fn enemy_turn(&self, i: int, dt_ms: u32, dirs: Seq<Seq<(isize, isize)>>, delays: Seq<u32>, n: Ennemi) -> bool {
        let o = self.enemies@[i];
        if dt_ms == 0 || self.enemies_frozen || o.spec_stats().vie == 0 {
            n == o
        } else {
            &&& delay_ticked(o, n, dt_ms, delays[i])
            &&& n.spec_id() == o.spec_id()
            &&& n.spec_stats() == o.spec_stats()
            &&& n.spec_position() == match self.wander_move(dt_ms, dirs, i, self.occupied_after(dt_ms, dirs, i)) {
                Some(p) => p,
                None => o.spec_position(),
            }
        }
    }

    /// `after` is this world once its enemies wandered for `dt_ms`, taking
    /// turns in index order, with the draws `dirs` (the steps each enemy
    /// tries, in order) and `delays` (the delay each enemy waits next when its
    /// timer fires).
    pub open spec fn wandered_with(&self, after: World, dt_ms: u32, dirs: Seq<Seq<(isize, isize)>>, delays: Seq<u32>) -> bool {
        &&& after.players@ == self.players@
        &&& after.width == self.width
        &&& after.height == self.height
        &&& after.enemies_frozen == self.enemies_frozen
        &&& after.walkable == self.walkable
        &&& after.enemies@.len() == self.enemies@.len()
        &&& forall|i: int| 0 <= i < self.enemies@.len() ==> self.enemy_turn(i, dt_ms, dirs, delays, #[trigger] after.enemies@[i])
    }

    /// Lets each living enemy wander: when its timer fires after `dt_ms`, it
    /// tries up to four random unit steps and takes the first that stays in
    /// the world, on a walkable cell, and off every cell held by a living
    /// enemy; its next delay is drawn anew. Players may be stepped onto.
    /// Nothing moves while the enemies are frozen or when `dt_ms` is zero.
    /// Living enemies that stand on distinct cells still do afterwards.
    pub fn wander_enemies(&mut self, dt_ms: u32)
        requires
            old(self).width <= isize::MAX,
            old(self).height <= isize::MAX,
            forall|i: int| 0 <= i < old(self).enemies@.len() ==> {
                &&& step_fits(#[trigger] old(self).enemies@[i].spec_position(), -1isize, -1isize)
                &&& step_fits(old(self).enemies@[i].spec_position(), 1isize, 1isize)
            },
        ensures
            exists|dirs: Seq<Seq<(isize, isize)>>, delays: Seq<u32>| {
                &&& dirs.len() == old(self).enemies@.len()
                &&& delays.len() == old(self).enemies@.len()
                &&& forall|i: int| 0 <= i < dirs.len() ==> (#[trigger] dirs[i]).len() == 4
                &&& forall|i: int, k: int| 0 <= i < dirs.len() && 0 <= k < 4 ==> is_cardinal(#[trigger] dirs[i][k])
                &&& forall|i: int| 0 <= i < delays.len() ==> MIN_MOVE_DELAY_MS <= #[trigger] delays[i] <= MAX_MOVE_DELAY_MS
                &&& #[trigger] old(self).wandered_with(*final(self), dt_ms, dirs, delays)
            },
            final(self).players@ == old(self).players@,
            final(self).width == old(self).width,
            final(self).height == old(self).height,
            final(self).enemies_frozen == old(self).enemies_frozen,
            final(self).walkable == old(self).walkable,
            final(self).enemies@.len() == old(self).enemies@.len(),
            forall|i: int| 0 <= i < old(self).enemies@.len()
                ==> old(self).enemy_wandered(i, dt_ms, #[trigger] final(self).enemies@[i]),
            alive_positions_distinct(old(self).enemies@) ==> alive_positions_distinct(final(self).enemies@),
    {
        let n = self.enemies.len();
        let mut dirs: Vec<[(isize, isize); 4]> = Vec::new();
        let mut delays: Vec<u32> = Vec::new();
        for i in 0..n
            invariant
                n == self.enemies@.len(),
                dirs@.len() == i,
                delays@.len() == i,
                forall|j: int, k: int| 0 <= j < i && 0 <= k < 4 ==> is_cardinal(#[trigger] dirs@[j]@[k]),
                forall|j: int| 0 <= j < i ==> MIN_MOVE_DELAY_MS <= #[trigger] delays@[j] <= MAX_MOVE_DELAY_MS,
        {
            let e = &self.enemies[i];
            let steps = [e.random_dir(), e.random_dir(), e.random_dir(), e.random_dir()];
            let ghost before = dirs@;
            dirs.push(steps);
            delays.push(random_in_range(500, 3000) as u32);
            proof {
                assert forall|j: int, k: int| 0 <= j < i + 1 && 0 <= k < 4 implies is_cardinal(#[trigger] dirs@[j]@[k]) by {
                    if j < i {
                        assert(dirs@[j] == before[j]);
                    }
                }
            }
        }
        self.wander_with_draws(dt_ms, &dirs, &delays);
        proof {
            let dv = draws_view(dirs@);
            assert forall|i: int| 0 <= i < dv.len() implies (#[trigger] dv[i]).len() == 4 by {}
            assert forall|i: int, k: int| 0 <= i < dv.len() && 0 <= k < 4 implies is_cardinal(#[trigger] dv[i][k]) by {
                assert(dv[i] == dirs@[i]@);
            }
        }
    }

    /// Lets each living enemy wander as `wander_enemies` does, with the draws
    /// given: `dirs[i]` holds the four steps enemy `i` tries, in order, and
    /// `delays[i]` the delay it waits next when its timer fires. Enemies take
    /// their turns in index order, as `wandered_with` says.
    pub fn wander_with_draws(&mut self, dt_ms: u32, dirs: &Vec<[(isize, isize); 4]>, delays: &Vec<u32>)
        requires
            old(self).width <= isize::MAX,
            old(self).height <= isize::MAX,
            forall|i: int| 0 <= i < old(self).enemies@.len() ==> {
                &&& step_fits(#[trigger] old(self).enemies@[i].spec_position(), -1isize, -1isize)
                &&& step_fits(old(self).enemies@[i].spec_position(), 1isize, 1isize)
            },
            dirs@.len() == old(self).enemies@.len(),
            delays@.len() == old(self).enemies@.len(),
            forall|i: int, k: int| 0 <= i < dirs@.len() && 0 <= k < 4 ==> is_cardinal(#[trigger] dirs@[i]@[k]),
            forall|i: int| 0 <= i < delays@.len() ==> MIN_MOVE_DELAY_MS <= #[trigger] delays@[i] <= MAX_MOVE_DELAY_MS,
        ensures
            old(self).wandered_with(*final(self), dt_ms, draws_view(dirs@), delays@),
            final(self).players@ == old(self).players@,
            final(self).width == old(self).width,
            final(self).height == old(self).height,
            final(self).enemies_frozen == old(self).enemies_frozen,
            final(self).walkable == old(self).walkable,
            final(self).enemies@.len() == old(self).enemies@.len(),
            forall|i: int| 0 <= i < old(self).enemies@.len()
                ==> old(self).enemy_wandered(i, dt_ms, #[trigger] final(self).enemies@[i]),
            alive_positions_distinct(old(self).enemies@) ==> alive_positions_distinct(final(self).enemies@),
    {
        if dt_ms == 0 || self.enemies_frozen {
            return;
        }
        let ghost w0 = *self;
        let ghost distinct0 = alive_positions_distinct(self.enemies@);
        let n = self.enemies.len();
        let mut occupied: Vec<Position> = Vec::new();
        for i in 0..n
            invariant
                n == self.enemies@.len(),
                *self == w0,
                occupied@.to_set() == alive_position_set(self.enemies@.take(i as int)),
        {
            let ghost old_occ = occupied@.to_set();
            let e = &self.enemies[i];
            let alive = e.est_vivant();
            if alive {
                insert_position(&mut occupied, e.position());
            }
            proof {
                let es = self.enemies@;
                let s0 = es.take(i as int);
                let s = es.take(i as int + 1);
                assert forall|p: Position| alive_position_set(s).contains(p)
                    == occupied@.to_set().contains(p) by {
                    if alive_position_set(s).contains(p) {
                        let j = choose|j: int| 0 <= j < s.len() && s[j].spec_stats().vie > 0 && #[trigger] s[j].spec_position() == p;
                        if j < i {
                            assert(s0[j] == s[j]);
                            assert(alive_position_set(s0).contains(p));
                        }
                    }
                    if occupied@.to_set().contains(p) {
                        if old_occ.contains(p) {
                            let j = choose|j: int| 0 <= j < s0.len() && s0[j].spec_stats().vie > 0 && #[trigger] s0[j].spec_position() == p;
                            assert(s[j] == s0[j]);
                        } else {
                            assert(alive && p == es[i as int].spec_position());
                            assert(s[i as int] == es[i as int]);
                        }
                    }
                }
                assert(alive_position_set(s) =~= occupied@.to_set());
            }
        }
        proof {
            assert(self.enemies@.take(n as int) == self.enemies@);
            assert(occupied@.to_set() == w0.occupied_after(dt_ms, draws_view(dirs@), 0));
        }
        let w = self.width as isize;
        let h = self.height as isize;
        for i in 0..n
            invariant
                n == self.enemies@.len(),
                n == w0.enemies@.len(),
                dt_ms > 0,
                !w0.enemies_frozen,
                w as int == w0.width,
                h as int == w0.height,
                self.players@ == w0.players@,
                self.width == w0.width,
                self.height == w0.height,
                self.enemies_frozen == w0.enemies_frozen,
                self.walkable == w0.walkable,
                forall|j: int| 0 <= j < i ==> w0.enemy_wandered(j, dt_ms, #[trigger] self.enemies@[j]),
                forall|j: int| i <= j < n ==> #[trigger] self.enemies@[j] == w0.enemies@[j],
                forall|j: int| 0 <= j < n ==> step_fits(#[trigger] w0.enemies@[j].spec_position(), -1isize, -1isize)
                    && step_fits(w0.enemies@[j].spec_position(), 1isize, 1isize),
                distinct0 == alive_positions_distinct(w0.enemies@),
                distinct0 ==> alive_positions_distinct(self.enemies@),
                distinct0 ==> occupied@.to_set() == alive_position_set(self.enemies@),
                dirs@.len() == n,
                delays@.len() == n,
                forall|j: int, k: int| 0 <= j < n && 0 <= k < 4 ==> is_cardinal(#[trigger] dirs@[j]@[k]),
                forall|j: int| 0 <= j < n ==> MIN_MOVE_DELAY_MS <= #[trigger] delays@[j] <= MAX_MOVE_DELAY_MS,
                occupied@.to_set() == w0.occupied_after(dt_ms, draws_view(dirs@), i as int),
                forall|j: int| 0 <= j < i ==> w0.enemy_turn(j, dt_ms, draws_view(dirs@), delays@, #[trigger] self.enemies@[j]),
        {
            if self.enemies[i].est_vivant() {
                self.wander_one(i, dt_ms, w, h, &mut occupied, dirs, delays, Ghost(w0), Ghost(distinct0));
            } else {
                proof {
                    assert(w0.enemies@[i as int].spec_stats().vie == 0);
                }
            }
        }
        proof {
            assert forall|j: int| 0 <= j < n implies w0.enemy_turn(j, dt_ms, draws_view(dirs@), delays@, #[trigger] self.enemies@[j]) by {}
        }
    }

    /// Lets the living enemy at index `i` wander, as one round of
    /// `wander_enemies` does.
    fn wander_one(&mut self, i: usize, dt_ms: u32, w: isize, h: isize, occupied: &mut Vec<Position>,
        dirs: &Vec<[(isize, isize); 4]>, delays: &Vec<u32>, Ghost(w0): Ghost<World>, Ghost(distinct0): Ghost<bool>)
        requires
            i < dirs@.len(),
            forall|k: int| 0 <= k < 4 ==> is_cardinal(#[trigger] dirs@[i as int]@[k]),
            i < delays@.len(),
            MIN_MOVE_DELAY_MS <= delays@[i as int] <= MAX_MOVE_DELAY_MS,
            old(occupied)@.to_set() == w0.occupied_after(dt_ms, draws_view(dirs@), i as int),
            i < old(self).enemies@.len(),
            old(self).enemies@.len() == w0.enemies@.len(),
            old(self).enemies@[i as int].spec_stats().vie > 0,
            dt_ms > 0,
            !w0.enemies_frozen,
            w as int == w0.width,
            h as int == w0.height,
            old(self).players@ == w0.players@,
            old(self).width == w0.width,
            old(self).height == w0.height,
            old(self).enemies_frozen == w0.enemies_frozen,
            old(self).walkable == w0.walkable,
            old(self).enemies@[i as int] == w0.enemies@[i as int],
            step_fits(w0.enemies@[i as int].spec_position(), -1isize, -1isize),
            step_fits(w0.enemies@[i as int].spec_position(), 1isize, 1isize),
            distinct0 ==> alive_positions_distinct(old(self).enemies@),
            distinct0 ==> old(occupied)@.to_set() == alive_position_set(old(self).enemies@),
        ensures
            final(self).players@ == old(self).players@,
            final(self).width == old(self).width,
            final(self).height == old(self).height,
            final(self).enemies_frozen == old(self).enemies_frozen,
            final(self).walkable == old(self).walkable,
            final(self).enemies@.len() == old(self).enemies@.len(),
            forall|j: int| 0 <= j < old(self).enemies@.len() && j != i
                ==> #[trigger] final(self).enemies@[j] == old(self).enemies@[j],
            w0.enemy_wandered(i as int, dt_ms, final(self).enemies@[i as int]),
            distinct0 ==> alive_positions_distinct(final(self).enemies@),
            distinct0 ==> final(occupied)@.to_set() == alive_position_set(final(self).enemies@),
            final(occupied)@.to_set() == w0.occupied_after(dt_ms, draws_view(dirs@), i + 1),
            w0.enemy_turn(i as int, dt_ms, draws_view(dirs@), delays@, final(self).enemies@[i as int]),
    {
        let n = self.enemies.len();
        let ghost dv = draws_view(dirs@);
        let ghost occ0 = occupied@.to_set();
        {
            let ghost before = self.enemies@;
            let next_delay = delays[i];
            let fired = self.enemies[i].tick_timer_with(dt_ms, next_delay);
            proof {
                assert forall|j: int| 0 <= j < n && j != i implies #[trigger] self.enemies@[j] == before[j] by {}
                assert(alive_position_set(self.enemies@) == alive_position_set(before)) by {
                    assert forall|p: Position| alive_position_set(self.enemies@).contains(p)
                        == alive_position_set(before).contains(p) by {
                        if alive_position_set(before).contains(p) {
                            let j = choose|j: int| 0 <= j < n && before[j].spec_stats().vie > 0 && #[trigger] before[j].spec_position() == p;
                            assert(self.enemies@[j].spec_position() == p);
                        }
                        if alive_position_set(self.enemies@).contains(p) {
                            let j = choose|j: int| 0 <= j < n && self.enemies@[j].spec_stats().vie > 0 && #[trigger] self.enemies@[j].spec_position() == p;
                            assert(before[j].spec_position() == p);
                        }
                    }
                }
                if distinct0 {
                    assert forall|a: int, b: int|
                        0 <= a < n && 0 <= b < n && a != b && #[trigger] self.enemies@[a].spec_stats().vie > 0
                            && #[trigger] self.enemies@[b].spec_stats().vie > 0
                        implies self.enemies@[a].spec_position() != self.enemies@[b].spec_position() by {
                        assert(before[a].spec_stats().vie > 0 && before[b].spec_stats().vie > 0);
                    }
                }
            }
            if fired {
            let current = self.enemies[i].position();
            proof {
                assert(dv[i as int] == dirs@[i as int]@);
                assert(dv[i as int].subrange(0, 4) =~= dv[i as int]);
            }
            let mut moved_to: Option<Position> = None;
            let mut attempt: usize = 0;
            while attempt < 4 && moved_to.is_none()
                invariant
                    attempt <= 4,
                    n == self.enemies@.len(),
                    i < n,
                    w as int == self.width,
                    h as int == self.height,
                    current == self.enemies@[i as int].spec_position(),
                    step_fits(current, -1isize, -1isize),
                    step_fits(current, 1isize, 1isize),
                    match moved_to {
                        Some(p) => {
                            &&& is_neighbor(current, p)
                            &&& self.within(p.x as int, p.y as int)
                            &&& self.cell_walkable(p.x as int, p.y as int)
                            &&& !occupied@.contains(p)
                        },
                        None => true,
                    },
                    i < dirs@.len(),
                    forall|k: int| 0 <= k < 4 ==> is_cardinal(#[trigger] dirs@[i as int]@[k]),
                    dv == draws_view(dirs@),
                    self.width == w0.width,
                    self.height == w0.height,
                    self.walkable == w0.walkable,
                    occupied@.to_set() == occ0,
                    w0.first_open_step(current, dv[i as int], occ0) == match moved_to {
                        Some(p) => Some(p),
                        None => w0.first_open_step(current, dv[i as int].subrange(attempt as int, 4), occ0),
                    },
                decreases 4 - attempt,
            {
                let (dx, dy) = dirs[i][attempt];
                proof {
                    let sub = dv[i as int].subrange(attempt as int, 4);
                    assert(dv[i as int] == dirs@[i as int]@);
                    assert(sub[0] == (dx, dy));
                    assert(sub.drop_first() =~= dv[i as int].subrange(attempt as int + 1, 4));
                    assert(is_cardinal(dirs@[i as int]@[attempt as int]));
                }
                let nx = (current.x as isize) + dx;
                let ny = (current.y as isize) + dy;
                if nx >= 0 && ny >= 0 && nx < w && ny < h {
                    let nxu = nx as usize;
                    let nyu = ny as usize;
                    let walkable = nyu < self.walkable.len() && nxu < self.walkable[nyu].len()
                        && self.walkable[nyu][nxu];
                    let candidate = Position { x: nxu, y: nyu };
                    if walkable && !contains_position(occupied, candidate) {
                        moved_to = Some(candidate);
                    }
                    proof {
                        assert(walkable == self.cell_walkable(nx as int, ny as int)) by {
                            if nyu < self.walkable@.len() {
                                assert(self.walkable_view()[nyu as int] == self.walkable@[nyu as int]@);
                            }
                        }
                        assert(occupied@.contains(candidate) == occ0.contains(candidate));
                    }
                }
                attempt = attempt + 1;
            }
            proof {
                assert(dv[i as int].subrange(4, 4).len() == 0);
            }
            if let Some(target) = moved_to {
                let ghost mid = self.enemies@;
                remove_position(occupied, current);
                insert_position(occupied, target);
                let pos = self.enemies[i].position_mut();
                pos.x = target.x;
                pos.y = target.y;
                proof {
                    assert forall|j: int| 0 <= j < n && j != i implies #[trigger] self.enemies@[j] == mid[j] by {}
                    assert(self.enemies@[i as int].spec_position() == target);
                    if distinct0 {
                        assert(alive_position_set(mid).contains(current));
                        assert(!alive_position_set(mid).contains(target));
                        assert forall|a: int, b: int|
                            0 <= a < n && 0 <= b < n && a != b && #[trigger] self.enemies@[a].spec_stats().vie > 0
                                && #[trigger] self.enemies@[b].spec_stats().vie > 0
                            implies self.enemies@[a].spec_position() != self.enemies@[b].spec_position() by {
                            assert(mid[a].spec_stats().vie > 0 && mid[b].spec_stats().vie > 0);
                            if a == i {
                                assert(alive_position_set(mid).contains(mid[b].spec_position()));
                            } else if b == i {
                                assert(alive_position_set(mid).contains(mid[a].spec_position()));
                            }
                        }
                        assert forall|p: Position| alive_position_set(self.enemies@).contains(p)
                            == occupied@.to_set().contains(p) by {
                            if alive_position_set(self.enemies@).contains(p) {
                                let j = choose|j: int| 0 <= j < n && self.enemies@[j].spec_stats().vie > 0 && #[trigger] self.enemies@[j].spec_position() == p;
                                if j != i {
                                    assert(mid[j].spec_position() == p);
                                    assert(alive_position_set(mid).contains(p));
                                    assert(mid[i as int].spec_stats().vie > 0);
                                }
                            }
                            if occupied@.to_set().contains(p) && p != target {
                                assert(alive_position_set(mid).contains(p));
                                let j = choose|j: int| 0 <= j < n && mid[j].spec_stats().vie > 0 && #[trigger] mid[j].spec_position() == p;
                                assert(j != i);
                                assert(self.enemies@[j].spec_position() == p);
                            }
                        }
                    }
                }
            }
            }
        }
    }

    /// The players, in order.
    pub fn players(&self) -> (r: &[Joueur])
        ensures
            r@ == self.players@,
    {
        self.players.as_slice()
    }

    /// The enemies, in order.
    pub fn enemies(&self) -> (r: &[Ennemi])
        ensures
            r@ == self.enemies@,
    {
        self.enemies.as_slice()
    }

    /// The players, in order, for change in place.
    pub fn players_mut(&mut self) -> (r: &mut [Joueur])
        ensures
            r@ == old(self).players@,
            final(self).players@ == final(r)@,
            final(self).enemies@ == old(self).enemies@,
            final(self).width == old(self).width,
            final(self).height == old(self).height,
            final(self).enemies_frozen == old(self).enemies_frozen,
            final(self).walkable == old(self).walkable,
    {
        self.players.as_mut_slice()
    }

    /// The enemies, in order, for change in place.
    pub fn enemies_mut(&mut self) -> (r: &mut [Ennemi])
        ensures
            r@ == old(self).enemies@,
            final(self).enemies@ == final(r)@,
            final(self).players@ == old(self).players@,
            final(self).width == old(self).width,
            final(self).height == old(self).height,
            final(self).enemies_frozen == old(self).enemies_frozen,
            final(self).walkable == old(self).walkable,
    {
        self.enemies.as_mut_slice()
    }

    /// Replaces the walkability grid with `walkable`, provided it has exactly
    /// `height` rows of `width` cells; otherwise keeps the current one.
    pub fn update_walkable_map(&mut self, walkable: Vec<Vec<bool>>)
        ensures
            grid_has_shape(walkable@, old(self).width, old(self).height) ==> final(self).walkable == walkable,
            !grid_has_shape(walkable@, old(self).width, old(self).height) ==> final(self).walkable == old(self).walkable,
            final(self).players == old(self).players,
            final(self).enemies == old(self).enemies,
            final(self).width == old(self).width,
            final(self).height == old(self).height,
            final(self).enemies_frozen == old(self).enemies_frozen,
    {
        if walkable.len() != self.height {
            return;
        }
        let h = walkable.len();
        for y in 0..h
            invariant
                h == walkable@.len(),
                h == self.height,
                forall|r: int| 0 <= r < y ==> #[trigger] walkable@[r]@.len() == self.width,
        {
            if walkable[y].len() != self.width {
                return;
            }
        }
        self.walkable = walkable;
    }
}

/// `p` occurs in `v`.
fn contains_position(v: &Vec<Position>, p: Position) -> (r: bool)
    ensures
        r == v@.contains(p),
{
    let n = v.len();
    for i in 0..n
        invariant
            n == v@.len(),
            forall|j: int| 0 <= j < i ==> v@[j] != p,
    {
        if v[i] == p {
            return true;
        }
    }
    false
}

/// Adds `p` to the set of positions held in `v`.
fn insert_position(v: &mut Vec<Position>, p: Position)
    ensures
        final(v)@.to_set() == old(v)@.to_set().insert(p),
{
    if !contains_position(v, p) {
        v.push(p);
        proof {
            assert(final(v)@.to_set() =~= old(v)@.to_set().insert(p)) by {
                assert forall|q: Position| final(v)@.contains(q) == old(v)@.to_set().insert(p).contains(q) by {
                    if final(v)@.contains(q) && q != p {
                        let j = choose|j: int| 0 <= j < final(v)@.len() && final(v)@[j] == q;
                        assert(old(v)@[j] == q);
                    }
                    if old(v)@.contains(q) {
                        let j = choose|j: int| 0 <= j < old(v)@.len() && old(v)@[j] == q;
                        assert(final(v)@[j] == q);
                    }
                    if q == p {
                        assert(final(v)@[old(v)@.len() as int] == p);
                    }
                }
            }
        }
    } else {
        proof {
            assert(old(v)@.to_set() =~= old(v)@.to_set().insert(p));
        }
    }
}

/// Removes `p` from the set of positions held in `v`.
fn remove_position(v: &mut Vec<Position>, p: Position)
    ensures
        final(v)@.to_set() == old(v)@.to_set().remove(p),
{
    let mut kept: Vec<Position> = Vec::new();
    let n = v.len();
    for i in 0..n
        invariant
            n == v@.len(),
            forall|q: Position| #[trigger] kept@.contains(q) <==> (q != p && exists|j: int| 0 <= j < i && v@[j] == q),
    {
        let q = v[i];
        let ghost prev = kept@;
        if q != p {
            kept.push(q);
        }
        proof {
            assert forall|r: Position| #[trigger] kept@.contains(r) <==> (r != p && exists|j: int| 0 <= j < i + 1 && v@[j] == r) by {
                if kept@.contains(r) {
                    let k = choose|k: int| 0 <= k < kept@.len() && kept@[k] == r;
                    if k < prev.len() {
                        assert(prev[k] == r);
                        assert(prev.contains(r));
                    } else {
                        assert(r == q && v@[i as int] == r);
                    }
                }
                if r != p && exists|j: int| 0 <= j < i + 1 && v@[j] == r {
                    let j = choose|j: int| 0 <= j < i + 1 && v@[j] == r;
                    if j == i {
                        assert(kept@[kept@.len() - 1] == r);
                    } else {
                        assert(prev.contains(r));
                        let k = choose|k: int| 0 <= k < prev.len() && prev[k] == r;
                        assert(kept@[k] == r);
                    }
                }
            }
        }
    }
    proof {
        assert(kept@.to_set() =~= old(v)@.to_set().remove(p)) by {
            assert forall|q: Position| kept@.contains(q) == old(v)@.to_set().remove(p).contains(q) by {
                if old(v)@.contains(q) && q != p {
                    let j = choose|j: int| 0 <= j < old(v)@.len() && old(v)@[j] == q;
                    assert(exists|j: int| 0 <= j < n && v@[j] == q);
                }
            }
        }
    }
    *v = kept;
}

/// `grid` has `height` rows of `width` cells each.
pub open spec fn grid_has_shape(grid: Seq<Vec<bool>>, width: usize, height: usize) -> bool {
    grid.len() == height && forall|y: int| 0 <= y < height ==> #[trigger] grid[y]@.len() == width
}

} // verus!
