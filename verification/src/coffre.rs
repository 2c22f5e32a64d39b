//! Chests: which one the player may open, their opening animation, and the
//! state each world keeps of its chests.
use vstd::prelude::*;
use crate::map::{world_slot, slot_of, cells_listed, covers_map, detect_chest_positions, in_map, is_chest_tile, tile_at, TileType, WorldKind};
use crate::types::{saturating_add_spec, Position};

verus! {

/// How long each frame of the opening animation lasts, in milliseconds.
pub const CHEST_FRAME_MS: u32 = 120;
/// How long an opened chest takes to fade away, in milliseconds.
pub const CHEST_FADE_MS: u32 = 800;

#[derive(Clone, Copy, Debug)]
pub struct ChestState {
    pub position: Position,
    pub opened: bool,
    pub animating: bool,
    pub anim_frame: usize,
    pub anim_timer_ms: u32,
    pub fading: bool,
    pub fade_timer_ms: u32,
    pub removed: bool,
    pub reward_pending: bool,
}

/// A closed chest at `position` that nobody has touched.
pub open spec fn fresh_chest(c: ChestState, position: Position) -> bool {
    &&& c.position == position
    &&& !c.opened
    &&& !c.animating
    &&& c.anim_frame == 0
    &&& c.anim_timer_ms == 0
    &&& !c.fading
    &&& c.fade_timer_ms == 0
    &&& !c.removed
    &&& !c.reward_pending
}

impl ChestState {
    fn new(position: Position) -> (c: Self)
        ensures
            fresh_chest(c, position),
            c == new_chest(position),
    {
        ChestState {
            position,
            opened: false,
            animating: false,
            anim_frame: 0,
            anim_timer_ms: 0,
            fading: false,
            fade_timer_ms: 0,
            removed: false,
            reward_pending: false,
        }
    }

    /// The frame to draw: the animation frame while opening (at most
    /// `max_frame`), the last frame once opened, the first one before.
    pub fn current_frame(&self, max_frame: usize) -> (f: usize)
        ensures
            f == if self.animating {
                if self.anim_frame < max_frame { self.anim_frame } else { max_frame }
            } else if self.opened {
                max_frame
            } else {
                0
            },
    {
        if self.animating {
            if self.anim_frame < max_frame { self.anim_frame } else { max_frame }
        } else if self.opened {
            max_frame
        } else {
            0
        }
    }
}

/// The chest can be offered to the player: neither opened, nor opening, nor gone.
pub open spec fn can_open(c: ChestState) -> bool {
    !c.opened && !c.animating && !c.removed
}

/// `a` and `b` are one step apart along one axis.
pub open spec fn adjacent(a: Position, b: Position) -> bool {
    let dx = if a.x >= b.x { a.x - b.x } else { b.x - a.x };
    let dy = if a.y >= b.y { a.y - b.y } else { b.y - a.y };
    dx + dy == 1
}

/// A coordinate small enough for the adjacency test to compute with `isize`.
pub open spec fn small_coord(v: usize) -> bool {
    v <= isize::MAX / 2
}

/// `p` occurs among the positions in `v`.
fn contains_position(v: &Vec<Position>, p: Position) -> (r: bool)
    ensures
        r == v@.contains(p),
{
    let n = v.len();
    for i in 0..n
        invariant
            n == v@.len(),
            forall|j: int| 0 <= j < i ==> v@[j] != p,
    {
        if v[i] == p {
            return true;
        }
    }
    false
}

fn is_adjacent(a: Position, b: Position) -> (r: bool)
    requires
        small_coord(a.x),
        small_coord(a.y),
        small_coord(b.x),
        small_coord(b.y),
    ensures
        r == adjacent(a, b),
{
    let dx = a.x as isize - b.x as isize;
    let dy = a.y as isize - b.y as isize;
    let adx = if dx < 0 { -dx } else { dx };
    let ady = if dy < 0 { -dy } else { dy };
    adx + ady == 1
}

/// The opening animation of `c`, started with timer `t` on frame `f`, after
/// `dt_ms` more milliseconds, when the last frame is `max_frame`: the frames it
/// advances, and whether it ends.
pub open spec fn opening_steps(c: ChestState, dt_ms: u32, max_frame: usize) -> (int, bool) {
    let total = saturating_add_spec(c.anim_timer_ms, dt_ms) as int;
    let ticks = total / (CHEST_FRAME_MS as int);
    let needed: int = if c.anim_frame < max_frame { max_frame - c.anim_frame } else { 1 };
    if ticks >= needed { (needed, true) } else { (ticks, false) }
}

/// `n` is chest `c` after its opening animation has run for `dt_ms`.
pub open spec fn opening_advanced(c: ChestState, n: ChestState, dt_ms: u32, max_frame: usize) -> bool {
    let total = saturating_add_spec(c.anim_timer_ms, dt_ms);
    let (k, done) = opening_steps(c, dt_ms, max_frame);
    &&& n.position == c.position
    &&& n.removed == c.removed
    &&& n.anim_timer_ms == total - k * (CHEST_FRAME_MS as int)
    &&& if done {
        &&& n.anim_frame == (if c.anim_frame < max_frame { max_frame } else { c.anim_frame })
        &&& !n.animating
        &&& n.opened
        &&& n.fading
        &&& n.fade_timer_ms == 0
        &&& n.reward_pending
    } else {
        &&& n.anim_frame == c.anim_frame + k
        &&& n.animating == c.animating
        &&& n.opened == c.opened
        &&& n.fading == c.fading
        &&& n.fade_timer_ms == c.fade_timer_ms
        &&& n.reward_pending == c.reward_pending
    }
}

/// `n` is chest `c` after its fading has run for `dt_ms`.
pub open spec fn fade_advanced(c: ChestState, n: ChestState, dt_ms: u32) -> bool {
    if c.fading {
        let t = saturating_add_spec(c.fade_timer_ms, dt_ms);
        &&& n == ChestState { fade_timer_ms: t, fading: t < CHEST_FADE_MS, removed: c.removed || t >= CHEST_FADE_MS, ..c }
    } else {
        n == c
    }
}

/// `n` is chest `c` after `dt_ms` of animation: the opening animation runs if
/// it is playing, then the fading runs if it is on. Removed chests stay as
/// they are.
pub open spec fn chest_animated(c: ChestState, n: ChestState, dt_ms: u32, max_frame: usize) -> bool {
    if c.removed {
        n == c
    } else if c.animating {
        exists|m: ChestState| opening_advanced(c, m, dt_ms, max_frame) && fade_advanced(m, n, dt_ms)
    } else {
        fade_advanced(c, n, dt_ms)
    }
}

/// Runs the opening animation of one chest for `dt_ms`.
fn advance_opening(c: &mut ChestState, dt_ms: u32, max_frame: usize)
    requires
        old(c).animating,
    ensures
        opening_advanced(*old(c), *final(c), dt_ms, max_frame),
{
    let ghost c0 = *c;
    let ghost total: int = saturating_add_spec(c0.anim_timer_ms, dt_ms) as int;
    let ghost needed: int = if c0.anim_frame < max_frame { max_frame - c0.anim_frame } else { 1 };
    c.anim_timer_ms = c.anim_timer_ms.saturating_add(dt_ms);
    let ghost mut k: int = 0;
    while c.anim_timer_ms >= CHEST_FRAME_MS
        invariant_except_break
            c.animating,
            c.position == c0.position,
            c.removed == c0.removed,
            c.opened == c0.opened,
            c.fading == c0.fading,
            c.fade_timer_ms == c0.fade_timer_ms,
            c.reward_pending == c0.reward_pending,
            total == saturating_add_spec(c0.anim_timer_ms, dt_ms) as int,
            needed == (if c0.anim_frame < max_frame { max_frame - c0.anim_frame } else { 1int }),
            0 <= k < needed,
            c.anim_frame == c0.anim_frame + k,
            c.anim_frame < max_frame || k == 0,
            c.anim_timer_ms == total - k * (CHEST_FRAME_MS as int),
        ensures
            total == saturating_add_spec(c0.anim_timer_ms, dt_ms) as int,
            needed == (if c0.anim_frame < max_frame { max_frame - c0.anim_frame } else { 1int }),
            c.position == c0.position,
            c.removed == c0.removed,
            0 <= k <= needed,
            c.anim_timer_ms == total - k * (CHEST_FRAME_MS as int),
            c.animating ==> {
                &&& k < needed
                &&& c.anim_timer_ms < CHEST_FRAME_MS
                &&& c.anim_frame == c0.anim_frame + k
                &&& c.opened == c0.opened
                &&& c.fading == c0.fading
                &&& c.fade_timer_ms == c0.fade_timer_ms
                &&& c.reward_pending == c0.reward_pending
            },
            !c.animating ==> {
                &&& k == needed
                &&& c.anim_frame == (if c0.anim_frame < max_frame { max_frame } else { c0.anim_frame })
                &&& c.opened
                &&& c.fading
                &&& c.fade_timer_ms == 0
                &&& c.reward_pending
            },
        decreases c.anim_timer_ms,
    {
        c.anim_timer_ms = c.anim_timer_ms - CHEST_FRAME_MS;
        if c.anim_frame < max_frame {
            c.anim_frame = c.anim_frame + 1;
        }
        proof {
            k = k + 1;
        }
        if c.anim_frame >= max_frame {
            c.animating = false;
            c.opened = true;
            c.fading = true;
            c.fade_timer_ms = 0;
            c.reward_pending = true;
            break;
        }
    }
    proof {
        if c.animating {
            assert(total / (CHEST_FRAME_MS as int) == k) by (nonlinear_arith)
                requires total - k * 120 >= 0, total - k * 120 < 120, k >= 0;
        } else {
            assert(total / (CHEST_FRAME_MS as int) >= needed) by (nonlinear_arith)
                requires total - k * 120 >= 0, k == needed, needed >= 1;
        }
    }
}

/// Runs the fading of one chest for `dt_ms`.
fn advance_fade(c: &mut ChestState, dt_ms: u32)
    ensures
        fade_advanced(*old(c), *final(c), dt_ms),
{
    if c.fading {
        c.fade_timer_ms = c.fade_timer_ms.saturating_add(dt_ms);
        if c.fade_timer_ms >= CHEST_FADE_MS {
            c.fading = false;
            c.removed = true;
        }
    }
}

/// Chest `c` with its reward taken.
pub open spec fn reward_taken(c: ChestState) -> ChestState {
    ChestState { reward_pending: false, ..c }
}

/// Chest `c` as it starts opening.
pub open spec fn opening_started(c: ChestState) -> ChestState {
    ChestState { animating: true, anim_frame: 0, anim_timer_ms: 0, ..c }
}

/// The positions of the chests whose reward waits, in order.
pub open spec fn pending_rewards(cs: Seq<ChestState>) -> Seq<Position> {
    cs.filter(|c: ChestState| c.reward_pending).map_values(|c: ChestState| c.position)
}

/// A closed chest at `p` that nobody has touched.
pub open spec fn new_chest(p: Position) -> ChestState {
    ChestState {
        position: p,
        opened: false,
        animating: false,
        anim_frame: 0,
        anim_timer_ms: 0,
        fading: false,
        fade_timer_ms: 0,
        removed: false,
        reward_pending: false,
    }
}

/// The chests kept from `cached` are those still standing on a chest tile.
pub open spec fn kept_chests(positions: Seq<Position>, cached: Seq<ChestState>) -> Seq<ChestState> {
    cached.filter(|c: ChestState| positions.contains(c.position))
}

/// The chests of a world whose chest tiles are `positions`, given the chests
/// stored for it: the stored chests still on a chest tile, in their order,
/// then a fresh chest on every chest tile that none of them holds.
pub open spec fn rebuilt_chests(positions: Seq<Position>, cached: Option<Seq<ChestState>>) -> Seq<ChestState> {
    match cached {
        None => positions.map_values(|p: Position| new_chest(p)),
        Some(cs) => {
            let kept = kept_chests(positions, cs);
            kept + positions.filter(|p: Position| !kept.map_values(|c: ChestState| c.position).contains(p)).map_values(
                |p: Position| new_chest(p),
            )
        },
    }
}

pub struct ChestSystem {
    chests: Vec<ChestState>,
    cache: Vec<Option<Vec<ChestState>>>,
    active: Option<usize>,
}

impl ChestSystem {
    /// The chests of the current world.
    pub closed spec fn spec_chests(&self) -> Seq<ChestState> {
        self.chests@
    }

    /// The chest offered to the player, if any.
    pub closed spec fn spec_active(&self) -> Option<usize> {
        self.active
    }

    /// The chests stored for world `kind`, if any.
    pub closed spec fn spec_cached(&self, kind: WorldKind) -> Option<Seq<ChestState>> {
        match self.cache@[world_slot(kind)] {
            Some(v) => Some(v@),
            None => None,
        }
    }

    /// Well-formed: one cache slot per world, and every chest on the map.
    pub closed spec fn wf(&self) -> bool {
        &&& self.cache@.len() == 4
        &&& forall|i: int| 0 <= i < self.chests@.len() ==> in_map(#[trigger] self.chests@[i].position)
        &&& self.active matches Some(i) ==> i < self.chests@.len()
    }

    pub fn new() -> (s: Self)
        ensures
            s.wf(),
            s.spec_chests().len() == 0,
            s.spec_active() is None,
            forall|k: WorldKind| #[trigger] s.spec_cached(k) is None,
    {
        let mut cache: Vec<Option<Vec<ChestState>>> = Vec::new();
        cache.push(None);
        cache.push(None);
        cache.push(None);
        cache.push(None);
        ChestSystem { chests: Vec::new(), cache, active: None }
    }

    /// The chests of the current world.
    pub fn chests(&self) -> (r: &[ChestState])
        ensures
            r@ == self.spec_chests(),
    {
        self.chests.as_slice()
    }

    /// The chest offered to the player, if any.
    pub fn active(&self) -> (r: Option<usize>)
        ensures
            r == self.spec_active(),
    {
        self.active
    }

    /// Offers the player the first chest next to `player_pos` that can still
    /// be opened; offers none when there is no player or no such chest.
    pub fn refresh_prompt(&mut self, player_pos: Option<Position>)
        requires
            old(self).wf(),
            player_pos matches Some(p) ==> small_coord(p.x) && small_coord(p.y),
        ensures
            final(self).wf(),
            final(self).spec_chests() == old(self).spec_chests(),
            forall|k: WorldKind| #[trigger] final(self).spec_cached(k) == old(self).spec_cached(k),
            match player_pos {
                None => final(self).spec_active() is None,
                Some(p) => match final(self).spec_active() {
                    Some(i) => {
                        &&& i < old(self).spec_chests().len()
                        &&& can_open(old(self).spec_chests()[i as int])
                        &&& adjacent(p, old(self).spec_chests()[i as int].position)
                        &&& forall|j: int| 0 <= j < i ==> !(can_open(#[trigger] old(self).spec_chests()[j])
                            && adjacent(p, old(self).spec_chests()[j].position))
                    },
                    None => forall|j: int| 0 <= j < old(self).spec_chests().len()
                        ==> !(can_open(#[trigger] old(self).spec_chests()[j]) && adjacent(p, old(self).spec_chests()[j].position)),
                },
            },
    {
        let p = match player_pos {
            None => {
                self.active = None;
                return;
            },
            Some(p) => p,
        };
        let ghost s0 = *self;
        let n = self.chests.len();
        for i in 0..n
            invariant
                n == self.chests@.len(),
                player_pos == Some(p),
                self.chests == old(self).chests,
                self.cache == old(self).cache,
                self.cache@.len() == 4,
                small_coord(p.x) && small_coord(p.y),
                forall|i: int| 0 <= i < self.chests@.len() ==> in_map(#[trigger] self.chests@[i].position),
                forall|j: int| 0 <= j < i ==> !(can_open(#[trigger] self.chests@[j]) && adjacent(p, self.chests@[j].position)),
        {
            let c = self.chests[i];
            proof {
                assert(in_map(self.chests@[i as int].position));
            }
            if !c.opened && !c.animating && !c.removed && is_adjacent(p, c.position) {
                self.active = Some(i);
                return;
            }
        }
        self.active = None;
    }

    /// Sets up the chests of `world` from its map `tiles`, as `rebuilt_chests`
    /// says: chests stored for that world keep their state. No chest is offered.
    pub fn rebuild_from_tiles(&mut self, tiles: &[Vec<TileType>], world: WorldKind)
        requires
            old(self).wf(),
            covers_map(tiles@),
        ensures
            final(self).wf(),
            forall|k: WorldKind| #[trigger] final(self).spec_cached(k) == old(self).spec_cached(k),
            final(self).spec_active() is None,
            exists|ps: Seq<Position>| cells_listed(ps, |p: Position| is_chest_tile(tile_at(tiles@, p.x as int, p.y as int)))
                && final(self).spec_chests() == rebuilt_chests(ps, old(self).spec_cached(world)),
    {
        let positions = detect_chest_positions(tiles);
        let ghost ps = positions@;
        let slot = slot_of(world);
        let mut result: Vec<ChestState> = Vec::new();
        let np = positions.len();
        match &self.cache[slot] {
            None => {
                for i in 0..np
                    invariant
                        np == positions@.len(),
                        result@ == positions@.take(i as int).map_values(|p: Position| new_chest(p)),
                        forall|k: int| 0 <= k < result@.len() ==> positions@.contains(#[trigger] result@[k].position),
                {
                    proof {
                        assert(positions@[i as int] == positions@[i as int]);
                    }
                    result.push(ChestState::new(positions[i]));
                    proof {
                        assert(result@ =~= positions@.take(i as int + 1).map_values(|p: Position| new_chest(p)));
                    }
                }
                proof {
                    assert(positions@.take(np as int) == positions@);
                    assert(self.spec_cached(world) is None);
                    assert(result@ == rebuilt_chests(ps, self.spec_cached(world)));
                }
            },
            Some(cached) => {
                let nc = cached.len();
                for i in 0..nc
                    invariant
                        nc == cached@.len(),
                        result@ == kept_chests(ps, cached@.take(i as int)),
                        ps == positions@,
                        forall|k: int| 0 <= k < result@.len() ==> positions@.contains(#[trigger] result@[k].position),
                {
                    proof {
                        reveal_with_fuel(Seq::<_>::filter, 1);
                        assert(cached@.take(i as int + 1).drop_last() == cached@.take(i as int));
                    }
                    let c = cached[i];
                    if contains_position(&positions, c.position) {
                        result.push(c);
                    }
                    proof {
                        assert(result@ =~= kept_chests(ps, cached@.take(i as int + 1)));
                    }
                }
                proof {
                    assert(cached@.take(nc as int) == cached@);
                }
                let nk = result.len();
                let ghost kept = result@;
                let ghost kept_pos = kept.map_values(|c: ChestState| c.position);
                let ghost missing = |p: Position| !kept_pos.contains(p);
                for i in 0..np
                    invariant
                        np == positions@.len(),
                        nk == kept.len(),
                        kept_pos == kept.map_values(|c: ChestState| c.position),
                        forall|q: Position| #[trigger] missing(q) == !kept_pos.contains(q),
                        result@.take(nk as int) == kept,
                        result@.len() >= nk,
                        result@.skip(nk as int) == positions@.take(i as int).filter(missing).map_values(|p: Position| new_chest(p)),
                        forall|k: int| 0 <= k < result@.len() ==> positions@.contains(#[trigger] result@[k].position),
                {
                    proof {
                        reveal_with_fuel(Seq::<_>::filter, 1);
                        assert(positions@.take(i as int + 1).drop_last() == positions@.take(i as int));
                    }
                    let p = positions[i];
                    let mut present = false;
                    for j in 0..nk
                        invariant
                            nk == kept.len(),
                            result@.take(nk as int) == kept,
                            result@.len() >= nk,
                            kept_pos == kept.map_values(|c: ChestState| c.position),
                            present == exists|k: int| 0 <= k < j && kept[k].position == p,
                            forall|k: int| 0 <= k < result@.len() ==> positions@.contains(#[trigger] result@[k].position),
                    {
                        proof {
                            assert(result@[j as int] == kept[j as int]);
                        }
                        if result[j].position == p {
                            present = true;
                        }
                    }
                    proof {
                        if present {
                            let k = choose|k: int| 0 <= k < nk && kept[k].position == p;
                            assert(kept_pos[k] == p);
                        } else {
                            assert forall|k: int| 0 <= k < kept_pos.len() implies kept_pos[k] != p by {
                                assert(kept_pos[k] == kept[k].position);
                            }
                        }
                        assert(present == kept_pos.contains(p));
                    }
                    let ghost before = result@;
                    if !present {
                        result.push(ChestState::new(p));
                    }
                    proof {
                        let prev_f = positions@.take(i as int).filter(missing);
                        let f = positions@.take(i as int + 1).filter(missing);
                        assert(positions@.take(i as int + 1).last() == p);
                        assert(missing(p) == !present);
                        if present {
                            assert(f == prev_f);
                            assert(result@ == before);
                        } else {
                            assert(f == prev_f.push(p));
                            assert(result@.skip(nk as int) =~= before.skip(nk as int).push(new_chest(p)));
                        }
                        assert(result@.take(nk as int) =~= before.take(nk as int));
                        assert(result@.skip(nk as int) =~= positions@.take(i as int + 1).filter(missing).map_values(|p: Position| new_chest(p)));
                    }
                }
                proof {
                    assert(positions@.take(np as int) == positions@);
                    assert(result@ =~= result@.take(nk as int) + result@.skip(nk as int));
                    assert(kept == kept_chests(ps, cached@));
                    assert(missing =~= |p: Position| !kept_chests(ps, cached@).map_values(|c: ChestState| c.position).contains(p));
                    assert(self.spec_cached(world) == Some(cached@));
                    assert(result@ == rebuilt_chests(ps, self.spec_cached(world)));
                }
            },
        }
        self.chests = result;
        self.active = None;
        proof {
            assert forall|i: int| 0 <= i < self.chests@.len() implies in_map(#[trigger] self.chests@[i].position) by {
                let q = self.chests@[i].position;
                assert(positions@.contains(q));
                let k = choose|k: int| 0 <= k < positions@.len() && positions@[k] == q;
                assert(in_map(positions@[k]));
            }
        }
    }

    /// Stores the chests of the current world as those of `world`, unless
    /// there are none.
    pub fn store_world_snapshot(&mut self, world: WorldKind)
        requires
            old(self).wf(),
        ensures
            final(self).wf(),
            final(self).spec_chests() == old(self).spec_chests(),
            final(self).spec_active() == old(self).spec_active(),
            old(self).spec_chests().len() > 0 ==> final(self).spec_cached(world) == Some(old(self).spec_chests()),
            old(self).spec_chests().len() == 0 ==> final(self).spec_cached(world) == old(self).spec_cached(world),
            forall|k: WorldKind| k != world ==> #[trigger] final(self).spec_cached(k) == old(self).spec_cached(k),
    {
        if self.chests.len() > 0 {
            let slot = slot_of(world);
            let mut copy: Vec<ChestState> = Vec::new();
            let n = self.chests.len();
            for i in 0..n
                invariant
                    n == self.chests@.len(),
                    copy@ == self.chests@.take(i as int),
            {
                copy.push(self.chests[i]);
                proof {
                    assert(copy@ =~= self.chests@.take(i as int + 1));
                }
            }
            proof {
                assert(self.chests@.take(n as int) == self.chests@);
            }
            self.cache.set(slot, Some(copy));
            proof {
                assert forall|k: WorldKind| k != world implies #[trigger] self.spec_cached(k) == old(self).spec_cached(k) by {
                    assert(world_slot(k) != world_slot(world));
                }
            }
        }
    }

    /// Offers no chest.
    pub fn clear_active(&mut self)
        requires
            old(self).wf(),
        ensures
            final(self).wf(),
            final(self).spec_chests() == old(self).spec_chests(),
            forall|k: WorldKind| #[trigger] final(self).spec_cached(k) == old(self).spec_cached(k),
            final(self).spec_active() is None,
    {
        self.active = None;
    }

    /// Starts opening chest `idx` unless it is opened or opening already;
    /// returns whether it started.
    fn open_chest(&mut self, idx: usize) -> (r: bool)
        requires
            old(self).wf(),
        ensures
            final(self).wf(),
            forall|k: WorldKind| #[trigger] final(self).spec_cached(k) == old(self).spec_cached(k),
            r == (idx < old(self).spec_chests().len() && !old(self).spec_chests()[idx as int].opened
                && !old(self).spec_chests()[idx as int].animating),
            r ==> final(self).spec_chests() == old(self).spec_chests().update(idx as int,
                opening_started(old(self).spec_chests()[idx as int])),
            r ==> final(self).spec_active() is None,
            !r ==> *final(self) == *old(self),
    {
        if idx < self.chests.len() {
            let c = self.chests[idx];
            if c.opened || c.animating {
                return false;
            }
            self.chests.set(idx, ChestState { animating: true, anim_frame: 0, anim_timer_ms: 0, ..c });
            self.active = None;
            return true;
        }
        false
    }

    /// Answers a click: when a chest is offered and the click falls on the
    /// prompt (`on_prompt`), starts opening that chest and returns its position.
    pub fn handle_click(&mut self, on_prompt: bool) -> (r: Option<Position>)
        requires
            old(self).wf(),
        ensures
            final(self).wf(),
            r matches Some(p) ==> in_map(p),
            forall|k: WorldKind| #[trigger] final(self).spec_cached(k) == old(self).spec_cached(k),
            match (old(self).spec_active(), on_prompt) {
                (Some(i), true) => {
                    let c = old(self).spec_chests()[i as int];
                    if !c.opened && !c.animating {
                        &&& r == Some(c.position)
                        &&& final(self).spec_chests() == old(self).spec_chests().update(i as int, opening_started(c))
                        &&& final(self).spec_active() is None
                    } else {
                        r is None && *final(self) == *old(self)
                    }
                },
                _ => r is None && *final(self) == *old(self),
            },
    {
        let idx = match self.active {
            None => return None,
            Some(idx) => idx,
        };
        if on_prompt {
            let position = self.chests[idx].position;
            if self.open_chest(idx) {
                return Some(position);
            }
        }
        None
    }

    /// Plays every chest's animation for `dt_ms`, given the number of frames
    /// of the chest picture. Nothing changes when `dt_ms` or `frame_count` is 0.
    pub fn update_animation(&mut self, dt_ms: u32, frame_count: usize)
        requires
            old(self).wf(),
        ensures
            final(self).wf(),
            forall|k: WorldKind| #[trigger] final(self).spec_cached(k) == old(self).spec_cached(k),
            final(self).spec_active() == old(self).spec_active(),
            final(self).spec_chests().len() == old(self).spec_chests().len(),
            dt_ms == 0 || frame_count == 0 ==> final(self).spec_chests() == old(self).spec_chests(),
            dt_ms > 0 && frame_count > 0 ==> forall|i: int| 0 <= i < old(self).spec_chests().len()
                ==> chest_animated(old(self).spec_chests()[i], #[trigger] final(self).spec_chests()[i], dt_ms, (frame_count - 1) as usize),
    {
        if dt_ms == 0 || self.chests.len() == 0 || frame_count == 0 {
            return;
        }
        let max_frame = frame_count - 1;
        let n = self.chests.len();
        let ghost old_chests = self.chests@;
        let ghost s0 = *self;
        for i in 0..n
            invariant
                n == self.chests@.len(),
                n == old_chests.len(),
                self.cache == s0.cache,
                self.active == s0.active,
                self.cache@.len() == 4,
                self.active matches Some(a) ==> a < n,
                forall|j: int| 0 <= j < n ==> #[trigger] self.chests@[j].position == old_chests[j].position,
                forall|j: int| 0 <= j < i ==> chest_animated(old_chests[j], #[trigger] self.chests@[j], dt_ms, max_frame),
                forall|j: int| i <= j < n ==> #[trigger] self.chests@[j] == old_chests[j],
        {
            let mut c = self.chests[i];
            if !c.removed {
                if c.animating {
                    let ghost c0 = c;
                    advance_opening(&mut c, dt_ms, max_frame);
                    let ghost m = c;
                    advance_fade(&mut c, dt_ms);
                    proof {
                        assert(opening_advanced(c0, m, dt_ms, max_frame) && fade_advanced(m, c, dt_ms));
                    }
                } else {
                    advance_fade(&mut c, dt_ms);
                }
            }
            self.chests.set(i, c);
        }
        proof {
            assert forall|j: int| 0 <= j < self.chests@.len() implies in_map(#[trigger] self.chests@[j].position) by {
                assert(self.chests@[j].position == old_chests[j].position);
            }
        }
    }

    /// Takes the rewards of the chests that finished opening: their positions,
    /// in order. Each reward is given once.
    pub fn collect_opened_rewards(&mut self) -> (rewards: Vec<Position>)
        requires
            old(self).wf(),
        ensures
            final(self).wf(),
            forall|k: int| 0 <= k < rewards@.len() ==> in_map(#[trigger] rewards@[k]),
            forall|k: WorldKind| #[trigger] final(self).spec_cached(k) == old(self).spec_cached(k),
            final(self).spec_active() == old(self).spec_active(),
            final(self).spec_chests().len() == old(self).spec_chests().len(),
            forall|i: int| 0 <= i < old(self).spec_chests().len() ==> #[trigger] final(self).spec_chests()[i]
                == reward_taken(old(self).spec_chests()[i]),
            rewards@ == pending_rewards(old(self).spec_chests()),
    {
        let mut rewards: Vec<Position> = Vec::new();
        let n = self.chests.len();
        let ghost old_chests = self.chests@;
        assert forall|j: int| 0 <= j < n implies in_map(#[trigger] old_chests[j].position) by {
            assert(in_map(self.chests@[j].position));
        }
        let ghost s0 = *self;
        for i in 0..n
            invariant
                n == self.chests@.len(),
                n == old_chests.len(),
                self.cache == s0.cache,
                self.active == s0.active,
                self.cache@.len() == 4,
                self.active matches Some(a) ==> a < n,
                forall|j: int| 0 <= j < i ==> #[trigger] self.chests@[j] == reward_taken(old_chests[j]),
                forall|j: int| i <= j < n ==> #[trigger] self.chests@[j] == old_chests[j],
                rewards@ == pending_rewards(old_chests.take(i as int)),
                forall|j: int| 0 <= j < n ==> in_map(#[trigger] old_chests[j].position),
                forall|k: int| 0 <= k < rewards@.len() ==> in_map(#[trigger] rewards@[k]),
        {
            proof {
                reveal_with_fuel(Seq::<_>::filter, 1);
                assert(old_chests.take(i as int + 1).drop_last() == old_chests.take(i as int));
            }
            let c = self.chests[i];
            if c.reward_pending {
                self.chests.set(i, ChestState { reward_pending: false, ..c });
                rewards.push(c.position);
            }
            proof {
                assert(rewards@ =~= pending_rewards(old_chests.take(i as int + 1)));
            }
        }
        proof {
            assert(old_chests.take(n as int) == old_chests);
            assert forall|j: int| 0 <= j < self.chests@.len() implies in_map(#[trigger] self.chests@[j].position) by {
                assert(self.chests@[j].position == old_chests[j].position);
            }
        }
        rewards
    }
}

/// Animation never undoes a chest: it stays where it is, an opened chest
/// stays opened, a removed chest stays removed, and its frame never goes back.
pub proof fn lemma_animation_never_closes(c: ChestState, n: ChestState, dt_ms: u32, max_frame: usize)
    requires
        chest_animated(c, n, dt_ms, max_frame),
    ensures
        n.position == c.position,
        c.opened ==> n.opened,
        c.removed ==> n.removed,
        n.anim_frame >= c.anim_frame,
{
    if !c.removed && c.animating {
        let m = choose|m: ChestState| opening_advanced(c, m, dt_ms, max_frame) && fade_advanced(m, n, dt_ms);
        assert(opening_advanced(c, m, dt_ms, max_frame));
    }
}

/// Each chest's reward is given once: once taken, no reward is left waiting.
pub proof fn lemma_rewards_given_once(before: Seq<ChestState>, after: Seq<ChestState>)
    requires
        after.len() == before.len(),
        forall|i: int| 0 <= i < before.len() ==> #[trigger] after[i] == reward_taken(before[i]),
    ensures
        pending_rewards(after).len() == 0,
    decreases before.len(),
{
    reveal_with_fuel(Seq::<_>::filter, 1);
    if before.len() > 0 {
        let b = before.drop_last();
        let a = after.drop_last();
        assert forall|i: int| 0 <= i < b.len() implies #[trigger] a[i] == reward_taken(b[i]) by {
            assert(a[i] == after[i]);
        }
        lemma_rewards_given_once(b, a);
        assert(!after.last().reward_pending);
        assert(after.filter(|c: ChestState| c.reward_pending) == a.filter(|c: ChestState| c.reward_pending));
    }
}

} // verus!
