//! The rules that run a game session: exploring the map, starting and ending
//! combats, chests and their rewards, travelling between worlds, and the
//! end-of-game menu.
use vstd::prelude::*;
use crate::coffre::{
    adjacent, can_open, chest_animated, opening_started, pending_rewards, rebuilt_chests, reward_taken, small_coord,
    ChestState, ChestSystem,
};
use crate::combat::{
    rolls_in_range, CombatEvent, CombatMessage, CombatResolution, CombatResult, CombatRolls, CombatState, CombatTransition,
    PlayerAction,
};
use crate::ennemi::Ennemi;
use crate::joueur::Joueur;
use crate::map::{
    build_walkable_map, default_map_tiles, default_tile, detect_house_anchors, enemy_cap, find_tile_position,
    enemies_spawned, enemy_cap_spec, grid_view, has_map_shape, is_walkable_tile, slot_of, spawn_random_enemies,
    tile_is_walkable, world_slot,
    cells_listed, covers_map, first_tile_found, in_map, is_chest_tile, is_house_anchor, tile_at, tile_is, TileType, WorldKind, MAP_HEIGHT, MAP_WIDTH, MAX_ENEMIES, PLAYER_START_X, PLAYER_START_Y,
};
use crate::types::{saturating_mul, saturating_mul_spec, Combatant, Position, PLAYER_MAX_VIE};
use crate::world::{alive_at, step_fits, step_target, World};

verus! {

#[derive(Clone, Copy, Debug, PartialEq, Eq, Structural)]
pub struct GameOverState {
    /// 0 for "play again", 1 for "quit".
    pub selected: usize,
    /// False after a victory: the game can then only be left.
    pub allow_restart: bool,
}

#[derive(Debug)]
pub enum GameState {
    Exploration,
    Combat(CombatState),
    GameOver(GameOverState),
}

/// What a message on screen tells the player.
#[derive(Clone, Copy, Debug, PartialEq, Eq, Structural)]
pub enum GameText {
    /// The player took a step.
    Moved,
    /// The player tried to step onto an enemy.
    EnemyOnTile,
    /// An enemy walked onto the player.
    EnemyAttacks,
    /// The player arrived in this world.
    EnteredWorld(WorldKind),
    /// The player opened a chest.
    ChestOpened,
    /// The player opened the victory chest.
    Victory,
    /// The player lost a combat.
    Defeated,
    /// Something happened in combat.
    Combat(CombatEvent),
    /// A chest raised the player's attack.
    AttackRaised { before: u32, after: u32 },
}

#[derive(Clone, Copy, Debug)]
pub struct Message {
    pub text: GameText,
    /// Time left on screen, in milliseconds.
    pub timer_ms: u32,
    pub centered: bool,
}

pub struct Game {
    pub state: GameState,
    pub messages: Vec<Message>,
    pub current_world: WorldKind,
    pub map_tiles: Vec<Vec<TileType>>,
    pub house_anchors: Vec<Position>,
    pub chests: ChestSystem,
    /// The enemies each world had when the player last left it, one slot per world.
    pub enemy_cache: Vec<Option<Vec<Ennemi>>>,
}

/// `tiles` when it has the standard map size, the fallback map otherwise.
pub open spec fn usable_map(tiles: Seq<Seq<TileType>>) -> Seq<Seq<TileType>> {
    if has_map_shape(tiles) {
        tiles
    } else {
        Seq::new(MAP_HEIGHT as nat, |y: int| Seq::new(MAP_WIDTH as nat, |x: int| default_tile(x, y)))
    }
}

/// `tiles` has exactly the standard map size.
pub fn map_is_standard(tiles: &[Vec<TileType>]) -> (ok: bool)
    ensures
        ok == has_map_shape(grid_view(tiles@)),
{
    let mut ok = tiles.len() == MAP_HEIGHT;
    if ok {
        for y in 0..MAP_HEIGHT
            invariant
                tiles@.len() == MAP_HEIGHT,
                ok == forall|r: int| 0 <= r < y ==> #[trigger] tiles@[r]@.len() == MAP_WIDTH,
        {
            if tiles[y].len() != MAP_WIDTH {
                ok = false;
            }
        }
    }
    proof {
        if ok {
            assert forall|y: int| 0 <= y < MAP_HEIGHT implies #[trigger] grid_view(tiles@)[y].len() == MAP_WIDTH by {
                assert(grid_view(tiles@)[y] == tiles@[y]@);
            }
        } else if tiles@.len() == MAP_HEIGHT {
            let y = choose|y: int| 0 <= y < MAP_HEIGHT && #[trigger] tiles@[y]@.len() != MAP_WIDTH;
            assert(grid_view(tiles@)[y] == tiles@[y]@);
        }
    }
    ok
}

proof fn lemma_default_is_usable(d: Seq<Vec<TileType>>, any: Seq<Seq<TileType>>)
    requires
        has_map_shape(grid_view(d)),
        !has_map_shape(any),
        forall|x: int, y: int| 0 <= x < MAP_WIDTH && 0 <= y < MAP_HEIGHT ==> #[trigger] crate::map::tile_at(d, x, y) == default_tile(x, y),
    ensures
        grid_view(d) == usable_map(any),
{
    assert forall|y: int| 0 <= y < MAP_HEIGHT implies #[trigger] grid_view(d)[y] =~= usable_map(any)[y] by {
        assert forall|x: int| 0 <= x < MAP_WIDTH implies grid_view(d)[y][x] == usable_map(any)[y][x] by {
            assert(crate::map::tile_at(d, x, y) == default_tile(x, y));
        }
    }
    assert(grid_view(d) =~= usable_map(any));
}

/// Keeps `tiles` when it has the standard map size, and uses the fallback map
/// otherwise.
pub fn usable_map_tiles(tiles: Vec<Vec<TileType>>) -> (r: Vec<Vec<TileType>>)
    ensures
        grid_view(r@) == usable_map(grid_view(tiles@)),
        has_map_shape(grid_view(r@)),
{
    if map_is_standard(&tiles) {
        tiles
    } else {
        let d = default_map_tiles();
        proof {
            lemma_default_is_usable(d@, grid_view(tiles@));
        }
        d
    }
}

fn copy_map(tiles: &Vec<Vec<TileType>>) -> (r: Vec<Vec<TileType>>)
    ensures
        grid_view(r@) == grid_view(tiles@),
{
    let mut r: Vec<Vec<TileType>> = Vec::new();
    let n = tiles.len();
    for y in 0..n
        invariant
            n == tiles@.len(),
            r@.len() == y,
            grid_view(r@) == grid_view(tiles@.take(y as int)),
    {
        let row = &tiles[y];
        let mut copy: Vec<TileType> = Vec::new();
        let m = row.len();
        for x in 0..m
            invariant
                m == row@.len(),
                copy@ == row@.take(x as int),
        {
            copy.push(row[x]);
            proof {
                assert(copy@ =~= row@.take(x as int + 1));
            }
        }
        proof {
            assert(row@.take(m as int) == row@);
        }
        let ghost before = r@;
        r.push(copy);
        proof {
            let t = tiles@.take(y as int + 1);
            assert(t.take(y as int) =~= tiles@.take(y as int));
            assert forall|i: int| 0 <= i < y as int implies #[trigger] grid_view(r@)[i] == grid_view(t)[i] by {
                assert(grid_view(r@)[i] == r@[i]@);
                assert(r@[i] == before[i]);
                assert(grid_view(before)[i] == before[i]@);
                assert(grid_view(tiles@.take(y as int))[i] == tiles@.take(y as int)[i]@);
                assert(grid_view(t)[i] == t[i]@);
            }
            assert(grid_view(r@)[y as int] == grid_view(t)[y as int]);
            assert(grid_view(r@) =~= grid_view(t));
        }
    }
    proof {
        assert(tiles@.take(n as int) == tiles@);
    }
    r
}

fn copy_enemies(v: &Vec<Ennemi>) -> (r: Vec<Ennemi>)
    ensures
        r@ == v@,
{
    let mut r: Vec<Ennemi> = Vec::new();
    let n = v.len();
    for i in 0..n
        invariant
            n == v@.len(),
            r@ == v@.take(i as int),
    {
        r.push(v[i]);
        proof {
            assert(r@ =~= v@.take(i as int + 1));
        }
    }
    proof {
        assert(v@.take(n as int) == v@);
    }
    r
}

/// The number of living fighters in `s`.
pub open spec fn alive_count<C: Combatant>(s: Seq<C>) -> nat {
    s.filter(|c: C| c.spec_stats().vie > 0).len()
}

fn count_alive(s: &Vec<Ennemi>) -> (n: usize)
    ensures
        n == alive_count(s@),
{
    let mut n: usize = 0;
    let len = s.len();
    for i in 0..len
        invariant
            len == s@.len(),
            n == alive_count(s@.take(i as int)),
            n <= i,
    {
        proof {
            reveal_with_fuel(Seq::<_>::filter, 1);
            assert(s@.take(i as int + 1).drop_last() == s@.take(i as int));
        }
        if s[i].est_vivant() {
            n = n + 1;
        }
    }
    proof {
        assert(s@.take(len as int) == s@);
    }
    n
}

/// A portal's far end: the world it leads to and the portal tile to arrive on.
#[derive(Clone, Copy, Debug, PartialEq, Eq, Structural)]
pub struct Portal {
    pub world: WorldKind,
    pub arrival: TileType,
}

/// Where the portal tile `tile` leads from `current`: the target world and
/// the kind of portal to arrive on. The house portal links the plain and the
/// house; each spiral portal links the plain and its spiral world.
pub open spec fn portal_target_spec(current: WorldKind, tile: TileType) -> Option<Portal> {
    match tile {
        TileType::Portal => match current {
            WorldKind::Plaine => Some(Portal { world: WorldKind::Maison, arrival: TileType::Portal }),
            WorldKind::Maison => Some(Portal { world: WorldKind::Plaine, arrival: TileType::Portal }),
            _ => None,
        },
        TileType::SpiralPortal => match current {
            WorldKind::Plaine => Some(Portal { world: WorldKind::Spirale, arrival: TileType::SpiralPortal }),
            WorldKind::Spirale => Some(Portal { world: WorldKind::Plaine, arrival: TileType::SpiralPortal }),
            _ => None,
        },
        TileType::SpiralPortal2 => match current {
            WorldKind::Plaine => Some(Portal { world: WorldKind::Spirale2, arrival: TileType::SpiralPortal2 }),
            WorldKind::Spirale2 => Some(Portal { world: WorldKind::Plaine, arrival: TileType::SpiralPortal2 }),
            _ => None,
        },
        _ => None,
    }
}

/// Where the portal tile `tile` leads from `current`, if anywhere.
pub fn portal_target(current: WorldKind, tile: TileType) -> (r: Option<Portal>)
    ensures
        r == portal_target_spec(current, tile),
{
    match tile {
        TileType::Portal => match current {
            WorldKind::Plaine => Some(Portal { world: WorldKind::Maison, arrival: TileType::Portal }),
            WorldKind::Maison => Some(Portal { world: WorldKind::Plaine, arrival: TileType::Portal }),
            _ => None,
        },
        TileType::SpiralPortal => match current {
            WorldKind::Plaine => Some(Portal { world: WorldKind::Spirale, arrival: TileType::SpiralPortal }),
            WorldKind::Spirale => Some(Portal { world: WorldKind::Plaine, arrival: TileType::SpiralPortal }),
            _ => None,
        },
        TileType::SpiralPortal2 => match current {
            WorldKind::Plaine => Some(Portal { world: WorldKind::Spirale2, arrival: TileType::SpiralPortal2 }),
            WorldKind::Spirale2 => Some(Portal { world: WorldKind::Plaine, arrival: TileType::SpiralPortal2 }),
            _ => None,
        },
        _ => None,
    }
}

/// What the end screen asks for.
#[derive(Clone, Copy, Debug, PartialEq, Eq, Structural)]
pub enum GameOverAction {
    Stay,
    Restart,
    Quit,
}

/// What an attempted step of the player led to.
#[derive(Clone, Copy, Debug, PartialEq, Eq, Structural)]
pub enum ExploreOutcome {
    /// The step was not taken.
    Blocked,
    /// The target cell held a living enemy, at this index: a combat began.
    Combat(usize),
    /// The player stepped from one cell to the other; when the cell reached is
    /// a portal, the world it leads to and the portal to arrive on.
    Moved { from: Position, to: Position, portal: Option<Portal> },
}

/// `s1` and `w1` are game `s0` and world `w0` once a combat against enemy
/// `enemy_idx` was engaged with the message `text`: when exploring and both
/// fighters exist, the message shows, enemies freeze, and a combat begins in
/// which the player moves first unless the enemy is faster; otherwise nothing
/// changes.
pub open spec fn combat_engaged(s0: Game, w0: World, enemy_idx: usize, text: GameText, s1: Game, w1: World) -> bool {
    let starts = s0.state == GameState::Exploration && w0.players@.len() > 0 && enemy_idx < w0.enemies@.len();
    &&& starts ==> {
        &&& s1.messages@ == s0.messages@.push(Message { text, timer_ms: 1200, centered: false })
        &&& s1.state matches GameState::Combat(cs) && {
            &&& cs.spec_player_idx() == 0
            &&& cs.spec_enemy_idx() == enemy_idx
            &&& !cs.spec_player_defending()
            &&& !cs.spec_enemy_defending()
            &&& cs.spec_player_turn() == (w0.players@[0].spec_stats().vitesse >= w0.enemies@[enemy_idx as int].spec_stats().vitesse)
        }
        &&& w1 == World { enemies_frozen: true, ..w0 }
    }
    &&& !starts ==> s1 == s0 && w1 == w0
    &&& s1.current_world == s0.current_world
    &&& s1.map_tiles == s0.map_tiles
    &&& s1.house_anchors == s0.house_anchors
    &&& s1.chests == s0.chests
    &&& s1.enemy_cache == s0.enemy_cache
}

/// The first living enemy on `(x, y)`, if any.
pub open spec fn first_alive_enemy_at(world: World, x: int, y: int, r: Option<usize>) -> bool {
    match r {
        Some(i) => {
            &&& i < world.enemies@.len()
            &&& alive_at(world.enemies@[i as int], x, y)
            &&& forall|j: int| 0 <= j < i ==> !alive_at(#[trigger] world.enemies@[j], x, y)
        },
        None => forall|j: int| 0 <= j < world.enemies@.len() ==> !alive_at(#[trigger] world.enemies@[j], x, y),
    }
}

/// The combat messages shown to the player, one per event of the turn.
pub open spec fn combat_messages(res: Seq<CombatMessage>) -> Seq<Message> {
    res.map_values(|m: CombatMessage| Message { text: GameText::Combat(m.event), timer_ms: m.duree_ms, centered: false })
}

/// `s1` and `w1` are game `s0` and world `w0` after a combat turn that
/// resolved to `res`, leaving the combat as `cs1` and the world as `wt`: the
/// turn's messages show; a continuing combat goes on; an ended one returns to
/// exploring and unfreezes the enemies, a beaten enemy (victory or double
/// knock-out) leaves the world, and a lost combat adds a message.
pub open spec fn combat_turn_applied(s0: Game, cs: CombatState, res: CombatResolution, cs1: CombatState, wt: World,
    s1: Game, w1: World) -> bool {
    let msgs = s0.messages@ + combat_messages(res.messages@);
    &&& s1.current_world == s0.current_world
    &&& s1.map_tiles == s0.map_tiles
    &&& s1.house_anchors == s0.house_anchors
    &&& s1.chests == s0.chests
    &&& s1.enemy_cache == s0.enemy_cache
    &&& match res.transition {
        CombatTransition::Continue => {
            &&& s1.state == GameState::Combat(cs1)
            &&& w1 == wt
            &&& s1.messages@ == msgs
        },
        CombatTransition::Terminer(result) => {
            let beaten = result == CombatResult::JoueurVainqueur || result == CombatResult::DoubleKo;
            let lost = result == CombatResult::EnnemiVainqueur || result == CombatResult::DoubleKo;
            let idx = cs.spec_enemy_idx();
            &&& s1.state == GameState::Exploration
            &&& w1.enemies_frozen == false
            &&& w1.players == wt.players
            &&& w1.width == wt.width
            &&& w1.height == wt.height
            &&& w1.walkable == wt.walkable
            &&& w1.enemies@ == if beaten && idx < wt.enemies@.len() { wt.enemies@.remove(idx as int) } else { wt.enemies@ }
            &&& s1.messages@ == if lost { msgs.push(Message { text: GameText::Defeated, timer_ms: 2000, centered: false }) } else { msgs }
        },
    }
}

/// Where the player arrives in `target` coming from `previous`: on the first
/// arrival portal found (`found`), or at the start cell if there is none;
/// between the plain and a spiral world the player keeps its row `player_y`
/// and arrives on the matching edge instead.
pub open spec fn arrival_cell(previous: WorldKind, target: WorldKind, found: Option<Position>, player_y: Option<usize>) -> Position {
    let base = match found {
        Some(p) => p,
        None => Position { x: PLAYER_START_X, y: PLAYER_START_Y },
    };
    match player_y {
        None => base,
        Some(y) => if previous == WorldKind::Plaine && target == WorldKind::Spirale {
            Position { x: 0, y }
        } else if previous == WorldKind::Spirale && target == WorldKind::Plaine {
            Position { x: (MAP_WIDTH - 1) as usize, y }
        } else if previous == WorldKind::Plaine && target == WorldKind::Spirale2 {
            Position { x: (MAP_WIDTH - 1) as usize, y }
        } else if previous == WorldKind::Spirale2 && target == WorldKind::Plaine {
            Position { x: 0, y }
        } else {
            base
        },
    }
}

/// The chests stored for `target` once those of `prev` were stored: the
/// current chests when travelling within the same world, the stored ones
/// otherwise.
pub open spec fn chests_found_on_arrival(chests: ChestSystem, prev: WorldKind, target: WorldKind) -> Option<Seq<crate::coffre::ChestState>> {
    if chests.spec_chests().len() > 0 && prev == target {
        Some(chests.spec_chests())
    } else {
        chests.spec_cached(target)
    }
}

/// `w1` is `w0` with the first player, if any, standing on `pos`.
pub open spec fn player_placed(w0: World, pos: Position, w1: World) -> bool {
    &&& w1.enemies == w0.enemies
    &&& w1.width == w0.width
    &&& w1.height == w0.height
    &&& w1.enemies_frozen == w0.enemies_frozen
    &&& w1.walkable == w0.walkable
    &&& w1.players@.len() == w0.players@.len()
    &&& w0.players@.len() > 0 ==> {
        &&& forall|j: int| 0 < j < w0.players@.len() ==> #[trigger] w1.players@[j] == w0.players@[j]
        &&& w1.players@[0].spec_position() == pos
        &&& w1.players@[0].spec_stats() == w0.players@[0].spec_stats()
        &&& w1.players@[0].spec_id() == w0.players@[0].spec_id()
    }
    &&& w0.players@.len() == 0 ==> w1.players == w0.players
}

/// `w1` holds the enemies a world of kind `kind` gets on arrival: the stored
/// ones if `stored` holds some, freshly spawned ones up to the world's cap
/// otherwise. Everything else is `w0`'s.
pub open spec fn enemies_arrived(w0: World, stored: Option<Seq<Ennemi>>, grid: Seq<Seq<TileType>>, kind: WorldKind, w1: World) -> bool {
    match stored {
        Some(es) => w1.enemies@ == es && w1.players == w0.players && w1.width == w0.width && w1.height == w0.height
            && w1.enemies_frozen == w0.enemies_frozen && w1.walkable == w0.walkable,
        None => exists|we: World| {
            &&& we.enemies@.len() == 0
            &&& we.players == w0.players
            &&& we.width == w0.width
            &&& we.height == w0.height
            &&& we.enemies_frozen == w0.enemies_frozen
            &&& we.walkable == w0.walkable
            &&& #[trigger] enemies_spawned(we, grid, enemy_cap_spec(kind), kind, w1)
        },
    }
}

proof fn lemma_first_tile_unique(tiles: Seq<Vec<TileType>>, needle: TileType, f: Option<Position>)
    requires
        first_tile_found(tiles, needle, f),
    ensures
        (choose|g: Option<Position>| first_tile_found(tiles, needle, g)) == f,
{
    let g = choose|g: Option<Position>| first_tile_found(tiles, needle, g);
    assert(first_tile_found(tiles, needle, g));
    match (f, g) {
        (Some(p), Some(q)) => {
            assert(tile_is(tiles, p.x as int, p.y as int, needle));
            assert(tile_is(tiles, q.x as int, q.y as int, needle));
            if p.y < q.y || (p.y == q.y && p.x < q.x) {
                assert(!tile_is(tiles, p.x as int, p.y as int, needle));
            } else if q.y < p.y || (q.y == p.y && q.x < p.x) {
                assert(!tile_is(tiles, q.x as int, q.y as int, needle));
            }
        },
        (Some(p), None) => {
            assert(tile_is(tiles, p.x as int, p.y as int, needle));
        },
        (None, Some(q)) => {
            assert(tile_is(tiles, q.x as int, q.y as int, needle));
        },
        (None, None) => {},
    }
}

/// The end screen `g` after the input: left selects "play again" when
/// allowed, right selects "quit" (the only choice when playing again is not
/// allowed); with Enter or a click on a button (`clicked`, 0 or 1) the choice
/// is confirmed. Gives the new screen and what was asked for.
pub open spec fn end_screen_answer(g: GameOverState, left: bool, right: bool, enter: bool, clicked: Option<usize>)
    -> (GameOverState, GameOverAction) {
    let s1 = if g.allow_restart && left { 0 } else { g.selected };
    let s2 = if right || !g.allow_restart { 1 } else { s1 };
    let choice = match clicked { Some(c) => c, None => s2 };
    let action = if enter || clicked is Some {
        if choice == 0 && g.allow_restart {
            GameOverAction::Restart
        } else if choice == 1 {
            GameOverAction::Quit
        } else {
            GameOverAction::Stay
        }
    } else {
        GameOverAction::Stay
    };
    (GameOverState { selected: s2, allow_restart: g.allow_restart }, action)
}

/// After a victory the end screen can only be left: whatever the input, it
/// never asks to play again and keeps "quit" selected.
pub proof fn lemma_victory_screen_only_quits(g: GameOverState, left: bool, right: bool, enter: bool, clicked: Option<usize>)
    requires
        !g.allow_restart,
    ensures
        end_screen_answer(g, left, right, enter, clicked).1 != GameOverAction::Restart,
        end_screen_answer(g, left, right, enter, clicked).0 == (GameOverState { selected: 1, allow_restart: false }),
{
}

/// Every portal leads back: the portal one arrives on, in the world reached,
/// leads back to the world left, onto the same kind of portal.
pub proof fn lemma_portals_lead_back(current: WorldKind, tile: TileType)
    requires
        portal_target_spec(current, tile) is Some,
    ensures
        ({
            let p = portal_target_spec(current, tile)->Some_0;
            &&& p.arrival == tile
            &&& p.world != current
            &&& portal_target_spec(p.world, p.arrival) == Some(Portal { world: current, arrival: tile })
        }),
{
}

/// `s1` and `w1` are `s0` and `w0` once the player has moved to world
/// `target`, whose map file gave `tiles`, arriving by a portal of kind
/// `arrival` on `spawn`: the enemies and chests of the world left are stored;
/// the new world's map replaces the current one (the fallback map if `tiles`
/// has not the standard size), with its houses, its chests (stored state
/// kept), its walkable cells, and its enemies (stored ones, or new ones); the
/// player stands on the cell `arrival_cell` gives; a message announces the
/// world.
pub open spec fn world_entered(s0: Game, w0: World, target: WorldKind, arrival: TileType, tiles: Seq<Seq<TileType>>,
    spawn: Position, s1: Game, w1: World) -> bool {
    let prev = s0.current_world;
    let stored = if prev == target { Some(w0.enemies@) } else { s0.cached_enemies(target) };
    &&& s1.current_world == target
    &&& grid_view(s1.map_tiles@) == usable_map(tiles)
    &&& cells_listed(s1.house_anchors@, |p: Position| is_house_anchor(s1.map_tiles@, p.x as int, p.y as int))
    &&& s1.cached_enemies(prev) == Some(w0.enemies@)
    &&& forall|k: WorldKind| k != prev ==> #[trigger] s1.cached_enemies(k) == s0.cached_enemies(k)
    &&& exists|ps: Seq<Position>| cells_listed(ps, |p: Position| is_chest_tile(tile_at(s1.map_tiles@, p.x as int, p.y as int)))
        && s1.chests.spec_chests() == #[trigger] rebuilt_chests(ps, chests_found_on_arrival(s0.chests, prev, target))
    &&& s1.chests.spec_active() is None
    &&& s0.chests.spec_chests().len() > 0 ==> s1.chests.spec_cached(prev) == Some(s0.chests.spec_chests())
    &&& forall|k: WorldKind| k != prev ==> #[trigger] s1.chests.spec_cached(k) == s0.chests.spec_cached(k)
    &&& exists|wa: World| {
        &&& wa.walkable@.len() == MAP_HEIGHT
        &&& enemies_arrived(World { walkable: wa.walkable, ..w0 }, stored, grid_view(s1.map_tiles@), target, wa)
        &&& #[trigger] player_placed(wa, spawn, w1)
        &&& spawn == arrival_cell(prev, target, choose|f: Option<Position>| first_tile_found(s1.map_tiles@, arrival, f),
            if wa.players@.len() > 0 { Some(wa.players@[0].spec_position().y) } else { None })
    }
    &&& forall|y: int, x: int| 0 <= y < MAP_HEIGHT && 0 <= x < MAP_WIDTH
        ==> #[trigger] w1.walkable@[y]@[x] == is_walkable_tile(grid_view(s1.map_tiles@)[y][x])
    &&& s1.messages@ == s0.messages@.push(Message { text: GameText::EnteredWorld(target), timer_ms: 1200, centered: false })
    &&& s1.state == s0.state
}

/// Leaving a world and coming back to it later gives back its enemies as they
/// were when the player left, and its chests in the state they were left in
/// (those still on a chest cell of the map read on return), provided nothing
/// touched what was stored for it meanwhile.
pub proof fn lemma_return_restores_world(s0: Game, w0: World, target: WorldKind, arrival1: TileType,
    tiles1: Seq<Seq<TileType>>, spawn1: Position, s1: Game, w1: World, s1b: Game, w1b: World, arrival2: TileType,
    tiles2: Seq<Seq<TileType>>, spawn2: Position, s2: Game, w2: World)
    requires
        world_entered(s0, w0, target, arrival1, tiles1, spawn1, s1, w1),
        target != s0.current_world,
        s1b.current_world == target,
        s1b.cached_enemies(s0.current_world) == s1.cached_enemies(s0.current_world),
        s1b.chests.spec_cached(s0.current_world) == s1.chests.spec_cached(s0.current_world),
        world_entered(s1b, w1b, s0.current_world, arrival2, tiles2, spawn2, s2, w2),
    ensures
        w2.enemies@ == w0.enemies@,
        s0.chests.spec_chests().len() > 0 ==> exists|ps: Seq<Position>|
            cells_listed(ps, |p: Position| is_chest_tile(tile_at(s2.map_tiles@, p.x as int, p.y as int)))
            && s2.chests.spec_chests() == #[trigger] rebuilt_chests(ps, Some(s0.chests.spec_chests())),
{
    let a = s0.current_world;
    let wa = choose|wa: World| {
        &&& wa.walkable@.len() == MAP_HEIGHT
        &&& enemies_arrived(World { walkable: wa.walkable, ..w1b }, s1b.cached_enemies(a), grid_view(s2.map_tiles@), a, wa)
        &&& #[trigger] player_placed(wa, spawn2, w2)
        &&& spawn2 == arrival_cell(target, a, choose|f: Option<Position>| first_tile_found(s2.map_tiles@, arrival2, f),
            if wa.players@.len() > 0 { Some(wa.players@[0].spec_position().y) } else { None })
    };
    assert(player_placed(wa, spawn2, w2));
    assert(wa.enemies@ == w0.enemies@);
    if s0.chests.spec_chests().len() > 0 {
        assert(chests_found_on_arrival(s1b.chests, target, a) == Some(s0.chests.spec_chests()));
    }
}

/// `a` doubled `n` times, each time saturating at `u32::MAX`.
pub open spec fn doubled(a: u32, n: nat) -> u32
    decreases n,
{
    if n == 0 { a } else { saturating_mul_spec(doubled(a, (n - 1) as nat), 2) }
}

/// The game is won: the end screen offers only to quit. A game already won
/// stays as it is.
pub open spec fn won(state: GameState) -> GameState {
    if state matches GameState::GameOver(g) && !g.allow_restart {
        state
    } else {
        GameState::GameOver(GameOverState { selected: 1, allow_restart: false })
    }
}

/// The cell `p` of `grid` holds the victory chest.
pub open spec fn is_victory_cell(grid: Seq<Seq<TileType>>, p: Position) -> bool {
    grid[p.y as int][p.x as int] == TileType::VictoryChest
}

/// One of `rewards` is the victory chest.
pub open spec fn victory_among(grid: Seq<Seq<TileType>>, rewards: Seq<Position>) -> bool {
    exists|k: int| 0 <= k < rewards.len() && #[trigger] is_victory_cell(grid, rewards[k])
}

/// How many of `rewards` are ordinary chests.
pub open spec fn bonus_count(grid: Seq<Seq<TileType>>, rewards: Seq<Position>) -> nat
    decreases rewards.len(),
{
    if rewards.len() == 0 {
        0
    } else {
        bonus_count(grid, rewards.drop_last()) + if is_victory_cell(grid, rewards.last()) { 0nat } else { 1nat }
    }
}

/// The messages of `n` attack bonuses in a row, starting from attack `a`.
pub open spec fn bonus_messages(a: u32, n: nat) -> Seq<Message> {
    Seq::new(n, |j: int| Message {
        text: GameText::AttackRaised { before: doubled(a, j as nat), after: doubled(a, (j + 1) as nat) },
        timer_ms: 2500,
        centered: true,
    })
}

/// `mid` is what `dt_ms` of animation makes of the chests `cs`, the chest
/// picture having `frame_count` frames.
pub open spec fn chests_played(cs: Seq<ChestState>, mid: Seq<ChestState>, dt_ms: u32, frame_count: usize) -> bool {
    &&& mid.len() == cs.len()
    &&& dt_ms == 0 || frame_count == 0 ==> mid == cs
    &&& dt_ms > 0 && frame_count > 0 ==> forall|i: int| 0 <= i < cs.len()
        ==> chest_animated(cs[i], #[trigger] mid[i], dt_ms, (frame_count - 1) as usize)
}

/// `s1` and `w1` are `s0` and `w0` once the chest rewards found on `rewards`
/// are handed out in order: each ordinary chest doubles the first player's
/// attack with a message, the victory chest wins the game.
pub open spec fn rewards_handed_out(s0: Game, w0: World, rewards: Seq<Position>, s1: Game, w1: World) -> bool {
    let grid = grid_view(s0.map_tiles@);
    let n = bonus_count(grid, rewards);
    let vict = victory_among(grid, rewards);
    let changed = vict && won(s0.state) != s0.state;
    &&& s1.state == (if vict { won(s0.state) } else { s0.state })
    &&& changed ==> s1.chests.spec_active() is None
    &&& !changed ==> s1.chests.spec_active() == s0.chests.spec_active()
    &&& w0.players@.len() > 0 ==> {
        let p = w0.players@[0];
        &&& s1.messages@ == s0.messages@ + bonus_messages(p.spec_stats().attaque, n)
        &&& w1.players@.len() == w0.players@.len()
        &&& forall|j: int| 0 < j < w0.players@.len() ==> #[trigger] w1.players@[j] == w0.players@[j]
        &&& w1.players@[0].spec_stats().attaque == doubled(p.spec_stats().attaque, n)
        &&& w1.players@[0].spec_stats().vie == p.spec_stats().vie
        &&& w1.players@[0].spec_stats().vitesse == p.spec_stats().vitesse
        &&& w1.players@[0].spec_position() == p.spec_position()
        &&& w1.players@[0].spec_id() == p.spec_id()
    }
    &&& w0.players@.len() == 0 ==> s1.messages@ == s0.messages@ && w1.players == w0.players
    &&& w1.enemies == w0.enemies
    &&& w1.width == w0.width
    &&& w1.height == w0.height
    &&& w1.enemies_frozen == w0.enemies_frozen
    &&& w1.walkable == w0.walkable
}

/// `cached` holds the enemies spawned, up to the cap of world `kind`, on an
/// empty world of the standard size whose map file gave `tiles`.
pub open spec fn enemies_preloaded(cached: Option<Seq<Ennemi>>, tiles: Seq<Seq<TileType>>, kind: WorldKind) -> bool {
    exists|w0: World, w1: World| {
        &&& w0.width == MAP_WIDTH
        &&& w0.height == MAP_HEIGHT
        &&& w0.players@.len() == 0
        &&& w0.enemies@.len() == 0
        &&& #[trigger] enemies_spawned(w0, usable_map(tiles), enemy_cap_spec(kind), kind, w1)
        &&& cached == Some(w1.enemies@)
    }
}

/// Between the plain and a spiral world the player keeps its row and arrives
/// on an edge of the map: entering the first spiral world from the plain on
/// the west edge and coming back on the east edge; entering the second spiral
/// world from the plain on the east edge and coming back on the west edge.
pub proof fn lemma_spiral_arrival_edges(s0: Game, w0: World, target: WorldKind, arrival: TileType,
    tiles: Seq<Seq<TileType>>, spawn: Position, s1: Game, w1: World)
    requires
        world_entered(s0, w0, target, arrival, tiles, spawn, s1, w1),
        w0.players@.len() > 0,
    ensures
        ({
            let from = s0.current_world;
            let y = w0.players@[0].spec_position().y;
            &&& from == WorldKind::Plaine && target == WorldKind::Spirale ==> spawn == (Position { x: 0, y })
            &&& from == WorldKind::Spirale && target == WorldKind::Plaine ==> spawn == (Position { x: 11, y })
            &&& from == WorldKind::Plaine && target == WorldKind::Spirale2 ==> spawn == (Position { x: 11, y })
            &&& from == WorldKind::Spirale2 && target == WorldKind::Plaine ==> spawn == (Position { x: 0, y })
        }),
        w1.players@[0].spec_position() == spawn,
{
    let prev = s0.current_world;
    let stored = if prev == target { Some(w0.enemies@) } else { s0.cached_enemies(target) };
    let wa = choose|wa: World| {
        &&& wa.walkable@.len() == MAP_HEIGHT
        &&& enemies_arrived(World { walkable: wa.walkable, ..w0 }, stored, grid_view(s1.map_tiles@), target, wa)
        &&& #[trigger] player_placed(wa, spawn, w1)
        &&& spawn == arrival_cell(prev, target, choose|f: Option<Position>| first_tile_found(s1.map_tiles@, arrival, f),
            if wa.players@.len() > 0 { Some(wa.players@[0].spec_position().y) } else { None })
    };
    assert(player_placed(wa, spawn, w1));
    match stored {
        Some(es) => {},
        None => {
            let we = choose|we: World| {
                &&& we.enemies@.len() == 0
                &&& we.players == w0.players
                &&& we.width == w0.width
                &&& we.height == w0.height
                &&& we.enemies_frozen == w0.enemies_frozen
                &&& we.walkable == wa.walkable
                &&& #[trigger] enemies_spawned(we, grid_view(s1.map_tiles@), enemy_cap_spec(target), target, wa)
            };
            assert(enemies_spawned(we, grid_view(s1.map_tiles@), enemy_cap_spec(target), target, wa));
        },
    }
    assert(wa.players@ == w0.players@);
}

/// On an end screen that offers to play again, a click on the "play again"
/// button always asks to play again and a click on "quit" always asks to
/// quit, whatever keys are pressed; Enter confirms the button selected.
pub proof fn lemma_end_screen_buttons(g: GameOverState, left: bool, right: bool, enter: bool)
    requires
        g.allow_restart,
    ensures
        end_screen_answer(g, left, right, enter, Some(0)).1 == GameOverAction::Restart,
        end_screen_answer(g, left, right, enter, Some(1)).1 == GameOverAction::Quit,
        end_screen_answer(g, left, right, true, None).1 == (if right {
            GameOverAction::Quit
        } else if left {
            GameOverAction::Restart
        } else if g.selected == 0 {
            GameOverAction::Restart
        } else if g.selected == 1 {
            GameOverAction::Quit
        } else {
            GameOverAction::Stay
        }),
        end_screen_answer(g, left, right, false, None).1 == GameOverAction::Stay,
{
}

impl Game {
    /// Well-formed: a standard-size map, one enemy slot per world, and valid chests.
    pub open spec fn wf(&self) -> bool {
        &&& has_map_shape(grid_view(self.map_tiles@))
        &&& self.enemy_cache@.len() == 4
        &&& self.chests.wf()
    }

    /// The enemies stored for world `kind`, if any.
    pub open spec fn cached_enemies(&self, kind: WorldKind) -> Option<Seq<Ennemi>> {
        match self.enemy_cache@[world_slot(kind)] {
            Some(v) => Some(v@),
            None => None,
        }
    }

    /// A message reporting `text`, pushed for `timer_ms` milliseconds.
    fn say(&mut self, text: GameText, timer_ms: u32, centered: bool)
        ensures
            final(self).messages@ == old(self).messages@.push(Message { text, timer_ms, centered }),
            final(self).state == old(self).state,
            final(self).current_world == old(self).current_world,
            final(self).map_tiles == old(self).map_tiles,
            final(self).house_anchors == old(self).house_anchors,
            final(self).chests == old(self).chests,
            final(self).enemy_cache == old(self).enemy_cache,
    {
        self.messages.push(Message { text, timer_ms, centered });
    }

    /// Starts a combat against enemy `enemy_idx`, with the message `text`, when
    /// exploring and both fighters exist: enemies freeze, and the player moves
    /// first unless the enemy is faster. Otherwise nothing changes.
    pub fn engage_combat_with_enemy(&mut self, world: &mut World, enemy_idx: usize, text: GameText)
        ensures
            combat_engaged(*old(self), *old(world), enemy_idx, text, *final(self), *final(world)),
    {
        if !matches!(self.state, GameState::Exploration) {
            return;
        }
        if world.players.len() == 0 || enemy_idx >= world.enemies.len() {
            return;
        }
        self.say(text, 1200, false);
        world.enemies_frozen = true;
        let player_speed = world.players[0].vitesse();
        let enemy_speed = world.enemies[enemy_idx].vitesse();
        let player_first = player_speed >= enemy_speed;
        self.state = GameState::Combat(CombatState::with_initiative(0, enemy_idx, player_first));
    }

    /// The player tries to step by `(dx, dy)` while exploring. A step off the
    /// map or onto a tile that cannot be walked on is blocked. A step onto a
    /// living enemy starts a combat against it. Otherwise the player (the
    /// first one with identifier 0) moves if the world lets it, a message
    /// reports the step, and a portal reached is reported with its far end.
    pub fn explore(&mut self, world: &mut World, dx: isize, dy: isize) -> (r: ExploreOutcome)
        requires
            old(self).wf(),
            old(world).players@.len() > 0 ==> step_fits(old(world).players@[0].spec_position(), dx, dy),
            forall|i: int| 0 <= i < old(world).players@.len() && #[trigger] old(world).players@[i].spec_id() == 0
                ==> step_fits(old(world).players@[i].spec_position(), dx, dy),
        ensures
            final(self).wf(),
            old(world).players@.len() == 0 ==> r == ExploreOutcome::Blocked && *final(self) == *old(self) && *final(world) == *old(world),
            old(world).players@.len() > 0 ==> {
                let p = old(world).players@[0].spec_position();
                let (nx, ny) = step_target(p, dx, dy);
                let open = 0 <= nx < MAP_WIDTH && 0 <= ny < MAP_HEIGHT
                    && is_walkable_tile(grid_view(old(self).map_tiles@)[ny][nx]);
                let enemy = exists|j: int| 0 <= j < old(world).enemies@.len() && alive_at(#[trigger] old(world).enemies@[j], nx, ny);
                &&& !open ==> r == ExploreOutcome::Blocked && *final(self) == *old(self) && *final(world) == *old(world)
                &&& open && enemy ==> (r matches ExploreOutcome::Combat(i) && first_alive_enemy_at(*old(world), nx, ny, Some(i))
                    && combat_engaged(*old(self), *old(world), i, GameText::EnemyOnTile, *final(self), *final(world)))
                &&& open && !enemy ==> {
                    &&& old(world).player_moved(*final(world), 0, dx, dy)
                    &&& old(world).move_succeeds(0, dx, dy) ==> {
                        let to = final(world).players@[0].spec_position();
                        &&& r == ExploreOutcome::Moved {
                            from: p,
                            to,
                            portal: if in_map(to) { portal_target_spec(old(self).current_world,
                                grid_view(old(self).map_tiles@)[to.y as int][to.x as int]) } else { None },
                        }
                        &&& final(self).messages@ == old(self).messages@.push(Message { text: GameText::Moved, timer_ms: 600, centered: false })
                        &&& final(self).state == old(self).state
                    }
                    &&& !old(world).move_succeeds(0, dx, dy) ==> r == ExploreOutcome::Blocked && *final(self) == *old(self)
                }
            },
            final(self).current_world == old(self).current_world,
            final(self).map_tiles == old(self).map_tiles,
            final(self).house_anchors == old(self).house_anchors,
            final(self).chests == old(self).chests,
            final(self).enemy_cache == old(self).enemy_cache,
    {
        if world.players.len() == 0 {
            return ExploreOutcome::Blocked;
        }
        let old_pos = world.players[0].position();
        let nx = old_pos.x as isize + dx;
        let ny = old_pos.y as isize + dy;
        if nx < 0 || ny < 0 || nx >= MAP_WIDTH as isize || ny >= MAP_HEIGHT as isize {
            return ExploreOutcome::Blocked;
        }
        let nxu = nx as usize;
        let nyu = ny as usize;
        if !self.tile_walkable(nxu, nyu) {
            return ExploreOutcome::Blocked;
        }
        if let Some(e_idx) = world.find_enemy_on_tile(nxu, nyu) {
            self.engage_combat_with_enemy(world, e_idx, GameText::EnemyOnTile);
            return ExploreOutcome::Combat(e_idx);
        }
        if world.move_player(0, dx, dy) {
            let new_pos = world.players[0].position();
            self.say(GameText::Moved, 600, false);
            let portal = if new_pos.x < MAP_WIDTH && new_pos.y < MAP_HEIGHT {
                proof {
                    assert(grid_view(self.map_tiles@)[new_pos.y as int] == self.map_tiles@[new_pos.y as int]@);
                }
                portal_target(self.current_world, self.map_tiles[new_pos.y][new_pos.x])
            } else {
                None
            };
            return ExploreOutcome::Moved { from: old_pos, to: new_pos, portal };
        }
        ExploreOutcome::Blocked
    }

    /// Plays one turn of the current combat with the player's `action`, if
    /// any, and returns how the combat went on; returns `None` when no combat
    /// is under way.
    pub fn play_combat_turn(&mut self, world: &mut World, action: Option<PlayerAction>) -> (r: Option<CombatTransition>)
        requires
            old(self).state matches GameState::Combat(cs) ==> cs.turn_fits(*old(world)),
        ensures
            !(old(self).state matches GameState::Combat(_)) ==> r is None && *final(self) == *old(self) && *final(world) == *old(world),
            old(self).state matches GameState::Combat(cs) ==> exists|rolls: CombatRolls, cs1: CombatState, wt: World, res: CombatResolution| {
                &&& rolls_in_range(rolls)
                &&& #[trigger] cs.resolved(*old(world), action, rolls, cs1, wt, res)
                &&& r == Some(res.transition)
                &&& combat_turn_applied(*old(self), cs, res, cs1, wt, *final(self), *final(world))
            },
    {
        let mut current = GameState::Exploration;
        std::mem::swap(&mut current, &mut self.state);
        match current {
            GameState::Combat(mut cs) => {
                let ghost cs0 = cs;
                let ghost w0 = *world;
                let res = cs.update(world, action);
                let ghost wt = *world;
                let ghost cs1 = cs;
                let ghost m0 = self.messages@;
                let ghost s_mid = *self;
                let n = res.messages.len();
                for k in 0..n
                    invariant
                        n == res.messages@.len(),
                        self.state == s_mid.state,
                        self.current_world == s_mid.current_world,
                        self.map_tiles == s_mid.map_tiles,
                        self.house_anchors == s_mid.house_anchors,
                        self.chests == s_mid.chests,
                        self.enemy_cache == s_mid.enemy_cache,
                        self.messages@ == m0 + combat_messages(res.messages@.take(k as int)),
                {
                    let m = res.messages[k];
                    self.messages.push(Message { text: GameText::Combat(m.event), timer_ms: m.duree_ms, centered: false });
                    proof {
                        assert(res.messages@.take(k as int + 1) == res.messages@.take(k as int).push(m));
                        assert(self.messages@ =~= m0 + combat_messages(res.messages@.take(k as int + 1)));
                    }
                }
                proof {
                    assert(res.messages@.take(n as int) == res.messages@);
                }
                match res.transition {
                    CombatTransition::Continue => {
                        self.state = GameState::Combat(cs);
                    },
                    CombatTransition::Terminer(result) => {
                        if matches!(result, CombatResult::JoueurVainqueur | CombatResult::DoubleKo) {
                            let enemy_idx = cs.enemy_index();
                            if enemy_idx < world.enemies.len() {
                                world.enemies.remove(enemy_idx);
                            }
                        }
                        if matches!(result, CombatResult::EnnemiVainqueur | CombatResult::DoubleKo) {
                            self.say(GameText::Defeated, 2000, false);
                        }
                        world.enemies_frozen = false;
                    },
                }
                proof {
                    let rolls = choose|rolls: CombatRolls| rolls_in_range(rolls) && #[trigger] cs0.resolved(w0, action, rolls, cs1, wt, res);
                    assert(cs1.spec_enemy_idx() == cs0.spec_enemy_idx());
                    assert(self.current_world == old(self).current_world);
                    assert(self.chests == old(self).chests);
                    assert(self.enemy_cache == old(self).enemy_cache);
                    assert(m0 == old(self).messages@);
                    assert(combat_turn_applied(*old(self), cs0, res, cs1, wt, *self, *world));
                }
                Some(res.transition)
            },
            other => {
                self.state = other;
                None
            },
        }
    }

    /// Puts the first player, if any, on `pos`.
    pub fn move_player_to(world: &mut World, pos: Position)
        ensures
            player_placed(*old(world), pos, *final(world)),
    {
        if world.players.len() > 0 {
            let p = world.players[0].position_mut();
            p.x = pos.x;
            p.y = pos.y;
        }
    }

    /// Stores the enemies of `world` as those of the current world.
    pub fn store_current_world_enemies(&mut self, world: &World)
        requires
            old(self).wf(),
        ensures
            final(self).wf(),
            final(self).cached_enemies(old(self).current_world) == Some(world.enemies@),
            forall|k: WorldKind| k != old(self).current_world ==> #[trigger] final(self).cached_enemies(k) == old(self).cached_enemies(k),
            final(self).state == old(self).state,
            final(self).messages == old(self).messages,
            final(self).current_world == old(self).current_world,
            final(self).map_tiles == old(self).map_tiles,
            final(self).house_anchors == old(self).house_anchors,
            final(self).chests == old(self).chests,
    {
        let slot = slot_of(self.current_world);
        self.enemy_cache.set(slot, Some(copy_enemies(&world.enemies)));
        proof {
            assert forall|k: WorldKind| k != old(self).current_world implies #[trigger] self.cached_enemies(k) == old(self).cached_enemies(k) by {
                assert(world_slot(k) != world_slot(old(self).current_world));
            }
        }
    }

    /// Gives `world` the enemies of the current world: those stored for it,
    /// or, when none are stored, new ones spawned up to the world's cap.
    pub fn respawn_enemies_for_current_world(&self, world: &mut World)
        requires
            self.wf(),
            old(world).width <= MAP_WIDTH,
            old(world).height <= MAP_HEIGHT,
        ensures
            enemies_arrived(*old(world), self.cached_enemies(self.current_world), grid_view(self.map_tiles@), self.current_world, *final(world)),
    {
        world.enemies.clear();
        let slot = slot_of(self.current_world);
        match &self.enemy_cache[slot] {
            Some(stored) => {
                world.enemies = copy_enemies(stored);
            },
            None => {
                let ghost we = *world;
                let cap = enemy_cap(self.current_world);
                proof {
                    assert forall|y: int| 0 <= y < world.height implies #[trigger] self.map_tiles@[y]@.len() >= world.width by {
                        assert(grid_view(self.map_tiles@)[y] == self.map_tiles@[y]@);
                    }
                }
                spawn_random_enemies(world, &self.map_tiles, cap, self.current_world);
                proof {
                    if cap == 0 {
                        assert(enemies_spawned(we, grid_view(self.map_tiles@), enemy_cap_spec(self.current_world), self.current_world, *world));
                    }
                }
            },
        }
    }

    /// Stores, as the enemies of world `kind`, those spawned up to its cap on
    /// its map `tiles` (the fallback map if `tiles` has not the standard size).
    pub fn preload_enemy_cache(&mut self, kind: WorldKind, tiles: &[Vec<TileType>])
        requires
            old(self).wf(),
        ensures
            final(self).wf(),
            enemies_preloaded(final(self).cached_enemies(kind), grid_view(tiles@), kind),
            forall|k: WorldKind| k != kind ==> #[trigger] final(self).cached_enemies(k) == old(self).cached_enemies(k),
            final(self).cached_enemies(kind) is Some,
            final(self).state == old(self).state,
            final(self).messages == old(self).messages,
            final(self).current_world == old(self).current_world,
            final(self).map_tiles == old(self).map_tiles,
            final(self).house_anchors == old(self).house_anchors,
            final(self).chests == old(self).chests,
    {
        let mut temp = World::new(MAP_WIDTH, MAP_HEIGHT);
        let cap = enemy_cap(kind);
        if map_is_standard(tiles) {
            proof {
                assert forall|y: int| 0 <= y < temp.height implies #[trigger] tiles@[y]@.len() >= temp.width by {
                    assert(grid_view(tiles@)[y] == tiles@[y]@);
                }
            }
            let ghost w0 = temp;
            spawn_random_enemies(&mut temp, tiles, cap, kind);
            proof {
                assert(enemies_spawned(w0, usable_map(grid_view(tiles@)), enemy_cap_spec(kind), kind, temp));
            }
        } else {
            let d = default_map_tiles();
            proof {
                assert forall|y: int| 0 <= y < temp.height implies #[trigger] d@[y]@.len() >= temp.width by {
                    assert(grid_view(d@)[y] == d@[y]@);
                }
            }
            let ghost w0 = temp;
            spawn_random_enemies(&mut temp, &d, cap, kind);
            proof {
                lemma_default_is_usable(d@, grid_view(tiles@));
                assert(enemies_spawned(w0, usable_map(grid_view(tiles@)), enemy_cap_spec(kind), kind, temp));
            }
        }
        let slot = slot_of(kind);
        self.enemy_cache.set(slot, Some(temp.enemies));
        proof {
            assert forall|k: WorldKind| k != kind implies #[trigger] self.cached_enemies(k) == old(self).cached_enemies(k) by {
                assert(world_slot(k) != world_slot(kind));
            }
        }
    }

    /// Moves the game to world `target`, whose map file gave `tiles`, with the
    /// player arriving by a portal of kind `arrival`, as `world_entered` says.
    /// Returns where the player arrived.
    pub fn enter_world(&mut self, world: &mut World, target: WorldKind, arrival: TileType, tiles: Vec<Vec<TileType>>) -> (spawn: Position)
        requires
            old(self).wf(),
            old(world).width == MAP_WIDTH,
            old(world).height == MAP_HEIGHT,
        ensures
            final(self).wf(),
            world_entered(*old(self), *old(world), target, arrival, grid_view(tiles@), spawn, *final(self), *final(world)),
    {
        let previous_world = self.current_world;
        self.store_current_world_enemies(world);
        let ghost s_stored = *self;
        self.chests.store_world_snapshot(previous_world);
        let ghost c_stored = self.chests;
        self.map_tiles = usable_map_tiles(tiles);
        self.current_world = target;
        proof {
            assert(covers_map(self.map_tiles@)) by {
                assert forall|y: int| 0 <= y < MAP_HEIGHT implies #[trigger] self.map_tiles@[y]@.len() >= MAP_WIDTH by {
                    assert(grid_view(self.map_tiles@)[y] == self.map_tiles@[y]@);
                }
            }
        }
        self.house_anchors = detect_house_anchors(&self.map_tiles);
        self.chests.rebuild_from_tiles(&self.map_tiles, self.current_world);
        let ghost c_rebuilt = self.chests;
        let walkable = build_walkable_map(&self.map_tiles);
        let ghost wk = walkable@;
        proof {
            assert forall|y: int| 0 <= y < MAP_HEIGHT implies #[trigger] walkable@[y]@.len() == MAP_WIDTH by {
                assert(grid_view(self.map_tiles@)[y] == self.map_tiles@[y]@);
            }
        }
        world.update_walkable_map(walkable);
        let ghost w_walk = *world;
        self.respawn_enemies_for_current_world(world);
        let ghost wa = *world;
        let found = find_tile_position(&self.map_tiles, arrival);
        let mut spawn = match found {
            Some(p) => p,
            None => Position { x: PLAYER_START_X, y: PLAYER_START_Y },
        };
        if world.players.len() > 0 {
            let y = world.players[0].position().y;
            match (previous_world, target) {
                (WorldKind::Plaine, WorldKind::Spirale) => {
                    spawn.x = 0;
                    spawn.y = y;
                },
                (WorldKind::Spirale, WorldKind::Plaine) => {
                    spawn.x = MAP_WIDTH - 1;
                    spawn.y = y;
                },
                (WorldKind::Plaine, WorldKind::Spirale2) => {
                    spawn.x = MAP_WIDTH - 1;
                    spawn.y = y;
                },
                (WorldKind::Spirale2, WorldKind::Plaine) => {
                    spawn.x = 0;
                    spawn.y = y;
                },
                _ => {},
            }
        }
        Self::move_player_to(world, spawn);
        self.say(GameText::EnteredWorld(target), 1200, false);
        proof {
            assert forall|k: WorldKind| k != previous_world implies #[trigger] self.cached_enemies(k) == old(self).cached_enemies(k) by {
                assert(s_stored.cached_enemies(k) == old(self).cached_enemies(k));
            }
            assert(self.cached_enemies(previous_world) == s_stored.cached_enemies(previous_world));
            assert forall|k: WorldKind| k != previous_world implies #[trigger] self.chests.spec_cached(k) == old(self).chests.spec_cached(k) by {
                assert(c_stored.spec_cached(k) == old(self).chests.spec_cached(k));
                assert(self.chests.spec_cached(k) == c_stored.spec_cached(k));
            }
            if old(self).chests.spec_chests().len() > 0 {
                assert(self.chests.spec_cached(previous_world) == c_stored.spec_cached(previous_world));
            }
            if target != previous_world {
                assert(c_stored.spec_cached(target) == old(self).chests.spec_cached(target));
            } else if old(self).chests.spec_chests().len() == 0 {
                assert(c_stored.spec_cached(target) == old(self).chests.spec_cached(target));
            }
            let stored_chests = if old(self).chests.spec_chests().len() > 0 && previous_world == target {
                Some(old(self).chests.spec_chests())
            } else {
                old(self).chests.spec_cached(target)
            };
            assert(c_stored.spec_cached(target) == stored_chests);
            assert(self.chests == c_rebuilt);
            assert(exists|ps: Seq<Position>| cells_listed(ps, |p: Position| is_chest_tile(tile_at(self.map_tiles@, p.x as int, p.y as int)))
                    && self.chests.spec_chests() == rebuilt_chests(ps, stored_chests));
            assert(self.chests.spec_active() is None);
            let stored = if previous_world == target { Some(old(world).enemies@) } else { old(self).cached_enemies(target) };
            assert(s_stored.cached_enemies(target) == stored);
            assert(wa.walkable@.len() == MAP_HEIGHT);
            assert(enemies_arrived(World { walkable: wa.walkable, ..*old(world) }, stored, grid_view(self.map_tiles@), target, wa));
            assert(player_placed(wa, spawn, *world));
            let gm = grid_view(self.map_tiles@);
            assert(first_tile_found(self.map_tiles@, arrival, found));
            lemma_first_tile_unique(self.map_tiles@, arrival, found);
            assert forall|y: int, x: int| 0 <= y < MAP_HEIGHT && 0 <= x < MAP_WIDTH
                implies #[trigger] world.walkable@[y]@[x] == is_walkable_tile(gm[y][x]) by {
                assert(gm[y] == self.map_tiles@[y]@);
            }
            assert(w_walk == World { walkable: w_walk.walkable, ..*old(world) }) by {
                assert(w_walk.enemies == old(world).enemies);
            }
        }
        spawn
    }

    /// Starts a game on the plain, whose map file gave `plaine`, the other
    /// worlds' maps being `maison`, `spirale` and `spirale2` (each replaced by
    /// the fallback map when not of the standard size). The world has the
    /// standard size and one player, with identifier 0, on the start cell;
    /// every world gets its enemies spawned up front, and the plain's enemies
    /// enter the world.
    pub fn new(plaine: Vec<Vec<TileType>>, maison: &[Vec<TileType>], spirale: &[Vec<TileType>],
        spirale2: &[Vec<TileType>]) -> (r: (Game, World))
        ensures
            r.0.wf(),
            r.0.state == GameState::Exploration,
            r.0.messages@.len() == 0,
            r.0.current_world == WorldKind::Plaine,
            grid_view(r.0.map_tiles@) == usable_map(grid_view(plaine@)),
            cells_listed(r.0.house_anchors@, |p: Position| is_house_anchor(r.0.map_tiles@, p.x as int, p.y as int)),
            exists|ps: Seq<Position>| cells_listed(ps, |p: Position| is_chest_tile(tile_at(r.0.map_tiles@, p.x as int, p.y as int)))
                && r.0.chests.spec_chests() == #[trigger] rebuilt_chests(ps, None),
            r.0.chests.spec_active() is None,
            forall|k: WorldKind| #[trigger] r.0.chests.spec_cached(k) is None,
            enemies_preloaded(r.0.cached_enemies(WorldKind::Plaine), grid_view(plaine@), WorldKind::Plaine),
            enemies_preloaded(r.0.cached_enemies(WorldKind::Maison), grid_view(maison@), WorldKind::Maison),
            enemies_preloaded(r.0.cached_enemies(WorldKind::Spirale), grid_view(spirale@), WorldKind::Spirale),
            enemies_preloaded(r.0.cached_enemies(WorldKind::Spirale2), grid_view(spirale2@), WorldKind::Spirale2),
            r.1.width == MAP_WIDTH,
            r.1.height == MAP_HEIGHT,
            !r.1.enemies_frozen,
            r.1.players@.len() == 1,
            r.1.players@[0].spec_id() == 0,
            r.1.players@[0].spec_position() == (Position { x: PLAYER_START_X, y: PLAYER_START_Y }),
            r.1.players@[0].spec_stats().vie == PLAYER_MAX_VIE,
            r.1.players@[0].spec_stats().attaque == 15,
            r.1.players@[0].spec_stats().vitesse == 10,
            r.0.cached_enemies(WorldKind::Plaine) == Some(r.1.enemies@),
            forall|y: int, x: int| 0 <= y < MAP_HEIGHT && 0 <= x < MAP_WIDTH
                ==> #[trigger] r.1.walkable@[y]@[x] == is_walkable_tile(grid_view(r.0.map_tiles@)[y][x]),
    {
        let map_tiles = usable_map_tiles(copy_map(&plaine));
        let mut world = World::new(MAP_WIDTH, MAP_HEIGHT);
        world.add_player(Joueur::nouveau(0, Position { x: PLAYER_START_X, y: PLAYER_START_Y }));
        proof {
            assert(covers_map(map_tiles@)) by {
                assert forall|y: int| 0 <= y < MAP_HEIGHT implies #[trigger] map_tiles@[y]@.len() >= MAP_WIDTH by {
                    assert(grid_view(map_tiles@)[y] == map_tiles@[y]@);
                }
            }
        }
        let house_anchors = detect_house_anchors(&map_tiles);
        let mut enemy_cache: Vec<Option<Vec<Ennemi>>> = Vec::new();
        enemy_cache.push(None);
        enemy_cache.push(None);
        enemy_cache.push(None);
        enemy_cache.push(None);
        let mut game = Game {
            state: GameState::Exploration,
            messages: Vec::new(),
            current_world: WorldKind::Plaine,
            map_tiles,
            house_anchors,
            chests: ChestSystem::new(),
            enemy_cache,
        };
        game.chests.rebuild_from_tiles(&game.map_tiles, game.current_world);
        let walkable = build_walkable_map(&game.map_tiles);
        proof {
            assert forall|y: int| 0 <= y < MAP_HEIGHT implies #[trigger] walkable@[y]@.len() == MAP_WIDTH by {
                assert(grid_view(game.map_tiles@)[y] == game.map_tiles@[y]@);
            }
        }
        world.update_walkable_map(walkable);
        game.preload_enemy_cache(WorldKind::Plaine, &plaine);
        game.preload_enemy_cache(WorldKind::Maison, maison);
        game.preload_enemy_cache(WorldKind::Spirale, spirale);
        game.preload_enemy_cache(WorldKind::Spirale2, spirale2);
        game.respawn_enemies_for_current_world(&mut world);
        proof {
            let gm = grid_view(game.map_tiles@);
            assert forall|y: int, x: int| 0 <= y < MAP_HEIGHT && 0 <= x < MAP_WIDTH
                implies #[trigger] world.walkable@[y]@[x] == is_walkable_tile(gm[y][x]) by {
                assert(gm[y] == game.map_tiles@[y]@);
            }
        }
        (game, world)
    }

    /// Starts the game over on the plain, whose map file gave `plaine`: a fresh
    /// player on the start cell, newly spawned enemies, chests all closed, no
    /// message. Enemies stored for the other worlds stay.
    pub fn restart(&mut self, world: &mut World, plaine: Vec<Vec<TileType>>)
        requires
            old(self).wf(),
            old(world).width == MAP_WIDTH,
            old(world).height == MAP_HEIGHT,
        ensures
            final(self).wf(),
            final(self).state == GameState::Exploration,
            final(self).messages@.len() == 0,
            final(self).current_world == WorldKind::Plaine,
            grid_view(final(self).map_tiles@) == usable_map(grid_view(plaine@)),
            cells_listed(final(self).house_anchors@, |p: Position| is_house_anchor(final(self).map_tiles@, p.x as int, p.y as int)),
            exists|ps: Seq<Position>| cells_listed(ps, |p: Position| is_chest_tile(tile_at(final(self).map_tiles@, p.x as int, p.y as int)))
                && final(self).chests.spec_chests() == #[trigger] rebuilt_chests(ps, None),
            final(self).chests.spec_active() is None,
            forall|k: WorldKind| #[trigger] final(self).chests.spec_cached(k) is None,
            final(self).enemy_cache == old(self).enemy_cache,
            final(world).width == MAP_WIDTH,
            final(world).height == MAP_HEIGHT,
            !final(world).enemies_frozen,
            final(world).players@.len() == 1,
            final(world).players@[0].spec_id() == 0,
            final(world).players@[0].spec_position() == (Position { x: PLAYER_START_X, y: PLAYER_START_Y }),
            final(world).players@[0].spec_stats().vie == PLAYER_MAX_VIE,
            final(world).players@[0].spec_stats().attaque == 15,
            final(world).players@[0].spec_stats().vitesse == 10,
            (exists|w0: World| {
                &&& w0.enemies@.len() == 0
                &&& w0.players@ == final(world).players@
                &&& w0.width == MAP_WIDTH
                &&& w0.height == MAP_HEIGHT
                &&& !w0.enemies_frozen
                &&& w0.walkable == final(world).walkable
                &&& #[trigger] enemies_spawned(w0, grid_view(final(self).map_tiles@), MAX_ENEMIES, WorldKind::Plaine, *final(world))
            }),
            forall|y: int, x: int| 0 <= y < MAP_HEIGHT && 0 <= x < MAP_WIDTH
                ==> #[trigger] final(world).walkable@[y]@[x] == is_walkable_tile(grid_view(final(self).map_tiles@)[y][x]),
    {
        self.map_tiles = usable_map_tiles(plaine);
        self.current_world = WorldKind::Plaine;
        proof {
            assert(covers_map(self.map_tiles@)) by {
                assert forall|y: int| 0 <= y < MAP_HEIGHT implies #[trigger] self.map_tiles@[y]@.len() >= MAP_WIDTH by {
                    assert(grid_view(self.map_tiles@)[y] == self.map_tiles@[y]@);
                }
            }
        }
        self.house_anchors = detect_house_anchors(&self.map_tiles);
        let walkable = build_walkable_map(&self.map_tiles);
        proof {
            assert forall|y: int| 0 <= y < MAP_HEIGHT implies #[trigger] walkable@[y]@.len() == MAP_WIDTH by {
                assert(grid_view(self.map_tiles@)[y] == self.map_tiles@[y]@);
            }
        }
        world.update_walkable_map(walkable);
        world.players.clear();
        world.add_player(Joueur::nouveau(0, Position { x: PLAYER_START_X, y: PLAYER_START_Y }));
        world.enemies.clear();
        world.enemies_frozen = false;
        let ghost w0 = *world;
        proof {
            assert forall|y: int| 0 <= y < world.height implies #[trigger] self.map_tiles@[y]@.len() >= world.width by {
                assert(grid_view(self.map_tiles@)[y] == self.map_tiles@[y]@);
            }
        }
        spawn_random_enemies(world, &self.map_tiles, enemy_cap(self.current_world), self.current_world);
        self.chests = ChestSystem::new();
        self.chests.rebuild_from_tiles(&self.map_tiles, self.current_world);
        self.state = GameState::Exploration;
        self.messages.clear();
        proof {
            let gm = grid_view(self.map_tiles@);
            assert forall|y: int, x: int| 0 <= y < MAP_HEIGHT && 0 <= x < MAP_WIDTH
                implies #[trigger] world.walkable@[y]@[x] == is_walkable_tile(gm[y][x]) by {
                assert(gm[y] == self.map_tiles@[y]@);
            }
            assert(enemies_spawned(w0, gm, MAX_ENEMIES, WorldKind::Plaine, *world));
        }
    }

    /// Ends the game in victory: the end screen offers only to quit. A victory
    /// already reached stays as it is.
    pub fn trigger_victory(&mut self)
        requires
            old(self).wf(),
        ensures
            final(self).wf(),
            old(self).state == GameState::GameOver(GameOverState { selected: old(self).state->GameOver_0.selected, allow_restart: false })
                ==> *final(self) == *old(self),
            !(old(self).state matches GameState::GameOver(g) && !g.allow_restart) ==> {
                &&& final(self).state == GameState::GameOver(GameOverState { selected: 1, allow_restart: false })
                &&& final(self).chests.spec_active() is None
                &&& final(self).chests.spec_chests() == old(self).chests.spec_chests()
                &&& forall|k: WorldKind| #[trigger] final(self).chests.spec_cached(k) == old(self).chests.spec_cached(k)
            },
            final(self).messages == old(self).messages,
            final(self).current_world == old(self).current_world,
            final(self).map_tiles == old(self).map_tiles,
            final(self).house_anchors == old(self).house_anchors,
            final(self).enemy_cache == old(self).enemy_cache,
    {
        if let GameState::GameOver(g) = &self.state {
            if !g.allow_restart {
                return;
            }
        }
        self.chests.clear_active();
        self.state = GameState::GameOver(GameOverState { selected: 1, allow_restart: false });
    }

    /// A chest's reward: the first player's attack doubles (up to `u32::MAX`),
    /// and a message reports it.
    pub fn apply_player_attack_bonus(&mut self, world: &mut World)
        ensures
            old(world).players@.len() > 0 ==> {
                let p = old(world).players@[0];
                let after = saturating_mul_spec(p.spec_stats().attaque, 2);
                &&& final(self).messages@ == old(self).messages@.push(Message {
                    text: GameText::AttackRaised { before: p.spec_stats().attaque, after },
                    timer_ms: 2500,
                    centered: true,
                })
                &&& final(world).players@.len() == old(world).players@.len()
                &&& forall|j: int| 0 < j < old(world).players@.len() ==> #[trigger] final(world).players@[j] == old(world).players@[j]
                &&& final(world).players@[0].spec_stats().attaque == after
                &&& final(world).players@[0].spec_stats().vie == p.spec_stats().vie
                &&& final(world).players@[0].spec_stats().vitesse == p.spec_stats().vitesse
                &&& final(world).players@[0].spec_position() == p.spec_position()
                &&& final(world).players@[0].spec_id() == p.spec_id()
            },
            old(world).players@.len() == 0 ==> final(self).messages == old(self).messages && final(world).players == old(world).players,
            final(world).enemies == old(world).enemies,
            final(world).width == old(world).width,
            final(world).height == old(world).height,
            final(world).enemies_frozen == old(world).enemies_frozen,
            final(world).walkable == old(world).walkable,
            final(self).state == old(self).state,
            final(self).current_world == old(self).current_world,
            final(self).map_tiles == old(self).map_tiles,
            final(self).house_anchors == old(self).house_anchors,
            final(self).chests == old(self).chests,
            final(self).enemy_cache == old(self).enemy_cache,
    {
        if world.players.len() > 0 {
            let stats = world.players[0].stats_mut();
            let before = stats.attaque;
            let after = saturating_mul(stats.attaque, 2);
            stats.attaque = after;
            self.say(GameText::AttackRaised { before, after }, 2500, true);
        }
    }

    /// Offers the player the chest next to them, while exploring; offers none
    /// otherwise.
    pub fn update_chest_prompt(&mut self, world: &World)
        requires
            old(self).wf(),
            world.players@.len() > 0 ==> small_coord(world.players@[0].spec_position().x)
                && small_coord(world.players@[0].spec_position().y),
        ensures
            final(self).wf(),
            final(self).chests.spec_chests() == old(self).chests.spec_chests(),
            old(self).state != GameState::Exploration ==> final(self).chests.spec_active() is None,
            old(self).state == GameState::Exploration ==> match final(self).chests.spec_active() {
                Some(i) => {
                    &&& world.players@.len() > 0
                    &&& i < old(self).chests.spec_chests().len()
                    &&& can_open(old(self).chests.spec_chests()[i as int])
                    &&& adjacent(world.players@[0].spec_position(), old(self).chests.spec_chests()[i as int].position)
                    &&& forall|j: int| 0 <= j < i ==> !(can_open(#[trigger] old(self).chests.spec_chests()[j])
                        && adjacent(world.players@[0].spec_position(), old(self).chests.spec_chests()[j].position))
                },
                None => world.players@.len() > 0 ==> forall|j: int| 0 <= j < old(self).chests.spec_chests().len()
                    ==> !(can_open(#[trigger] old(self).chests.spec_chests()[j])
                    && adjacent(world.players@[0].spec_position(), old(self).chests.spec_chests()[j].position)),
            },
            final(self).state == old(self).state,
            final(self).messages == old(self).messages,
            final(self).current_world == old(self).current_world,
            final(self).map_tiles == old(self).map_tiles,
            final(self).house_anchors == old(self).house_anchors,
            final(self).enemy_cache == old(self).enemy_cache,
    {
        if !matches!(self.state, GameState::Exploration) {
            self.chests.clear_active();
            return;
        }
        let player_pos = if world.players.len() > 0 { Some(world.players[0].position()) } else { None };
        self.chests.refresh_prompt(player_pos);
    }

    /// Answers a click while exploring: when a chest is offered and the click
    /// falls on the prompt (`on_prompt`), the chest starts opening with a
    /// message; the victory chest also wins the game. Out of exploration, no
    /// chest is offered.
    pub fn handle_chest_click(&mut self, on_prompt: bool)
        requires
            old(self).wf(),
        ensures
            final(self).wf(),
            old(self).state != GameState::Exploration ==> {
                &&& final(self).chests.spec_active() is None
                &&& final(self).chests.spec_chests() == old(self).chests.spec_chests()
                &&& final(self).state == old(self).state
                &&& final(self).messages == old(self).messages
            },
            old(self).state == GameState::Exploration ==> match (old(self).chests.spec_active(), on_prompt) {
                (Some(i), true) => {
                    let c = old(self).chests.spec_chests()[i as int];
                    if !c.opened && !c.animating {
                        let victory = grid_view(old(self).map_tiles@)[c.position.y as int][c.position.x as int] == TileType::VictoryChest;
                        &&& final(self).chests.spec_chests() == old(self).chests.spec_chests().update(i as int, opening_started(c))
                        &&& final(self).chests.spec_active() is None
                        &&& victory ==> final(self).messages@ == old(self).messages@.push(Message { text: GameText::Victory, timer_ms: 3000, centered: true })
                        &&& victory ==> final(self).state == GameState::GameOver(GameOverState { selected: 1, allow_restart: false })
                        &&& !victory ==> final(self).messages@ == old(self).messages@.push(Message { text: GameText::ChestOpened, timer_ms: 1200, centered: false })
                        &&& !victory ==> final(self).state == old(self).state
                    } else {
                        final(self).chests == old(self).chests && final(self).state == old(self).state && final(self).messages == old(self).messages
                    }
                },
                _ => final(self).chests == old(self).chests && final(self).state == old(self).state && final(self).messages == old(self).messages,
            },
            final(self).current_world == old(self).current_world,
            final(self).map_tiles == old(self).map_tiles,
            final(self).house_anchors == old(self).house_anchors,
            final(self).enemy_cache == old(self).enemy_cache,
    {
        if !matches!(self.state, GameState::Exploration) {
            self.chests.clear_active();
            return;
        }
        if let Some(position) = self.chests.handle_click(on_prompt) {
            proof {
                assert(grid_view(self.map_tiles@)[position.y as int] == self.map_tiles@[position.y as int]@);
            }
            let tile = self.map_tiles[position.y][position.x];
            if tile == TileType::VictoryChest {
                self.say(GameText::Victory, 3000, true);
                self.trigger_victory();
            } else {
                self.say(GameText::ChestOpened, 1200, false);
            }
        }
    }

    /// Plays the chests' animation for `dt_ms` and hands out the rewards of the
    /// chests that finished opening, in order: the victory chest wins the game,
    /// any other chest doubles the first player's attack, with a message.
    pub fn update_chest_animation(&mut self, world: &mut World, dt_ms: u32, frame_count: usize)
        requires
            old(self).wf(),
        ensures
            final(self).wf(),
            exists|mid: Seq<ChestState>| {
                &&& #[trigger] chests_played(old(self).chests.spec_chests(), mid, dt_ms, frame_count)
                &&& final(self).chests.spec_chests() == mid.map_values(|c: ChestState| reward_taken(c))
                &&& rewards_handed_out(*old(self), *old(world), pending_rewards(mid), *final(self), *final(world))
            },
            forall|k: WorldKind| #[trigger] final(self).chests.spec_cached(k) == old(self).chests.spec_cached(k),
            final(self).current_world == old(self).current_world,
            final(self).map_tiles == old(self).map_tiles,
            final(self).house_anchors == old(self).house_anchors,
            final(self).enemy_cache == old(self).enemy_cache,
    {
        let ghost s0 = *self;
        let ghost w0 = *world;
        self.chests.update_animation(dt_ms, frame_count);
        let ghost mid = self.chests.spec_chests();
        let rewards = self.chests.collect_opened_rewards();
        proof {
            assert(self.chests.spec_chests() =~= mid.map_values(|c: ChestState| reward_taken(c)));
        }
        let ghost s1 = *self;
        let ghost grid = grid_view(self.map_tiles@);
        let ghost a0: u32 = if w0.players@.len() > 0 { w0.players@[0].spec_stats().attaque } else { 0 };
        let n = rewards.len();
        for i in 0..n
            invariant
                n == rewards@.len(),
                rewards@ == pending_rewards(mid),
                forall|k: int| 0 <= k < rewards@.len() ==> in_map(#[trigger] rewards@[k]),
                self.wf(),
                grid == grid_view(self.map_tiles@),
                a0 == (if w0.players@.len() > 0 { w0.players@[0].spec_stats().attaque } else { 0 }),
                rewards_handed_out(s0, w0, rewards@.take(i as int), *self, *world),
                self.chests.spec_chests() == s1.chests.spec_chests(),
                forall|k: WorldKind| #[trigger] self.chests.spec_cached(k) == s0.chests.spec_cached(k),
                s1.chests.spec_active() == s0.chests.spec_active(),
                self.current_world == s0.current_world,
                self.map_tiles == s0.map_tiles,
                self.house_anchors == s0.house_anchors,
                self.enemy_cache == s0.enemy_cache,
        {
            let position = rewards[i];
            let ghost before_s = *self;
            let ghost before_w = *world;
            proof {
                assert(in_map(rewards@[i as int]));
                assert(grid_view(self.map_tiles@)[position.y as int] == self.map_tiles@[position.y as int]@);
                assert(rewards@.take(i as int + 1).drop_last() == rewards@.take(i as int));
                assert(rewards@.take(i as int + 1).last() == position);
            }
            if self.map_tiles[position.y][position.x] == TileType::VictoryChest {
                self.trigger_victory();
                proof {
                    assert(victory_among(grid, rewards@.take(i as int + 1)));
                }
            } else {
                self.apply_player_attack_bonus(world);
                proof {
                    let b = bonus_count(grid, rewards@.take(i as int));
                    assert(bonus_count(grid, rewards@.take(i as int + 1)) == b + 1);
                    if w0.players@.len() > 0 {
                        assert(self.messages@ =~= s0.messages@ + bonus_messages(a0, b + 1));
                    }
                    assert(victory_among(grid, rewards@.take(i as int + 1)) == victory_among(grid, rewards@.take(i as int))) by {
                        if victory_among(grid, rewards@.take(i as int + 1)) {
                            let k = choose|k: int| 0 <= k < i + 1 && #[trigger] is_victory_cell(grid, rewards@.take(i as int + 1)[k]);
                            assert(k < i);
                            assert(rewards@.take(i as int)[k] == rewards@.take(i as int + 1)[k]);
                        }
                    }
                }
            }
        }
        proof {
            assert(rewards@.take(n as int) == rewards@);
            assert(chests_played(s0.chests.spec_chests(), mid, dt_ms, frame_count));
        }
    }

    /// The first enemy, living or not, that stands on the first player's cell.
    pub fn enemy_reaching_player(world: &World) -> (r: Option<usize>)
        ensures
            match r {
                Some(i) => {
                    &&& world.players@.len() > 0
                    &&& i < world.enemies@.len()
                    &&& world.enemies@[i as int].spec_position() == world.players@[0].spec_position()
                    &&& forall|j: int| 0 <= j < i ==> #[trigger] world.enemies@[j].spec_position() != world.players@[0].spec_position()
                },
                None => world.players@.len() > 0 ==> forall|j: int| 0 <= j < world.enemies@.len()
                    ==> #[trigger] world.enemies@[j].spec_position() != world.players@[0].spec_position(),
            },
    {
        if world.players.len() == 0 {
            return None;
        }
        let p = world.players[0].position();
        let n = world.enemies.len();
        for i in 0..n
            invariant
                n == world.enemies@.len(),
                world.players@.len() > 0,
                p == world.players@[0].spec_position(),
                forall|j: int| 0 <= j < i ==> #[trigger] world.enemies@[j].spec_position() != p,
        {
            if world.enemies[i].position() == p {
                return Some(i);
            }
        }
        None
    }

    /// An enemy that reached `pos` must step back: `pos` lies on the map and is
    /// neither grass, nor path, nor a house portal.
    pub open spec fn blocks_enemy(&self, pos: Position) -> bool {
        pos.x < MAP_WIDTH && pos.y < MAP_HEIGHT && !({
            let t = grid_view(self.map_tiles@)[pos.y as int][pos.x as int];
            t == TileType::Herbe || t == TileType::Chemin || t == TileType::Portal
        })
    }

    /// Whether an enemy that reached `pos` must step back.
    pub fn enemy_blocked(&self, pos: Position) -> (r: bool)
        requires
            self.wf(),
        ensures
            r == self.blocks_enemy(pos),
    {
        if pos.x < MAP_WIDTH && pos.y < MAP_HEIGHT {
            proof {
                assert(grid_view(self.map_tiles@)[pos.y as int] == self.map_tiles@[pos.y as int]@);
            }
            !matches!(self.map_tiles[pos.y][pos.x], TileType::Herbe | TileType::Chemin | TileType::Portal)
        } else {
            false
        }
    }

    /// Enemy `i`, which stood on `prev` before its last step, steps back onto
    /// `prev` when the cell it reached blocks it. Returns whether it did.
    pub fn settle_enemy_step(&self, world: &mut World, i: usize, prev: Position) -> (back: bool)
        requires
            self.wf(),
        ensures
            back == (i < old(world).enemies@.len() && self.blocks_enemy(old(world).enemies@[i as int].spec_position())),
            !back ==> *final(world) == *old(world),
            back ==> {
                let o = old(world).enemies@[i as int];
                let n = final(world).enemies@[i as int];
                &&& final(world).enemies@.len() == old(world).enemies@.len()
                &&& forall|j: int| 0 <= j < old(world).enemies@.len() && j != i ==> #[trigger] final(world).enemies@[j] == old(world).enemies@[j]
                &&& n.spec_position() == prev
                &&& n.spec_id() == o.spec_id()
                &&& n.spec_stats() == o.spec_stats()
                &&& n.spec_move_timer() == o.spec_move_timer()
                &&& n.spec_move_delay() == o.spec_move_delay()
                &&& final(world).players == old(world).players
                &&& final(world).width == old(world).width
                &&& final(world).height == old(world).height
                &&& final(world).enemies_frozen == old(world).enemies_frozen
                &&& final(world).walkable == old(world).walkable
            },
    {
        if i >= world.enemies.len() {
            return false;
        }
        let pos = world.enemies[i].position();
        if !self.enemy_blocked(pos) {
            return false;
        }
        let p = world.enemies[i].position_mut();
        p.x = prev.x;
        p.y = prev.y;
        true
    }

    /// While exploring, an enemy standing on the first player's cell starts a
    /// combat (the first such enemy, living or not). Returns its index, if any.
    pub fn enemy_encounter(&mut self, world: &mut World) -> (r: Option<usize>)
        ensures
            old(self).state != GameState::Exploration ==> r is None && *final(self) == *old(self) && *final(world) == *old(world),
            old(self).state == GameState::Exploration ==> match r {
                Some(i) => {
                    &&& old(world).players@.len() > 0
                    &&& i < old(world).enemies@.len()
                    &&& old(world).enemies@[i as int].spec_position() == old(world).players@[0].spec_position()
                    &&& forall|j: int| 0 <= j < i ==> #[trigger] old(world).enemies@[j].spec_position() != old(world).players@[0].spec_position()
                    &&& combat_engaged(*old(self), *old(world), i, GameText::EnemyAttacks, *final(self), *final(world))
                },
                None => {
                    &&& *final(self) == *old(self)
                    &&& *final(world) == *old(world)
                    &&& old(world).players@.len() > 0 ==> forall|j: int| 0 <= j < old(world).enemies@.len()
                        ==> #[trigger] old(world).enemies@[j].spec_position() != old(world).players@[0].spec_position()
                },
            },
    {
        if !matches!(self.state, GameState::Exploration) {
            return None;
        }
        match Game::enemy_reaching_player(world) {
            Some(i) => {
                self.engage_combat_with_enemy(world, i, GameText::EnemyAttacks);
                Some(i)
            },
            None => None,
        }
    }

    /// Answers the end screen's input: left selects "play again" when allowed,
    /// right selects "quit" (the only choice after a victory); Enter or a click
    /// on a button (`clicked`, 0 or 1) confirms. Outside the end screen nothing
    /// happens.
    pub fn game_over_input(&mut self, left: bool, right: bool, enter: bool, clicked: Option<usize>) -> (a: GameOverAction)
        ensures
            match old(self).state {
                GameState::GameOver(g) => {
                    &&& final(self).state == GameState::GameOver(end_screen_answer(g, left, right, enter, clicked).0)
                    &&& a == end_screen_answer(g, left, right, enter, clicked).1
                },
                _ => a == GameOverAction::Stay && final(self).state == old(self).state,
            },
            final(self).messages == old(self).messages,
            final(self).current_world == old(self).current_world,
            final(self).map_tiles == old(self).map_tiles,
            final(self).house_anchors == old(self).house_anchors,
            final(self).chests == old(self).chests,
            final(self).enemy_cache == old(self).enemy_cache,
    {
        let mut g = match &self.state {
            GameState::GameOver(g) => *g,
            _ => return GameOverAction::Stay,
        };
        if g.allow_restart && left {
            g.selected = 0;
        }
        if right {
            g.selected = 1;
        }
        if !g.allow_restart {
            g.selected = 1;
        }
        self.state = GameState::GameOver(g);
        if enter || clicked.is_some() {
            let action = match clicked {
                Some(c) => c,
                None => g.selected,
            };
            if action == 0 && g.allow_restart {
                return GameOverAction::Restart;
            } else if action == 1 {
                return GameOverAction::Quit;
            }
        }
        GameOverAction::Stay
    }

    /// Ends the game, with the option to play again, once the first player has
    /// no life left.
    pub fn check_game_over(&mut self, world: &World)
        ensures
            (world.players@.len() > 0 && world.players@[0].spec_stats().vie == 0)
                ==> final(self).state == GameState::GameOver(GameOverState { selected: 0, allow_restart: true }),
            !(world.players@.len() > 0 && world.players@[0].spec_stats().vie == 0) ==> final(self).state == old(self).state,
            final(self).messages == old(self).messages,
            final(self).current_world == old(self).current_world,
            final(self).map_tiles == old(self).map_tiles,
            final(self).house_anchors == old(self).house_anchors,
            final(self).chests == old(self).chests,
            final(self).enemy_cache == old(self).enemy_cache,
    {
        if world.players.len() > 0 && world.players[0].stats().vie == 0 {
            self.state = GameState::GameOver(GameOverState { selected: 0, allow_restart: true });
        }
    }

    /// Counts down every message by `dt_ms` and drops those whose time is up.
    pub fn update_messages(&mut self, dt_ms: u32)
        ensures
            final(self).messages@ == old(self).messages@.filter(|m: Message| m.timer_ms > dt_ms).map_values(
                |m: Message| Message { timer_ms: (m.timer_ms - dt_ms) as u32, ..m },
            ),
            final(self).state == old(self).state,
            final(self).current_world == old(self).current_world,
            final(self).map_tiles == old(self).map_tiles,
            final(self).house_anchors == old(self).house_anchors,
            final(self).chests == old(self).chests,
            final(self).enemy_cache == old(self).enemy_cache,
    {
        let mut kept: Vec<Message> = Vec::new();
        let n = self.messages.len();
        let ghost m0 = self.messages@;
        for i in 0..n
            invariant
                n == self.messages@.len(),
                m0 == self.messages@,
                kept@ == m0.take(i as int).filter(|m: Message| m.timer_ms > dt_ms).map_values(
                    |m: Message| Message { timer_ms: (m.timer_ms - dt_ms) as u32, ..m },
                ),
        {
            proof {
                reveal_with_fuel(Seq::<_>::filter, 1);
                assert(m0.take(i as int + 1).drop_last() == m0.take(i as int));
            }
            let m = self.messages[i];
            if m.timer_ms > dt_ms {
                kept.push(Message { timer_ms: m.timer_ms - dt_ms, ..m });
            }
            proof {
                assert(kept@ =~= m0.take(i as int + 1).filter(|m: Message| m.timer_ms > dt_ms).map_values(
                    |m: Message| Message { timer_ms: (m.timer_ms - dt_ms) as u32, ..m },
                ));
            }
        }
        proof {
            assert(m0.take(n as int) == m0);
        }
        self.messages = kept;
    }

    /// The map tile at `(x, y)` can be walked on.
    pub fn tile_walkable(&self, x: usize, y: usize) -> (r: bool)
        requires
            self.wf(),
            x < MAP_WIDTH,
            y < MAP_HEIGHT,
        ensures
            r == is_walkable_tile(grid_view(self.map_tiles@)[y as int][x as int]),
    {
        proof {
            assert(grid_view(self.map_tiles@)[y as int] == self.map_tiles@[y as int]@);
        }
        tile_is_walkable(self.map_tiles[y][x])
    }

    /// Living enemies stored for world `kind`, unless it is the current one.
    pub open spec fn stored_alive(&self, kind: WorldKind) -> nat {
        if self.current_world == kind {
            0
        } else {
            match self.cached_enemies(kind) {
                Some(s) => alive_count(s),
                None => 0,
            }
        }
    }

    /// Living enemies left in the game: those of the current world, plus those
    /// stored for the other worlds.
    pub open spec fn enemies_left(&self, world: World) -> nat {
        alive_count(world.enemies@) + self.stored_alive(WorldKind::Plaine) + self.stored_alive(WorldKind::Maison)
            + self.stored_alive(WorldKind::Spirale) + self.stored_alive(WorldKind::Spirale2)
    }

    /// The number of living enemies left in the game (`usize::MAX` should it
    /// not fit).
    pub fn remaining_enemies_total(&self, world: &World) -> (n: usize)
        requires
            self.wf(),
        ensures
            n == (if self.enemies_left(*world) <= usize::MAX { self.enemies_left(*world) } else { usize::MAX as nat }),
    {
        let mut total: usize = count_alive(&world.enemies);
        let current = slot_of(self.current_world);
        let ghost kinds = seq![WorldKind::Plaine, WorldKind::Maison, WorldKind::Spirale, WorldKind::Spirale2];
        let ghost mut sum: nat = alive_count(world.enemies@);
        for k in 0..4
            invariant
                kinds == seq![WorldKind::Plaine, WorldKind::Maison, WorldKind::Spirale, WorldKind::Spirale2],
                current == world_slot(self.current_world),
                self.wf(),
                sum == alive_count(world.enemies@)
                    + (if k <= 0 { 0 } else { self.stored_alive(WorldKind::Plaine) })
                    + (if k <= 1 { 0 } else { self.stored_alive(WorldKind::Maison) })
                    + (if k <= 2 { 0 } else { self.stored_alive(WorldKind::Spirale) })
                    + (if k <= 3 { 0 } else { self.stored_alive(WorldKind::Spirale2) }),
                total == (if sum <= usize::MAX { sum } else { usize::MAX as nat }),
        {
            proof {
                assert(world_slot(kinds[k as int]) == k);
            }
            if k != current {
                if let Some(stored) = &self.enemy_cache[k] {
                    let c = count_alive(stored);
                    total = total.saturating_add(c);
                    proof {
                        assert(self.cached_enemies(kinds[k as int]) == Some(stored@));
                        sum = sum + (c as nat);
                    }
                }
            }
            proof {
                assert(self.stored_alive(kinds[k as int]) == (if k == current { 0 } else {
                    match self.enemy_cache@[k as int] { Some(v) => alive_count(v@), None => 0 } }));
            }
        }
        total
    }
}

} // verus!
