//! The tile map: tile kinds, the four worlds, and what the rules read off a map.
use vstd::prelude::*;
use crate::chance::{random_in_range, random_index};
use crate::ennemi::{Ennemi, MAX_MOVE_DELAY_MS, MIN_MOVE_DELAY_MS};
use crate::joueur::Joueur;
use crate::types::{saturating_mul, Combatant, Position};
use crate::world::World;

verus! {

/// Number of columns of every map.
pub const MAP_WIDTH: usize = 12;
/// Number of rows of every map.
pub const MAP_HEIGHT: usize = 8;
/// Column where the player starts.
pub const PLAYER_START_X: usize = 2;
/// Row where the player starts.
pub const PLAYER_START_Y: usize = 3;
/// Enemies on the plain.
pub const MAX_ENEMIES: usize = 4;

#[derive(Copy, Clone, Debug, PartialEq, Eq, Structural)]
pub enum TileType {
    Herbe,
    Chemin,
    Eau,
    Maison,
    Portal,
    SpiralPortal,
    SpiralPortal2,
    CollisionInvisible,
    Coffre,
    VictoryChest,
}

#[derive(Copy, Clone, Debug, PartialEq, Eq, Structural)]
pub enum WorldKind {
    Plaine,
    Maison,
    Spirale,
    Spirale2,
}

impl WorldKind {
    /// Name of the file that holds the map of this world.
    pub fn filename(self) -> (s: &'static str)
        ensures
            self == WorldKind::Plaine ==> s@ == "plaine.map"@,
            self == WorldKind::Maison ==> s@ == "maison.map"@,
            self == WorldKind::Spirale ==> s@ == "spirale.map"@,
            self == WorldKind::Spirale2 ==> s@ == "spirale2.map"@,
    {
        match self {
            WorldKind::Plaine => "plaine.map",
            WorldKind::Maison => "maison.map",
            WorldKind::Spirale => "spirale.map",
            WorldKind::Spirale2 => "spirale2.map",
        }
    }

    /// Message shown on entering this world.
    pub fn entry_message(self) -> (s: &'static str)
        ensures
            self == WorldKind::Plaine ==> s@ == "Vous retournez dehors."@,
            self == WorldKind::Maison ==> s@ == "Vous entrez dans la maison."@,
            self == WorldKind::Spirale ==> s@ == "Vous sentez une étrange énergie en spirale..."@,
            self == WorldKind::Spirale2 ==> s@ == "Un vortex de puissance s'ouvre devant vous..."@,
    {
        match self {
            WorldKind::Plaine => "Vous retournez dehors.",
            WorldKind::Maison => "Vous entrez dans la maison.",
            WorldKind::Spirale => "Vous sentez une étrange énergie en spirale...",
            WorldKind::Spirale2 => "Un vortex de puissance s'ouvre devant vous...",
        }
    }

    /// Every world, in a fixed order.
    pub fn all() -> (v: Vec<WorldKind>)
        ensures
            v@ == seq![WorldKind::Plaine, WorldKind::Maison, WorldKind::Spirale, WorldKind::Spirale2],
    {
        vec![WorldKind::Plaine, WorldKind::Maison, WorldKind::Spirale, WorldKind::Spirale2]
    }
}

/// Index of each world in the per-world stores.
pub open spec fn world_slot(kind: WorldKind) -> int {
    match kind {
        WorldKind::Plaine => 0,
        WorldKind::Maison => 1,
        WorldKind::Spirale => 2,
        WorldKind::Spirale2 => 3,
    }
}

/// Index of each world in the per-world stores.
pub fn slot_of(kind: WorldKind) -> (i: usize)
    ensures
        i == world_slot(kind),
        i < 4,
{
    match kind {
        WorldKind::Plaine => 0,
        WorldKind::Maison => 1,
        WorldKind::Spirale => 2,
        WorldKind::Spirale2 => 3,
    }
}

/// Most enemies a world holds.
pub open spec fn enemy_cap_spec(kind: WorldKind) -> usize {
    match kind {
        WorldKind::Plaine => MAX_ENEMIES,
        WorldKind::Maison => 0,
        WorldKind::Spirale => 5,
        WorldKind::Spirale2 => 5,
    }
}

/// Most enemies a world holds: none in the house, four on the plain, five in
/// each spiral world.
pub fn enemy_cap(kind: WorldKind) -> (n: usize)
    ensures
        n == enemy_cap_spec(kind),
{
    match kind {
        WorldKind::Plaine => MAX_ENEMIES,
        WorldKind::Maison => 0,
        WorldKind::Spirale => 5,
        WorldKind::Spirale2 => 5,
    }
}

/// Fighters may stand on grass, paths and the three kinds of portal.
pub open spec fn is_walkable_tile(t: TileType) -> bool {
    t == TileType::Herbe || t == TileType::Chemin || t == TileType::Portal || t == TileType::SpiralPortal
        || t == TileType::SpiralPortal2
}

/// Fighters may stand on grass, paths and the three kinds of portal.
pub fn tile_is_walkable(t: TileType) -> (r: bool)
    ensures
        r == is_walkable_tile(t),
{
    matches!(t, TileType::Herbe | TileType::Chemin | TileType::Portal | TileType::SpiralPortal | TileType::SpiralPortal2)
        && !matches!(t, TileType::CollisionInvisible)
}

/// The map, row by row.
pub open spec fn grid_view(tiles: Seq<Vec<TileType>>) -> Seq<Seq<TileType>> {
    tiles.map_values(|row: Vec<TileType>| row@)
}

/// The map covers at least the standard `MAP_WIDTH` by `MAP_HEIGHT` area.
pub open spec fn covers_map(tiles: Seq<Vec<TileType>>) -> bool {
    tiles.len() >= MAP_HEIGHT && forall|y: int| 0 <= y < MAP_HEIGHT ==> #[trigger] tiles[y]@.len() >= MAP_WIDTH
}

/// The map has exactly the standard `MAP_WIDTH` by `MAP_HEIGHT` size.
pub open spec fn has_map_shape(tiles: Seq<Seq<TileType>>) -> bool {
    tiles.len() == MAP_HEIGHT && forall|y: int| 0 <= y < MAP_HEIGHT ==> #[trigger] tiles[y].len() == MAP_WIDTH
}

/// The tile at `(x, y)`.
pub open spec fn tile_at(tiles: Seq<Vec<TileType>>, x: int, y: int) -> TileType {
    tiles[y]@[x]
}

/// Reading order of a cell: row by row, left to right.
pub open spec fn reading_key(p: Position) -> int {
    p.y * MAP_WIDTH + p.x
}

/// The positions are listed in strictly increasing reading order.
pub open spec fn in_reading_order(ps: Seq<Position>) -> bool {
    forall|a: int, b: int| 0 <= a < b < ps.len() ==> reading_key(#[trigger] ps[a]) < reading_key(#[trigger] ps[b])
}

/// A standard-area cell.
pub open spec fn in_map(p: Position) -> bool {
    p.x < MAP_WIDTH && p.y < MAP_HEIGHT
}

/// `(x, y)` is the top-left tile of a house: a house tile with no house tile
/// to its left or above it.
pub open spec fn is_house_anchor(tiles: Seq<Vec<TileType>>, x: int, y: int) -> bool {
    &&& tile_at(tiles, x, y) == TileType::Maison
    &&& !(x > 0 && tile_at(tiles, x - 1, y) == TileType::Maison)
    &&& !(y > 0 && tile_at(tiles, x, y - 1) == TileType::Maison)
}

/// The cells of the standard area that satisfy `pred`, in reading order.
pub open spec fn cells_listed(ps: Seq<Position>, pred: spec_fn(Position) -> bool) -> bool {
    &&& in_reading_order(ps)
    &&& forall|k: int| 0 <= k < ps.len() ==> in_map(#[trigger] ps[k]) && pred(ps[k])
    &&& forall|p: Position| in_map(p) && #[trigger] pred(p) ==> ps.contains(p)
}

/// Lists, in reading order, the standard-area cells for which `keep` holds.
pub(crate) fn scan_cells(tiles: &[Vec<TileType>], Ghost(keep): Ghost<spec_fn(Position) -> bool>,
    test: impl Fn(&[Vec<TileType>], usize, usize) -> bool) -> (ps: Vec<Position>)
    requires
        covers_map(tiles@),
        forall|x: usize, y: usize| x < MAP_WIDTH && y < MAP_HEIGHT ==> call_requires(test, (tiles, x, y)),
        forall|x: usize, y: usize, r: bool| x < MAP_WIDTH && y < MAP_HEIGHT && call_ensures(test, (tiles, x, y), r)
            ==> r == keep(Position { x, y }),
    ensures
        cells_listed(ps@, keep),
{
    let mut ps: Vec<Position> = Vec::new();
    for y in 0..MAP_HEIGHT
        invariant
            covers_map(tiles@),
            forall|x: usize, y: usize| x < MAP_WIDTH && y < MAP_HEIGHT ==> call_requires(test, (tiles, x, y)),
            forall|x: usize, y: usize, r: bool| x < MAP_WIDTH && y < MAP_HEIGHT && call_ensures(test, (tiles, x, y), r)
                ==> r == keep(Position { x, y }),
            in_reading_order(ps@),
            forall|k: int| 0 <= k < ps@.len() ==> in_map(#[trigger] ps@[k]) && keep(ps@[k]) && ps@[k].y < y,
            forall|p: Position| in_map(p) && p.y < y && #[trigger] keep(p) ==> ps@.contains(p),
    {
        for x in 0..MAP_WIDTH
            invariant
                y < MAP_HEIGHT,
                covers_map(tiles@),
                forall|x: usize, y: usize| x < MAP_WIDTH && y < MAP_HEIGHT ==> call_requires(test, (tiles, x, y)),
                forall|x: usize, y: usize, r: bool| x < MAP_WIDTH && y < MAP_HEIGHT && call_ensures(test, (tiles, x, y), r)
                    ==> r == keep(Position { x, y }),
                in_reading_order(ps@),
                forall|k: int| 0 <= k < ps@.len() ==> in_map(#[trigger] ps@[k]) && keep(ps@[k])
                    && reading_key(ps@[k]) < y * MAP_WIDTH + x,
                forall|p: Position| in_map(p) && reading_key(p) < y * MAP_WIDTH + x && #[trigger] keep(p) ==> ps@.contains(p),
        {
            let ghost before = ps@;
            if test(tiles, x, y) {
                ps.push(Position { x, y });
                proof {
                    assert forall|p: Position| in_map(p) && reading_key(p) < y * MAP_WIDTH + x + 1 && #[trigger] keep(p)
                        implies ps@.contains(p) by {
                        if reading_key(p) < y * MAP_WIDTH + x {
                            let k = choose|k: int| 0 <= k < before.len() && before[k] == p;
                            assert(ps@[k] == p);
                        } else {
                            assert(p.y * MAP_WIDTH + p.x == y * MAP_WIDTH + x);
                            assert(p.y == y && p.x == x) by (nonlinear_arith)
                                requires p.y * 12 + p.x == y * 12 + x, p.x < 12, x < 12;
                            assert(ps@[before.len() as int] == p);
                        }
                    }
                }
            } else {
                proof {
                    assert forall|p: Position| in_map(p) && reading_key(p) < y * MAP_WIDTH + x + 1 && #[trigger] keep(p)
                        implies ps@.contains(p) by {
                        if reading_key(p) == y * MAP_WIDTH + x {
                            assert(p.y == y && p.x == x) by (nonlinear_arith)
                                requires p.y * 12 + p.x == y * 12 + x, p.x < 12, x < 12;
                        }
                    }
                }
            }
        }
        proof {
            assert forall|k: int| 0 <= k < ps@.len() implies in_map(#[trigger] ps@[k]) && keep(ps@[k]) && ps@[k].y < y + 1 by {
                let q = ps@[k];
                assert(q.y * 12 + q.x < y * 12 + 12);
                assert(q.y < y + 1) by (nonlinear_arith) requires q.y * 12 + q.x < y * 12 + 12, q.x >= 0;
            }
            assert forall|p: Position| in_map(p) && p.y < y + 1 && #[trigger] keep(p) implies ps@.contains(p) by {
                assert(reading_key(p) < y * 12 + 12) by (nonlinear_arith) requires p.y < y + 1, p.x < 12;
            }
        }
    }
    ps
}

/// The top-left tile of every house of the standard area, in reading order.
pub fn detect_house_anchors(tiles: &[Vec<TileType>]) -> (anchors: Vec<Position>)
    requires
        covers_map(tiles@),
    ensures
        cells_listed(anchors@, |p: Position| is_house_anchor(tiles@, p.x as int, p.y as int)),
{
    let ghost g = tiles@;
    scan_cells(tiles, Ghost(|p: Position| is_house_anchor(g, p.x as int, p.y as int)),
        |t: &[Vec<TileType>], x: usize, y: usize| -> (r: bool)
            requires
                t@ == g,
                covers_map(t@),
                x < MAP_WIDTH,
                y < MAP_HEIGHT,
            ensures
                r == is_house_anchor(g, x as int, y as int),
        {
            if t[y][x] != TileType::Maison {
                return false;
            }
            let left_is_house = x > 0 && t[y][x - 1] == TileType::Maison;
            let top_is_house = y > 0 && t[y - 1][x] == TileType::Maison;
            !left_is_house && !top_is_house
        })
}

/// A chest of either kind.
pub open spec fn is_chest_tile(t: TileType) -> bool {
    t == TileType::Coffre || t == TileType::VictoryChest
}

/// Every chest tile of the standard area, in reading order.
pub fn detect_chest_positions(tiles: &[Vec<TileType>]) -> (chests: Vec<Position>)
    requires
        covers_map(tiles@),
    ensures
        cells_listed(chests@, |p: Position| is_chest_tile(tile_at(tiles@, p.x as int, p.y as int))),
{
    let ghost g = tiles@;
    scan_cells(tiles, Ghost(|p: Position| is_chest_tile(tile_at(g, p.x as int, p.y as int))),
        |t: &[Vec<TileType>], x: usize, y: usize| -> (r: bool)
            requires
                t@ == g,
                covers_map(t@),
                x < MAP_WIDTH,
                y < MAP_HEIGHT,
            ensures
                r == is_chest_tile(tile_at(g, x as int, y as int)),
        {
            matches!(t[y][x], TileType::Coffre | TileType::VictoryChest)
        })
}

/// The tile of the fallback map at `(x, y)`: a path runs down column
/// `PLAYER_START_X` to row `PLAYER_START_Y`, then along that row to the right
/// edge; everything else is grass.
pub open spec fn default_tile(x: int, y: int) -> TileType {
    if (x == PLAYER_START_X && y <= PLAYER_START_Y) || (y == PLAYER_START_Y && x >= PLAYER_START_X) {
        TileType::Chemin
    } else {
        TileType::Herbe
    }
}

/// The fallback map used when no map file can be read.
pub fn default_map_tiles() -> (tiles: Vec<Vec<TileType>>)
    ensures
        has_map_shape(grid_view(tiles@)),
        forall|x: int, y: int| 0 <= x < MAP_WIDTH && 0 <= y < MAP_HEIGHT ==> #[trigger] tile_at(tiles@, x, y) == default_tile(x, y),
{
    let mut tiles: Vec<Vec<TileType>> = Vec::new();
    for y in 0..MAP_HEIGHT
        invariant
            tiles@.len() == y,
            forall|r: int| 0 <= r < y ==> #[trigger] tiles@[r]@.len() == MAP_WIDTH,
            forall|x: int, r: int| 0 <= x < MAP_WIDTH && 0 <= r < y ==> #[trigger] tile_at(tiles@, x, r) == default_tile(x, r),
    {
        let mut row: Vec<TileType> = Vec::new();
        for x in 0..MAP_WIDTH
            invariant
                row@.len() == x,
                forall|c: int| 0 <= c < x ==> #[trigger] row@[c] == default_tile(c, y as int),
        {
            let on_path = (x == PLAYER_START_X && y <= PLAYER_START_Y) || (y == PLAYER_START_Y && x >= PLAYER_START_X);
            row.push(if on_path { TileType::Chemin } else { TileType::Herbe });
        }
        let ghost row_view = row@;
        let ghost prev = tiles@;
        tiles.push(row);
        proof {
            assert(tiles@[y as int]@ == row_view);
            assert forall|x: int, r: int| 0 <= x < MAP_WIDTH && 0 <= r < y + 1 implies #[trigger] tile_at(tiles@, x, r) == default_tile(x, r) by {
                if r < y {
                    assert(tiles@[r] == prev[r]);
                    assert(tile_at(prev, x, r) == default_tile(x, r));
                } else {
                    assert(tile_at(tiles@, x, r) == row_view[x]);
                }
            }
        }
    }
    proof {
        assert forall|y: int| 0 <= y < MAP_HEIGHT implies #[trigger] grid_view(tiles@)[y].len() == MAP_WIDTH by {
            assert(grid_view(tiles@)[y] == tiles@[y]@);
        }
    }
    tiles
}

/// Which cells of `tiles` fighters may stand on, cell by cell.
pub fn build_walkable_map(tiles: &[Vec<TileType>]) -> (w: Vec<Vec<bool>>)
    ensures
        w@.len() == tiles@.len(),
        forall|y: int| 0 <= y < tiles@.len() ==> #[trigger] w@[y]@.len() == tiles@[y]@.len(),
        forall|x: int, y: int| 0 <= y < tiles@.len() && 0 <= x < tiles@[y]@.len()
            ==> #[trigger] w@[y]@[x] == is_walkable_tile(tiles@[y]@[x]),
{
    let mut w: Vec<Vec<bool>> = Vec::new();
    let h = tiles.len();
    for y in 0..h
        invariant
            h == tiles@.len(),
            w@.len() == y,
            forall|r: int| 0 <= r < y ==> #[trigger] w@[r]@.len() == tiles@[r]@.len(),
            forall|x: int, r: int| 0 <= r < y && 0 <= x < tiles@[r]@.len()
                ==> #[trigger] w@[r]@[x] == is_walkable_tile(tiles@[r]@[x]),
    {
        let row_tiles = &tiles[y];
        let n = row_tiles.len();
        let mut row: Vec<bool> = Vec::new();
        for x in 0..n
            invariant
                n == row_tiles@.len(),
                row@.len() == x,
                forall|c: int| 0 <= c < x ==> #[trigger] row@[c] == is_walkable_tile(row_tiles@[c]),
        {
            row.push(tile_is_walkable(row_tiles[x]));
        }
        w.push(row);
        proof {
            assert forall|x: int, r: int| 0 <= r < y + 1 && 0 <= x < tiles@[r]@.len()
                implies #[trigger] w@[r]@[x] == is_walkable_tile(tiles@[r]@[x]) by {
                if r < y {
                    assert(w@[r] == w@.drop_last()[r]);
                }
            }
        }
    }
    w
}

/// `v` gives one texture variant per cell of the standard area of `tiles`:
/// one of `count` variants on each cell holding `kind`, 0 on every other cell.
pub open spec fn variants_chosen(tiles: Seq<Vec<TileType>>, kind: TileType, count: usize, v: Seq<Vec<usize>>) -> bool {
    &&& v.len() == MAP_HEIGHT
    &&& forall|y: int| 0 <= y < MAP_HEIGHT ==> #[trigger] v[y]@.len() == MAP_WIDTH
    &&& forall|x: int, y: int| 0 <= y < MAP_HEIGHT && 0 <= x < MAP_WIDTH ==> {
        &&& tile_at(tiles, x, y) == kind ==> #[trigger] v[y]@[x] < count
        &&& tile_at(tiles, x, y) != kind ==> v[y]@[x] == 0
    }
}

/// No cell of the standard area of `tiles` holds `kind`.
pub open spec fn kind_absent(tiles: Seq<Vec<TileType>>, kind: TileType) -> bool {
    forall|x: int, y: int| 0 <= y < MAP_HEIGHT && 0 <= x < MAP_WIDTH ==> #[trigger] tile_at(tiles, x, y) != kind
}

fn choose_variants(tiles: &[Vec<TileType>], kind: TileType, count: usize) -> (v: Vec<Vec<usize>>)
    requires
        covers_map(tiles@),
        count > 0 || kind_absent(tiles@, kind),
    ensures
        variants_chosen(tiles@, kind, count, v@),
{
    let mut v: Vec<Vec<usize>> = Vec::new();
    for y in 0..MAP_HEIGHT
        invariant
            covers_map(tiles@),
            count > 0 || kind_absent(tiles@, kind),
            v@.len() == y,
            forall|r: int| 0 <= r < y ==> #[trigger] v@[r]@.len() == MAP_WIDTH,
            forall|x: int, r: int| 0 <= r < y && 0 <= x < MAP_WIDTH ==> {
                &&& tile_at(tiles@, x, r) == kind ==> #[trigger] v@[r]@[x] < count
                &&& tile_at(tiles@, x, r) != kind ==> v@[r]@[x] == 0
            },
    {
        let row_tiles = &tiles[y];
        let mut row: Vec<usize> = Vec::new();
        for x in 0..MAP_WIDTH
            invariant
                covers_map(tiles@),
                count > 0 || kind_absent(tiles@, kind),
                y < MAP_HEIGHT,
                row_tiles@ == tiles@[y as int]@,
                row@.len() == x,
                forall|c: int| 0 <= c < x ==> {
                    &&& tile_at(tiles@, c, y as int) == kind ==> #[trigger] row@[c] < count
                    &&& tile_at(tiles@, c, y as int) != kind ==> row@[c] == 0
                },
        {
            assert(tiles@[y as int]@.len() >= MAP_WIDTH);
            if row_tiles[x] == kind {
                assert(tile_at(tiles@, x as int, y as int) == kind);
                row.push(random_index(count));
            } else {
                row.push(0);
            }
        }
        v.push(row);
        proof {
            assert forall|x: int, r: int| 0 <= r < y + 1 && 0 <= x < MAP_WIDTH implies {
                &&& tile_at(tiles@, x, r) == kind ==> #[trigger] v@[r]@[x] < count
                &&& tile_at(tiles@, x, r) != kind ==> v@[r]@[x] == 0
            } by {
                if r < y {
                    assert(v@[r] == v@.drop_last()[r]);
                }
            }
        }
    }
    v
}

/// A random grass texture, among `count`, for each grass cell of the
/// standard area, and 0 for every other cell.
pub fn choose_grass_variants(tiles: &[Vec<TileType>], count: usize) -> (v: Vec<Vec<usize>>)
    requires
        covers_map(tiles@),
        count > 0 || kind_absent(tiles@, TileType::Herbe),
    ensures
        variants_chosen(tiles@, TileType::Herbe, count, v@),
{
    choose_variants(tiles, TileType::Herbe, count)
}

/// A random path texture, among `count`, for each path cell of the standard
/// area, and 0 for every other cell; all 0 when there is no path texture.
pub fn choose_chemin_variants(tiles: &[Vec<TileType>], count: usize) -> (v: Vec<Vec<usize>>)
    requires
        covers_map(tiles@),
    ensures
        count > 0 ==> variants_chosen(tiles@, TileType::Chemin, count, v@),
        count == 0 ==> variants_chosen(tiles@, TileType::Chemin, 1, v@)
            && forall|x: int, y: int| 0 <= y < MAP_HEIGHT && 0 <= x < MAP_WIDTH ==> #[trigger] v@[y]@[x] == 0,
{
    if count == 0 {
        let mut v: Vec<Vec<usize>> = Vec::new();
        for y in 0..MAP_HEIGHT
            invariant
                v@.len() == y,
                forall|r: int| 0 <= r < y ==> #[trigger] v@[r]@.len() == MAP_WIDTH,
                forall|x: int, r: int| 0 <= r < y && 0 <= x < MAP_WIDTH ==> #[trigger] v@[r]@[x] == 0,
        {
            let mut row: Vec<usize> = Vec::new();
            for x in 0..MAP_WIDTH
                invariant
                    row@.len() == x,
                    forall|c: int| 0 <= c < x ==> #[trigger] row@[c] == 0,
            {
                row.push(0);
            }
            v.push(row);
            proof {
                assert forall|x: int, r: int| 0 <= r < y + 1 && 0 <= x < MAP_WIDTH implies #[trigger] v@[r]@[x] == 0 by {
                    if r < y {
                        assert(v@[r] == v@.drop_last()[r]);
                    }
                }
            }
        }
        v
    } else {
        choose_variants(tiles, TileType::Chemin, count)
    }
}

/// `needle` lies at `(x, y)` of `tiles`.
pub open spec fn tile_is(tiles: Seq<Vec<TileType>>, x: int, y: int, needle: TileType) -> bool {
    0 <= y < tiles.len() && 0 <= x < tiles[y]@.len() && tiles[y]@[x] == needle
}

/// `r` is the first cell of `tiles`, in reading order, that holds `needle`,
/// or `None` when no cell does.
pub open spec fn first_tile_found(tiles: Seq<Vec<TileType>>, needle: TileType, r: Option<Position>) -> bool {
    match r {
        Some(p) => {
            &&& tile_is(tiles, p.x as int, p.y as int, needle)
            &&& forall|x: int, y: int| #![trigger tile_is(tiles, x, y, needle)]
                (y < p.y || (y == p.y && x < p.x)) ==> !tile_is(tiles, x, y, needle)
        },
        None => forall|x: int, y: int| !#[trigger] tile_is(tiles, x, y, needle),
    }
}

/// The first cell of `tiles`, in reading order, that holds `needle`.
pub fn find_tile_position(tiles: &[Vec<TileType>], needle: TileType) -> (r: Option<Position>)
    ensures
        first_tile_found(tiles@, needle, r),
{
    let h = tiles.len();
    for y in 0..h
        invariant
            h == tiles@.len(),
            forall|x: int, r: int| r < y ==> !#[trigger] tile_is(tiles@, x, r, needle),
    {
        let row = &tiles[y];
        let n = row.len();
        for x in 0..n
            invariant
                n == row@.len(),
                row@ == tiles@[y as int]@,
                y < h,
                h == tiles@.len(),
                forall|c: int, r: int| r < y ==> !#[trigger] tile_is(tiles@, c, r, needle),
                forall|c: int| c < x ==> !#[trigger] tile_is(tiles@, c, y as int, needle),
        {
            if row[x] == needle {
                return Some(Position { x, y });
            }
        }
    }
    None
}

/// Grass or path: where enemies may appear.
pub open spec fn is_spawn_tile(t: TileType) -> bool {
    t == TileType::Herbe || t == TileType::Chemin
}

/// `(x, y)` lies in `world`, is grass or path in `tiles`, and no living
/// fighter stands on it.
pub open spec fn is_spawn_cell(world: World, grid: Seq<Seq<TileType>>, x: int, y: int) -> bool {
    &&& world.within(x, y)
    &&& is_spawn_tile(grid[y][x])
    &&& world.cell_free(x, y)
}

/// `tiles` holds a tile for every cell of `world`.
pub open spec fn covers_world(tiles: Seq<Vec<TileType>>, world: World) -> bool {
    tiles.len() >= world.height && forall|y: int| 0 <= y < world.height ==> #[trigger] tiles[y]@.len() >= world.width
}

/// The cells of row `y` of an area `width` cells wide, left to right.
pub open spec fn row_cells(width: nat, y: nat) -> Seq<Position> {
    Seq::new(width, |x: int| Position { x: x as usize, y: y as usize })
}

/// The cells of the first `rows` rows of an area `width` cells wide, in
/// reading order.
pub open spec fn area_cells(width: nat, rows: nat) -> Seq<Position>
    decreases rows,
{
    if rows == 0 {
        Seq::empty()
    } else {
        area_cells(width, (rows - 1) as nat) + row_cells(width, (rows - 1) as nat)
    }
}

/// An enemy may appear on `p`: grass or path in `grid`, and neither one of
/// the living `players` nor one of the living enemies `es` stands on it.
pub open spec fn open_for_spawn(players: Seq<Joueur>, es: Seq<Ennemi>, grid: Seq<Seq<TileType>>, p: Position) -> bool {
    &&& is_spawn_tile(grid[p.y as int][p.x as int])
    &&& forall|i: int| 0 <= i < players.len() ==> !crate::world::alive_at(#[trigger] players[i], p.x as int, p.y as int)
    &&& forall|j: int| 0 <= j < es.len() ==> !crate::world::alive_at(#[trigger] es[j], p.x as int, p.y as int)
}

/// The test `open_for_spawn` as a predicate on cells.
pub open spec fn spawn_test(players: Seq<Joueur>, es: Seq<Ennemi>, grid: Seq<Seq<TileType>>) -> spec_fn(Position) -> bool {
    |p: Position| open_for_spawn(players, es, grid, p)
}

/// The cells of a `width` by `height` world where an enemy may appear, in
/// reading order, the world holding `players` and the enemies `es`.
pub open spec fn open_spawn_cells(width: usize, height: usize, players: Seq<Joueur>, es: Seq<Ennemi>,
    grid: Seq<Seq<TileType>>) -> Seq<Position> {
    area_cells(width as nat, height as nat).filter(spawn_test(players, es, grid))
}

/// `e` is the enemy numbered `id` that appears in world `kind` on `p` and
/// first waits `delay` milliseconds: the enemy statistics, with doubled life
/// in the second spiral world.
pub open spec fn spawned_enemy(e: Ennemi, id: int, kind: WorldKind, delay: u32, p: Position) -> bool {
    &&& e.spec_id() == id
    &&& e.spec_stats().vie == (if kind == WorldKind::Spirale2 { 200u32 } else { 100u32 })
    &&& e.spec_stats().attaque == 12
    &&& e.spec_stats().vitesse == 8
    &&& e.spec_move_timer() == 0
    &&& e.spec_move_delay() == delay
    &&& e.spec_position() == p
}

/// Each enemy of `es` past those of `w0`, the one numbered `k` among the new
/// ones, stands on the cell numbered `picks[k]`, in reading order, among the
/// cells where an enemy may appear once the enemies before it are in place;
/// it is the enemy `spawned_enemy` describes, first waiting `delays[k]`.
pub open spec fn draws_followed(w0: World, es: Seq<Ennemi>, grid: Seq<Seq<TileType>>, kind: WorldKind,
    picks: Seq<usize>, delays: Seq<u32>) -> bool {
    forall|j: int| w0.enemies@.len() <= j < es.len() ==> #[trigger] spawn_draw_followed(w0, es, j, grid, kind, picks, delays)
}

/// The enemy `es[j]`, numbered `k = j - n0` among those spawned after the
/// `n0` enemies of `w0`, stands on the cell numbered `picks[k]`, in reading
/// order, among the cells where an enemy may appear with the enemies before it
/// in place, and is the enemy `spawned_enemy` describes, first waiting
/// `delays[k]`.
pub open spec fn spawn_draw_followed(w0: World, es: Seq<Ennemi>, j: int, grid: Seq<Seq<TileType>>, kind: WorldKind,
    picks: Seq<usize>, delays: Seq<u32>) -> bool {
    let k = j - w0.enemies@.len();
    let cells = open_spawn_cells(w0.width, w0.height, w0.players@, es.take(j), grid);
    &&& picks[k] < cells.len()
    &&& spawned_enemy(es[j], k, kind, delays[k], cells[picks[k] as int])
}

proof fn lemma_draws_followed_push(w0: World, es: Seq<Ennemi>, e: Ennemi, grid: Seq<Seq<TileType>>, kind: WorldKind,
    p0: Seq<usize>, d0: Seq<u32>, picks: Seq<usize>, delays: Seq<u32>)
    requires
        es.len() >= w0.enemies@.len(),
        draws_followed(w0, es, grid, kind, p0, d0),
        forall|k: int| 0 <= k < es.len() - w0.enemies@.len() ==> #[trigger] picks[k] == p0[k] && delays[k] == d0[k],
        spawn_draw_followed(w0, es.push(e), es.len() as int, grid, kind, picks, delays),
    ensures
        draws_followed(w0, es.push(e), grid, kind, picks, delays),
{
    let es1 = es.push(e);
    assert forall|j: int| w0.enemies@.len() <= j < es1.len() implies #[trigger] spawn_draw_followed(w0, es1, j, grid, kind, picks, delays) by {
        if j < es.len() {
            assert(spawn_draw_followed(w0, es, j, grid, kind, p0, d0));
            assert(es1[j] == es[j]);
            assert(es1.take(j) =~= es.take(j));
            assert(picks[j - w0.enemies@.len()] == p0[j - w0.enemies@.len()]);
        }
    }
}

/// `w1` is `w0` once enemies were spawned, up to `max_enemies` in all, on the
/// map `grid` of world `kind`, with the draws `picks` and `delays`: the new
/// enemy numbered `k` stands on the cell numbered `picks[k]`, in reading
/// order, among the cells where an enemy may appear once the enemies before it
/// are in place, and first waits `delays[k]`. Spawning stops at
/// `max_enemies` enemies, when no such cell is left, when the draws run out,
/// or at a draw past the cells.
pub open spec fn spawned_with(w0: World, grid: Seq<Seq<TileType>>, max_enemies: usize, kind: WorldKind,
    picks: Seq<usize>, delays: Seq<u32>, w1: World) -> bool {
    let n0 = w0.enemies@.len();
    let m = w1.enemies@.len() - n0;
    &&& w1.players@ == w0.players@
    &&& w1.width == w0.width
    &&& w1.height == w0.height
    &&& w1.enemies_frozen == w0.enemies_frozen
    &&& w1.walkable == w0.walkable
    &&& w1.enemies@.len() >= n0
    &&& w1.enemies@.take(n0 as int) == w0.enemies@
    &&& m <= picks.len()
    &&& m <= delays.len()
    &&& draws_followed(w0, w1.enemies@, grid, kind, picks, delays)
    &&& n0 >= max_enemies ==> m == 0
    &&& n0 < max_enemies ==> n0 + m <= max_enemies
    &&& n0 + m < max_enemies ==> ({
        let cells = open_spawn_cells(w0.width, w0.height, w0.players@, w1.enemies@, grid);
        cells.len() == 0 || m == picks.len() || picks[m] >= cells.len()
    })
}

/// Every cell where an enemy may appear right now.
fn spawn_cells(world: &World, tiles: &[Vec<TileType>]) -> (cells: Vec<Position>)
    requires
        covers_world(tiles@, *world),
    ensures
        cells@ == open_spawn_cells(world.width, world.height, world.players@, world.enemies@, grid_view(tiles@)),
        forall|k: int| 0 <= k < cells@.len() ==> is_spawn_cell(*world, grid_view(tiles@), (#[trigger] cells@[k]).x as int, cells@[k].y as int),
        forall|x: int, y: int| #[trigger] is_spawn_cell(*world, grid_view(tiles@), x, y) ==> cells@.contains(Position { x: x as usize, y: y as usize }),
{
    let ghost f = spawn_test(world.players@, world.enemies@, grid_view(tiles@));
    let mut cells: Vec<Position> = Vec::new();
    for y in 0..world.height
        invariant
            covers_world(tiles@, *world),
            f == spawn_test(world.players@, world.enemies@, grid_view(tiles@)),
            cells@ == area_cells(world.width as nat, y as nat).filter(f),
            forall|k: int| 0 <= k < cells@.len() ==> is_spawn_cell(*world, grid_view(tiles@), (#[trigger] cells@[k]).x as int, cells@[k].y as int),
            forall|x: int, r: int| r < y && #[trigger] is_spawn_cell(*world, grid_view(tiles@), x, r) ==> cells@.contains(Position { x: x as usize, y: r as usize }),
    {
        let ghost area = area_cells(world.width as nat, y as nat);
        let ghost row = row_cells(world.width as nat, y as nat);
        proof {
            assert(area + row.take(0) =~= area);
        }
        for x in 0..world.width
            invariant
                y < world.height,
                covers_world(tiles@, *world),
                f == spawn_test(world.players@, world.enemies@, grid_view(tiles@)),
                area == area_cells(world.width as nat, y as nat),
                row == row_cells(world.width as nat, y as nat),
                cells@ == (area + row.take(x as int)).filter(f),
                forall|k: int| 0 <= k < cells@.len() ==> is_spawn_cell(*world, grid_view(tiles@), (#[trigger] cells@[k]).x as int, cells@[k].y as int),
                forall|c: int, r: int| r < y && #[trigger] is_spawn_cell(*world, grid_view(tiles@), c, r) ==> cells@.contains(Position { x: c as usize, y: r as usize }),
                forall|c: int| c < x && #[trigger] is_spawn_cell(*world, grid_view(tiles@), c, y as int) ==> cells@.contains(Position { x: c as usize, y: y }),
        {
            let ghost before = cells@;
            let ghost s0 = area + row.take(x as int);
            let ghost s1 = area + row.take(x as int + 1);
            proof {
                assert(s1.drop_last() =~= s0);
                assert(s1.last() == Position { x, y });
                reveal_with_fuel(Seq::<_>::filter, 1);
                assert(grid_view(tiles@)[y as int] == tiles@[y as int]@);
            }
            if matches!(tiles[y][x], TileType::Herbe | TileType::Chemin) && world.is_cell_free(x, y) {
                cells.push(Position { x, y });
                proof {
                    assert(cells@[before.len() as int] == Position { x, y });
                    assert forall|p: Position| before.contains(p) implies cells@.contains(p) by {
                        let k = choose|k: int| 0 <= k < before.len() && before[k] == p;
                        assert(cells@[k] == p);
                    }
                    assert(f(Position { x, y }));
                    assert(cells@ =~= s1.filter(f));
                }
            } else {
                proof {
                    assert(!f(Position { x, y }));
                    assert(cells@ =~= s1.filter(f));
                }
            }
        }
        proof {
            assert(row.take(world.width as int) =~= row);
            assert(area_cells(world.width as nat, (y + 1) as nat) =~= area + row);
        }
    }
    cells
}

/// `w1` is world `w0` after enemies were added up to `max_enemies`, as
/// `spawn_random_enemies` adds them for a world of kind `world_kind`.
pub open spec fn enemies_spawned(w0: World, grid: Seq<Seq<TileType>>, max_enemies: usize, world_kind: WorldKind, w1: World) -> bool {
    &&& w1.players@ == w0.players@
    &&& w1.width == w0.width
    &&& w1.height == w0.height
    &&& w1.enemies_frozen == w0.enemies_frozen
    &&& w1.walkable == w0.walkable
    &&& w1.enemies@.len() >= w0.enemies@.len()
    &&& w1.enemies@.take(w0.enemies@.len() as int) == w0.enemies@
    &&& w0.enemies@.len() >= max_enemies ==> w1.enemies@ == w0.enemies@
    &&& w1.enemies@.len() <= if w0.enemies@.len() >= max_enemies { w0.enemies@.len() } else { max_enemies as nat }
    &&& w1.enemies@.len() < max_enemies ==> forall|x: int, y: int| !#[trigger] is_spawn_cell(w1, grid, x, y)
    &&& forall|k: int| w0.enemies@.len() <= k < w1.enemies@.len() ==> {
        let e = #[trigger] w1.enemies@[k];
        &&& e.spec_id() == k - w0.enemies@.len()
        &&& e.spec_stats().vie == (if world_kind == WorldKind::Spirale2 { 200u32 } else { 100u32 })
        &&& e.spec_stats().attaque == 12
        &&& e.spec_stats().vitesse == 8
        &&& e.spec_move_timer() == 0
        &&& MIN_MOVE_DELAY_MS <= e.spec_move_delay() <= MAX_MOVE_DELAY_MS
        &&& w0.within(e.spec_position().x as int, e.spec_position().y as int)
        &&& is_spawn_tile(grid[e.spec_position().y as int][e.spec_position().x as int])
        &&& forall|i: int| 0 <= i < w0.players@.len()
            ==> !crate::world::alive_at(#[trigger] w0.players@[i], e.spec_position().x as int, e.spec_position().y as int)
        &&& forall|j: int| 0 <= j < k
            ==> !crate::world::alive_at(#[trigger] w1.enemies@[j], e.spec_position().x as int, e.spec_position().y as int)
    }
}

/// The enemy numbered `id` that appears on `pos` and first waits `delay`
/// milliseconds; its life is doubled in the second spiral world.
fn spawned_enemy_at(id: usize, pos: Position, delay: u32, is_spirale2: bool, Ghost(kind): Ghost<WorldKind>) -> (e: Ennemi)
    requires
        is_spirale2 == (kind == WorldKind::Spirale2),
    ensures
        spawned_enemy(e, id as int, kind, delay, pos),
{
    let mut ennemi = Ennemi::with_delay(id, pos, delay);
    if is_spirale2 {
        let stats = ennemi.stats_mut();
        stats.vie = saturating_mul(stats.vie, 2);
    }
    ennemi
}

/// Spawns enemies as `spawn_random_enemies` does, with the draws given:
/// the new enemy numbered `k` goes to the free grass or path cell numbered
/// `picks[k]` in reading order and first waits `delays[k]`, as
/// `spawned_with` says. Spawning also stops when the draws run out or a draw
/// points past the free cells.
pub fn spawn_with_draws(world: &mut World, tiles: &[Vec<TileType>], max_enemies: usize, world_kind: WorldKind,
    picks: &Vec<usize>, delays: &Vec<u32>)
    requires
        covers_world(tiles@, *old(world)),
        delays@.len() == picks@.len(),
    ensures
        spawned_with(*old(world), grid_view(tiles@), max_enemies, world_kind, picks@, delays@, *final(world)),
{
    let ghost w0 = *world;
    let n0 = world.enemies.len();
    let mut next_id: usize = 0;
    let is_spirale2 = matches!(world_kind, WorldKind::Spirale2);
    while world.enemies.len() < max_enemies && next_id < picks.len()
        invariant
            covers_world(tiles@, *world),
            world.players@ == w0.players@,
            world.width == w0.width,
            world.height == w0.height,
            world.enemies_frozen == w0.enemies_frozen,
            world.walkable == w0.walkable,
            n0 == w0.enemies@.len(),
            world.enemies@.len() == n0 + next_id,
            world.enemies@.take(n0 as int) == w0.enemies@,
            n0 >= max_enemies ==> next_id == 0,
            n0 < max_enemies ==> n0 + next_id <= max_enemies,
            next_id <= picks@.len(),
            delays@.len() == picks@.len(),
            is_spirale2 == (world_kind == WorldKind::Spirale2),
            draws_followed(w0, world.enemies@, grid_view(tiles@), world_kind, picks@, delays@),
        ensures
            world.enemies@.len() < max_enemies ==> ({
                let cells = open_spawn_cells(w0.width, w0.height, w0.players@, world.enemies@, grid_view(tiles@));
                cells.len() == 0 || next_id == picks@.len() || picks@[next_id as int] >= cells.len()
            }),
        decreases picks@.len() - next_id,
    {
        let cells = spawn_cells(world, tiles);
        let pick = picks[next_id];
        if pick >= cells.len() {
            break;
        }
        let ennemi = spawned_enemy_at(next_id, cells[pick], delays[next_id], is_spirale2, Ghost(world_kind));
        let ghost before = world.enemies@;
        world.add_enemy(ennemi);
        next_id = next_id + 1;
        proof {
            let k = before.len() as int;
            assert(world.enemies@[k] == ennemi);
            assert forall|j: int| 0 <= j < k implies #[trigger] world.enemies@[j] == before[j] by {}
            assert(world.enemies@.take(n0 as int) == before.take(n0 as int));
            assert(world.enemies@.take(k) =~= before);
            assert forall|j: int| n0 <= j < k implies #[trigger] world.enemies@.take(j) == before.take(j) by {
                assert(world.enemies@.take(j) =~= before.take(j));
            }
            assert(open_spawn_cells(w0.width, w0.height, w0.players@, world.enemies@.take(k), grid_view(tiles@)) == cells@);
            assert(spawned_enemy(world.enemies@[k], k - n0, world_kind, delays@[k - n0], cells@[picks@[k - n0] as int]));
            assert(world.enemies@.take(k) =~= before);
            lemma_draws_followed_push(w0, before, ennemi, grid_view(tiles@), world_kind, picks@, delays@, picks@, delays@);
        }
    }
}

/// Fills `world` with enemies up to `max_enemies`, each on a random free grass
/// or path cell, numbered from 0 in the order they appear; in the second spiral
/// world their life is doubled. Stops early only when no free cell is left.
pub fn spawn_random_enemies(world: &mut World, tiles: &[Vec<TileType>], max_enemies: usize, world_kind: WorldKind)
    requires
        covers_world(tiles@, *old(world)),
    ensures
        enemies_spawned(*old(world), grid_view(tiles@), max_enemies, world_kind, *final(world)),
        exists|picks: Seq<usize>, delays: Seq<u32>| {
            &&& forall|k: int| 0 <= k < delays.len() ==> MIN_MOVE_DELAY_MS <= #[trigger] delays[k] <= MAX_MOVE_DELAY_MS
            &&& #[trigger] spawned_with(*old(world), grid_view(tiles@), max_enemies, world_kind, picks, delays, *final(world))
        },
{
    let ghost w0 = *world;
    let ghost mut picks: Seq<usize> = Seq::empty();
    let ghost mut delays: Seq<u32> = Seq::empty();
    let n0 = world.enemies.len();
    let mut next_id: usize = 0;
    let is_spirale2 = matches!(world_kind, WorldKind::Spirale2);
    while world.enemies.len() < max_enemies
        invariant
            covers_world(tiles@, *world),
            world.players@ == w0.players@,
            world.width == w0.width,
            world.height == w0.height,
            world.enemies_frozen == w0.enemies_frozen,
            world.walkable == w0.walkable,
            n0 == w0.enemies@.len(),
            world.enemies@.len() == n0 + next_id,
            world.enemies@.take(n0 as int) == w0.enemies@,
            n0 >= max_enemies ==> world.enemies@ == w0.enemies@,
            world.enemies@.len() <= if n0 >= max_enemies { n0 as nat } else { max_enemies as nat },
            is_spirale2 == (world_kind == WorldKind::Spirale2),
            picks.len() == next_id,
            delays.len() == next_id,
            forall|k: int| 0 <= k < delays.len() ==> MIN_MOVE_DELAY_MS <= #[trigger] delays[k] <= MAX_MOVE_DELAY_MS,
            draws_followed(w0, world.enemies@, grid_view(tiles@), world_kind, picks, delays),
            forall|k: int| n0 <= k < world.enemies@.len() ==> {
                let e = #[trigger] world.enemies@[k];
                &&& e.spec_id() == k - n0
                &&& e.spec_stats().vie == (if world_kind == WorldKind::Spirale2 { 200u32 } else { 100u32 })
                &&& e.spec_stats().attaque == 12
                &&& e.spec_stats().vitesse == 8
                &&& e.spec_move_timer() == 0
                &&& MIN_MOVE_DELAY_MS <= e.spec_move_delay() <= MAX_MOVE_DELAY_MS
                &&& w0.within(e.spec_position().x as int, e.spec_position().y as int)
                &&& is_spawn_tile(grid_view(tiles@)[e.spec_position().y as int][e.spec_position().x as int])
                &&& forall|i: int| 0 <= i < w0.players@.len()
                    ==> !crate::world::alive_at(#[trigger] w0.players@[i], e.spec_position().x as int, e.spec_position().y as int)
                &&& forall|j: int| 0 <= j < k
                    ==> !crate::world::alive_at(#[trigger] world.enemies@[j], e.spec_position().x as int, e.spec_position().y as int)
            },
        ensures
            world.enemies@.len() < max_enemies ==> forall|x: int, y: int| !#[trigger] is_spawn_cell(*world, grid_view(tiles@), x, y),
            world.enemies@.len() < max_enemies ==> open_spawn_cells(w0.width, w0.height, w0.players@, world.enemies@, grid_view(tiles@)).len() == 0,
        decreases max_enemies - world.enemies@.len(),
    {
        let cells = spawn_cells(world, tiles);
        proof {
            assert(open_spawn_cells(world.width, world.height, world.players@, world.enemies@, grid_view(tiles@))
                == open_spawn_cells(w0.width, w0.height, w0.players@, world.enemies@, grid_view(tiles@)));
        }
        if cells.len() == 0 {
            proof {
                assert forall|x: int, y: int| !#[trigger] is_spawn_cell(*world, grid_view(tiles@), x, y) by {
                    if is_spawn_cell(*world, grid_view(tiles@), x, y) {
                        assert(cells@.contains(Position { x: x as usize, y: y as usize }));
                    }
                }
            }
            break;
        }
        let pick = random_index(cells.len());
        let delay = random_in_range(500, 3000) as u32;
        let ennemi = spawned_enemy_at(next_id, cells[pick], delay, is_spirale2, Ghost(world_kind));
        let ghost before = world.enemies@;
        world.add_enemy(ennemi);
        next_id = next_id + 1;
        proof {
            let k = before.len() as int;
            assert(world.enemies@[k] == ennemi);
            assert forall|j: int| 0 <= j < k implies #[trigger] world.enemies@[j] == before[j] by {}
            assert(world.enemies@.take(n0 as int) == before.take(n0 as int));
            assert(world.enemies@.take(k) =~= before);
            let p_old = picks;
            let d_old = delays;
            picks = picks.push(pick);
            delays = delays.push(delay);
            assert forall|j: int| n0 <= j < k implies #[trigger] world.enemies@.take(j) == before.take(j) by {
                assert(world.enemies@.take(j) =~= before.take(j));
            }
            assert(open_spawn_cells(w0.width, w0.height, w0.players@, world.enemies@.take(k), grid_view(tiles@)) == cells@);
            assert(picks[k - n0] == pick);
            assert(delays[k - n0] == delay);
            assert(spawned_enemy(world.enemies@[k], k - n0, world_kind, delays[k - n0], cells@[picks[k - n0] as int]));
            assert(world.enemies@.take(k) =~= before);
            lemma_draws_followed_push(w0, before, ennemi, grid_view(tiles@), world_kind, p_old, d_old, picks, delays);
        }
    }
    proof {
        assert(spawned_with(w0, grid_view(tiles@), max_enemies, world_kind, picks, delays, *world));
    }
}

/// The cells where an enemy may appear hold grass or path, never any other
/// tile (portals included), and no living fighter stands on them.
pub proof fn lemma_spawn_cells_are_free_grass_or_path(width: usize, height: usize, players: Seq<Joueur>,
    es: Seq<Ennemi>, grid: Seq<Seq<TileType>>, i: int)
    requires
        0 <= i < open_spawn_cells(width, height, players, es, grid).len(),
    ensures
        ({
            let p = open_spawn_cells(width, height, players, es, grid)[i];
            &&& grid[p.y as int][p.x as int] == TileType::Herbe || grid[p.y as int][p.x as int] == TileType::Chemin
            &&& forall|j: int| 0 <= j < players.len() ==> !crate::world::alive_at(#[trigger] players[j], p.x as int, p.y as int)
            &&& forall|j: int| 0 <= j < es.len() ==> !crate::world::alive_at(#[trigger] es[j], p.x as int, p.y as int)
        }),
{
    area_cells(width as nat, height as nat).lemma_filter_pred(spawn_test(players, es, grid), i);
}

/// Every enemy spawned, whether from given draws or random ones, stands on
/// grass or path.
pub proof fn lemma_spawned_on_grass_or_path(w0: World, grid: Seq<Seq<TileType>>, max_enemies: usize, kind: WorldKind,
    picks: Seq<usize>, delays: Seq<u32>, w1: World)
    requires
        spawned_with(w0, grid, max_enemies, kind, picks, delays, w1) || enemies_spawned(w0, grid, max_enemies, kind, w1),
    ensures
        forall|j: int| w0.enemies@.len() <= j < w1.enemies@.len() ==> {
            let p = (#[trigger] w1.enemies@[j]).spec_position();
            grid[p.y as int][p.x as int] == TileType::Herbe || grid[p.y as int][p.x as int] == TileType::Chemin
        },
{
    assert forall|j: int| w0.enemies@.len() <= j < w1.enemies@.len() implies {
        let p = (#[trigger] w1.enemies@[j]).spec_position();
        grid[p.y as int][p.x as int] == TileType::Herbe || grid[p.y as int][p.x as int] == TileType::Chemin
    } by {
        if spawned_with(w0, grid, max_enemies, kind, picks, delays, w1) {
            assert(spawn_draw_followed(w0, w1.enemies@, j, grid, kind, picks, delays));
            let k = j - w0.enemies@.len();
            lemma_spawn_cells_are_free_grass_or_path(w0.width, w0.height, w0.players@, w1.enemies@.take(j), grid,
                picks[k] as int);
        }
    }
}

} // verus!
