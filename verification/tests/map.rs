use rpg_core::joueur::Joueur;
use rpg_core::map::{
    build_walkable_map, choose_chemin_variants, choose_grass_variants, default_map_tiles, detect_chest_positions,
    detect_house_anchors, enemy_cap, find_tile_position, slot_of, spawn_random_enemies, spawn_with_draws, tile_is_walkable, TileType,
    WorldKind, MAP_HEIGHT, MAP_WIDTH, MAX_ENEMIES, PLAYER_START_X, PLAYER_START_Y,
};
use rpg_core::types::{Combatant, Position};
use rpg_core::world::World;

fn at(x: usize, y: usize) -> Position {
    Position { x, y }
}

fn grass_map() -> Vec<Vec<TileType>> {
    vec![vec![TileType::Herbe; MAP_WIDTH]; MAP_HEIGHT]
}

#[test]
fn worlds_and_their_files() {
    assert_eq!(WorldKind::all(), vec![WorldKind::Plaine, WorldKind::Maison, WorldKind::Spirale, WorldKind::Spirale2]);
    assert_eq!(WorldKind::Plaine.filename(), "plaine.map");
    assert_eq!(WorldKind::Maison.filename(), "maison.map");
    assert_eq!(WorldKind::Spirale.filename(), "spirale.map");
    assert_eq!(WorldKind::Spirale2.filename(), "spirale2.map");
    assert_eq!(WorldKind::Maison.entry_message(), "Vous entrez dans la maison.");
    assert_eq!(WorldKind::Plaine.entry_message(), "Vous retournez dehors.");
    let slots: Vec<usize> = WorldKind::all().into_iter().map(slot_of).collect();
    assert_eq!(slots, vec![0, 1, 2, 3]);
}

#[test]
fn enemy_caps_per_world() {
    assert_eq!(enemy_cap(WorldKind::Plaine), MAX_ENEMIES);
    assert_eq!(MAX_ENEMIES, 4);
    assert_eq!(enemy_cap(WorldKind::Maison), 0);
    assert_eq!(enemy_cap(WorldKind::Spirale), 5);
    assert_eq!(enemy_cap(WorldKind::Spirale2), 5);
}

#[test]
fn walkable_tiles() {
    for t in [TileType::Herbe, TileType::Chemin, TileType::Portal, TileType::SpiralPortal, TileType::SpiralPortal2] {
        assert!(tile_is_walkable(t));
    }
    for t in [TileType::Eau, TileType::Maison, TileType::CollisionInvisible, TileType::Coffre, TileType::VictoryChest] {
        assert!(!tile_is_walkable(t));
    }
    let tiles = vec![vec![TileType::Herbe, TileType::Eau], vec![TileType::Portal]];
    assert_eq!(build_walkable_map(&tiles), vec![vec![true, false], vec![true]]);
}

#[test]
fn fallback_map_has_a_path_from_the_top_to_the_start() {
    let tiles = default_map_tiles();
    assert_eq!(tiles.len(), MAP_HEIGHT);
    for (y, row) in tiles.iter().enumerate() {
        assert_eq!(row.len(), MAP_WIDTH);
        for (x, t) in row.iter().enumerate() {
            let path = (x == PLAYER_START_X && y <= PLAYER_START_Y) || (y == PLAYER_START_Y && x >= PLAYER_START_X);
            assert_eq!(*t, if path { TileType::Chemin } else { TileType::Herbe });
        }
    }
    assert_eq!(find_tile_position(&tiles, TileType::Chemin), Some(at(PLAYER_START_X, 0)));
    assert_eq!(find_tile_position(&tiles, TileType::Portal), None);
}

#[test]
fn house_anchors_are_top_left_corners() {
    let mut tiles = grass_map();
    for y in 2..4 {
        for x in 5..8 {
            tiles[y][x] = TileType::Maison;
        }
    }
    tiles[6][1] = TileType::Maison;
    assert_eq!(detect_house_anchors(&tiles), vec![at(5, 2), at(1, 6)]);
}

#[test]
fn chests_are_listed_in_reading_order() {
    let mut tiles = grass_map();
    tiles[7][3] = TileType::Coffre;
    tiles[1][10] = TileType::VictoryChest;
    tiles[7][1] = TileType::Coffre;
    assert_eq!(detect_chest_positions(&tiles), vec![at(10, 1), at(1, 7), at(3, 7)]);
}

#[test]
fn first_tile_in_reading_order() {
    let mut tiles = grass_map();
    tiles[4][9] = TileType::Portal;
    tiles[4][2] = TileType::Portal;
    tiles[6][0] = TileType::Portal;
    assert_eq!(find_tile_position(&tiles, TileType::Portal), Some(at(2, 4)));
}

#[test]
fn enemies_spawn_on_free_grass_or_path() {
    for _ in 0..20 {
        let mut tiles = vec![vec![TileType::Eau; MAP_WIDTH]; MAP_HEIGHT];
        tiles[1][1] = TileType::Herbe;
        tiles[1][2] = TileType::Chemin;
        tiles[5][5] = TileType::Herbe;
        tiles[6][3] = TileType::Herbe;
        tiles[7][9] = TileType::Herbe;
        let mut w = World::new(MAP_WIDTH, MAP_HEIGHT);
        w.add_player(Joueur::nouveau(0, at(5, 5)));
        spawn_random_enemies(&mut w, &tiles, 3, WorldKind::Plaine);
        let es = w.enemies();
        assert_eq!(es.len(), 3);
        for (k, e) in es.iter().enumerate() {
            assert_eq!(e.id(), k);
            assert_eq!(e.stats().vie, 100);
            let p = e.position();
            assert!(matches!(tiles[p.y][p.x], TileType::Herbe | TileType::Chemin));
            assert_ne!(p, at(5, 5));
            for other in &es[..k] {
                assert_ne!(other.position(), p);
            }
        }
    }
}

#[test]
fn spawning_stops_when_no_cell_is_left() {
    let mut tiles = vec![vec![TileType::Eau; MAP_WIDTH]; MAP_HEIGHT];
    tiles[0][0] = TileType::Herbe;
    tiles[0][1] = TileType::Herbe;
    let mut w = World::new(MAP_WIDTH, MAP_HEIGHT);
    spawn_random_enemies(&mut w, &tiles, 5, WorldKind::Spirale2);
    assert_eq!(w.enemies().len(), 2);
    assert!(w.enemies().iter().all(|e| e.stats().vie == 200));
}

#[test]
fn grass_and_path_variants() {
    let mut tiles = grass_map();
    tiles[0][0] = TileType::Chemin;
    tiles[3][4] = TileType::Eau;
    let g = choose_grass_variants(&tiles, 3);
    assert_eq!(g.len(), MAP_HEIGHT);
    let mut seen = Vec::new();
    for y in 0..MAP_HEIGHT {
        assert_eq!(g[y].len(), MAP_WIDTH);
        for x in 0..MAP_WIDTH {
            if tiles[y][x] == TileType::Herbe {
                assert!(g[y][x] < 3);
                if !seen.contains(&g[y][x]) {
                    seen.push(g[y][x]);
                }
            } else {
                assert_eq!(g[y][x], 0);
            }
        }
    }
    assert!(seen.len() > 1);
    let c = choose_chemin_variants(&tiles, 4);
    assert!(c[0][0] < 4);
    assert_eq!(c[0][1], 0);
    let none = choose_chemin_variants(&tiles, 0);
    assert!(none.iter().all(|row| row.len() == MAP_WIDTH && row.iter().all(|&v| v == 0)));
}

#[test]
fn spawning_with_given_draws_counts_free_cells_in_reading_order() {
    let tiles = grass_map();
    let mut w = World::new(MAP_WIDTH, MAP_HEIGHT);
    w.add_player(Joueur::nouveau(0, at(0, 0)));
    spawn_with_draws(&mut w, &tiles, 5, WorldKind::Spirale2, &vec![1, 0, 500], &vec![600, 700, 800]);
    let es = w.enemies();
    assert_eq!(es.len(), 2);
    assert_eq!((es[0].id(), es[0].position()), (0, at(2, 0)));
    assert_eq!((es[1].id(), es[1].position()), (1, at(1, 0)));
    assert!(es.iter().all(|e| e.stats().vie == 200));
    let mut first = es[0];
    assert!(!first.tick_timer(599));
    assert!(first.tick_timer(1));
}

#[test]
fn spawning_with_given_draws_stops_at_the_cap_or_the_last_draw() {
    let mut tiles = vec![vec![TileType::Eau; MAP_WIDTH]; MAP_HEIGHT];
    tiles[2][3] = TileType::Chemin;
    tiles[1][5] = TileType::Herbe;
    tiles[4][0] = TileType::Herbe;
    let mut w = World::new(MAP_WIDTH, MAP_HEIGHT);
    spawn_with_draws(&mut w, &tiles, 2, WorldKind::Plaine, &vec![2, 1, 0], &vec![500, 500, 500]);
    let ps: Vec<Position> = w.enemies().iter().map(|e| e.position()).collect();
    assert_eq!(ps, vec![at(0, 4), at(3, 2)]);
    let mut w2 = World::new(MAP_WIDTH, MAP_HEIGHT);
    spawn_with_draws(&mut w2, &tiles, 5, WorldKind::Plaine, &vec![0], &vec![500]);
    assert_eq!(w2.enemies().len(), 1);
    assert_eq!(w2.enemies()[0].position(), at(5, 1));
    assert_eq!(w2.enemies()[0].stats().vie, 100);
}
