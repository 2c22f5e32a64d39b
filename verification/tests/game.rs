use rpg_core::combat::{CombatResult, CombatTransition, PlayerAction};
use rpg_core::ennemi::Ennemi;
use rpg_core::game::{
    map_is_standard, portal_target, usable_map_tiles, ExploreOutcome, Game, GameOverAction, GameOverState, GameState,
    GameText, Message, Portal,
};
use rpg_core::map::{default_map_tiles, TileType, WorldKind, MAP_HEIGHT, MAP_WIDTH, PLAYER_START_X, PLAYER_START_Y};
use rpg_core::types::{Combatant, Position};
use rpg_core::world::World;

fn at(x: usize, y: usize) -> Position {
    Position { x, y }
}

fn grass() -> Vec<Vec<TileType>> {
    vec![vec![TileType::Herbe; MAP_WIDTH]; MAP_HEIGHT]
}

fn water_with(cells: &[(usize, usize, TileType)]) -> Vec<Vec<TileType>> {
    let mut t = vec![vec![TileType::Eau; MAP_WIDTH]; MAP_HEIGHT];
    for &(x, y, k) in cells {
        t[y][x] = k;
    }
    t
}

/// A plain of water crossed on row 3 by a strip of house portals, with a
/// chest at (4, 2): no cell for enemies to appear on.
fn quiet_plain() -> Vec<Vec<TileType>> {
    let mut t = vec![vec![TileType::Eau; MAP_WIDTH]; MAP_HEIGHT];
    for x in 0..MAP_WIDTH {
        t[3][x] = TileType::Portal;
    }
    t[2][4] = TileType::Coffre;
    t
}

fn player_pos(w: &World) -> Position {
    w.players()[0].position()
}

#[test]
fn maps_of_the_wrong_size_are_replaced() {
    assert!(map_is_standard(&grass()));
    assert!(!map_is_standard(&vec![vec![TileType::Herbe; MAP_WIDTH]; MAP_HEIGHT - 1]));
    let mut ragged = grass();
    ragged[4].pop();
    assert!(!map_is_standard(&ragged));
    assert_eq!(usable_map_tiles(ragged), default_map_tiles());
    let g = grass();
    assert_eq!(usable_map_tiles(g.clone()), g);
}

#[test]
fn portals_link_worlds_both_ways() {
    let p = |w, a| Some(Portal { world: w, arrival: a });
    assert_eq!(portal_target(WorldKind::Plaine, TileType::Portal), p(WorldKind::Maison, TileType::Portal));
    assert_eq!(portal_target(WorldKind::Maison, TileType::Portal), p(WorldKind::Plaine, TileType::Portal));
    assert_eq!(portal_target(WorldKind::Plaine, TileType::SpiralPortal), p(WorldKind::Spirale, TileType::SpiralPortal));
    assert_eq!(portal_target(WorldKind::Spirale, TileType::SpiralPortal), p(WorldKind::Plaine, TileType::SpiralPortal));
    assert_eq!(portal_target(WorldKind::Plaine, TileType::SpiralPortal2), p(WorldKind::Spirale2, TileType::SpiralPortal2));
    assert_eq!(portal_target(WorldKind::Spirale2, TileType::SpiralPortal2), p(WorldKind::Plaine, TileType::SpiralPortal2));
    assert_eq!(portal_target(WorldKind::Maison, TileType::SpiralPortal), None);
    assert_eq!(portal_target(WorldKind::Spirale, TileType::Portal), None);
    assert_eq!(portal_target(WorldKind::Plaine, TileType::Herbe), None);
    for w in WorldKind::all() {
        for t in [TileType::Portal, TileType::SpiralPortal, TileType::SpiralPortal2] {
            if let Some(q) = portal_target(w, t) {
                assert_eq!(portal_target(q.world, q.arrival), Some(Portal { world: w, arrival: t }));
            }
        }
    }
}

#[test]
fn a_new_game_starts_on_the_plain() {
    let (g, w) = Game::new(grass(), &grass(), &grass(), &grass());
    assert!(matches!(g.state, GameState::Exploration));
    assert!(g.messages.is_empty());
    assert_eq!(g.current_world, WorldKind::Plaine);
    assert_eq!((w.width, w.height), (MAP_WIDTH, MAP_HEIGHT));
    assert_eq!((w.width, w.height), (12, 8));
    assert_eq!(w.players().len(), 1);
    assert_eq!(player_pos(&w), at(PLAYER_START_X, PLAYER_START_Y));
    assert_eq!(w.players()[0].stats().vie, 120);
    assert_eq!(w.enemies().len(), 4);
    // The plain's enemies are spawned on an empty world before the player
    // enters, so one may stand on the start cell; they stand on distinct cells.
    let ps: Vec<Position> = w.enemies().iter().map(|e| e.position()).collect();
    for i in 0..ps.len() {
        assert!(ps[i].x < MAP_WIDTH && ps[i].y < MAP_HEIGHT);
        for j in 0..i {
            assert_ne!(ps[i], ps[j]);
        }
    }
    assert!(g.enemy_cache.iter().all(|c| c.is_some()));
    assert_eq!(g.enemy_cache[1].as_ref().map(|v| v.len()), Some(0));
    assert_eq!(g.enemy_cache[2].as_ref().map(|v| v.len()), Some(5));
    assert_eq!(g.enemy_cache[3].as_ref().map(|v| v.iter().all(|e| e.stats().vie == 200)), Some(true));
    assert_eq!(g.remaining_enemies_total(&w), 4 + 5 + 5);
}

#[test]
fn a_bad_plain_map_falls_back() {
    let (g, w) = Game::new(vec![vec![TileType::Eau; 3]; 2], &grass(), &grass(), &grass());
    assert_eq!(g.map_tiles, default_map_tiles());
    assert!(w.walkable.iter().all(|row| row.iter().all(|&c| c)));
}

#[test]
fn exploring_moves_the_player_and_stops_at_the_edge() {
    let (mut g, mut w) = Game::new(quiet_plain(), &grass(), &grass(), &grass());
    assert_eq!(w.enemies().len(), 0);
    // Water above: blocked.
    assert_eq!(g.explore(&mut w, 0, -1), ExploreOutcome::Blocked);
    assert!(g.messages.is_empty());
    match g.explore(&mut w, -1, 0) {
        ExploreOutcome::Moved { from, to, portal } => {
            assert_eq!((from, to), (at(2, 3), at(1, 3)));
            assert_eq!(portal, Some(Portal { world: WorldKind::Maison, arrival: TileType::Portal }));
        }
        other => panic!("unexpected {:?}", other),
    }
    assert_eq!(g.messages.len(), 1);
    assert_eq!(g.messages[0].text, GameText::Moved);
    assert_eq!(g.messages[0].timer_ms, 600);
    assert_eq!(g.explore(&mut w, -1, 0), ExploreOutcome::Moved { from: at(1, 3), to: at(0, 3), portal: g_portal() });
    assert_eq!(g.explore(&mut w, -1, 0), ExploreOutcome::Blocked);
    assert_eq!(player_pos(&w), at(0, 3));
}

fn g_portal() -> Option<Portal> {
    Some(Portal { world: WorldKind::Maison, arrival: TileType::Portal })
}

#[test]
fn stepping_onto_an_enemy_starts_a_combat() {
    let (mut g, mut w) = Game::new(quiet_plain(), &grass(), &grass(), &grass());
    w.add_enemy(Ennemi::nouveau(0, at(3, 3)));
    assert_eq!(g.explore(&mut w, 1, 0), ExploreOutcome::Combat(0));
    assert!(w.enemies_frozen);
    assert_eq!(player_pos(&w), at(2, 3));
    assert_eq!(g.messages.last().map(|m| m.text), Some(GameText::EnemyOnTile));
    match &g.state {
        GameState::Combat(c) => assert_eq!(c.enemy_index(), 0),
        other => panic!("unexpected {:?}", other),
    }
    // No second combat while one is under way.
    g.engage_combat_with_enemy(&mut w, 0, GameText::EnemyAttacks);
    assert_eq!(g.messages.len(), 1);
    // The player is faster: fleeing always works and unfreezes the enemies.
    assert_eq!(g.play_combat_turn(&mut w, Some(PlayerAction::Flee)), Some(CombatTransition::Terminer(CombatResult::Fuite)));
    assert!(matches!(g.state, GameState::Exploration));
    assert!(!w.enemies_frozen);
    assert_eq!(player_pos(&w), at(1, 3));
    assert_eq!(g.play_combat_turn(&mut w, Some(PlayerAction::Attack)), None);
}

#[test]
fn an_enemy_walking_onto_the_player_attacks() {
    let (mut g, mut w) = Game::new(quiet_plain(), &grass(), &grass(), &grass());
    assert_eq!(g.enemy_encounter(&mut w), None);
    w.add_enemy(Ennemi::nouveau(0, at(7, 3)));
    w.add_enemy(Ennemi::nouveau(1, at(2, 3)));
    assert_eq!(g.enemy_encounter(&mut w), Some(1));
    assert_eq!(g.messages.last().map(|m| m.text), Some(GameText::EnemyAttacks));
    assert!(matches!(g.state, GameState::Combat(_)));
    assert_eq!(g.enemy_encounter(&mut w), None);
}

#[test]
fn enemies_step_back_from_blocked_cells() {
    let (g, mut w) = Game::new(quiet_plain(), &grass(), &grass(), &grass());
    w.add_enemy(Ennemi::nouveau(0, at(7, 4)));
    assert!(g.enemy_blocked(at(7, 4)));
    assert!(!g.enemy_blocked(at(7, 3)));
    assert!(!g.enemy_blocked(at(MAP_WIDTH, 3)));
    assert!(g.settle_enemy_step(&mut w, 0, at(7, 3)));
    assert_eq!(w.enemies()[0].position(), at(7, 3));
    assert!(!g.settle_enemy_step(&mut w, 0, at(7, 2)));
    assert_eq!(w.enemies()[0].position(), at(7, 3));
    assert!(!g.settle_enemy_step(&mut w, 5, at(0, 0)));
    assert!(g.tile_walkable(7, 3));
    assert!(!g.tile_walkable(7, 4));
}

#[test]
fn travelling_and_coming_back_restores_the_world() {
    let plain = grass();
    let mut house = water_with(&[(9, 6, TileType::Portal), (10, 6, TileType::Herbe)]);
    house[1][1] = TileType::Coffre;
    let (mut g, mut w) = Game::new(plain.clone(), &house, &grass(), &grass());
    let before: Vec<Position> = w.enemies().iter().map(|e| e.position()).collect();
    w.enemies_mut()[0].inflige_degats(40);
    let spawn = g.enter_world(&mut w, WorldKind::Maison, TileType::Portal, house.clone());
    assert_eq!(spawn, at(9, 6));
    assert_eq!(player_pos(&w), at(9, 6));
    assert_eq!(g.current_world, WorldKind::Maison);
    assert_eq!(w.enemies().len(), 0);
    assert_eq!(g.messages.last().map(|m| m.text), Some(GameText::EnteredWorld(WorldKind::Maison)));
    assert_eq!(g.chests.chests().len(), 1);
    assert!(!w.walkable[6][8]);
    assert!(w.walkable[6][10]);
    // Back on the plain, whose map has no portal: the player lands on the start cell.
    let back = g.enter_world(&mut w, WorldKind::Plaine, TileType::Portal, plain);
    assert_eq!(back, at(PLAYER_START_X, PLAYER_START_Y));
    let after: Vec<Position> = w.enemies().iter().map(|e| e.position()).collect();
    assert_eq!(after, before);
    assert_eq!(w.enemies()[0].stats().vie, 60);
    assert_eq!(g.chests.chests().len(), 0);
}

#[test]
fn spiral_worlds_put_the_player_on_the_matching_edge() {
    let mut spiral = grass();
    spiral[2][7] = TileType::SpiralPortal;
    let (mut g, mut w) = Game::new(grass(), &grass(), &spiral, &grass());
    let spawn = g.enter_world(&mut w, WorldKind::Spirale, TileType::SpiralPortal, spiral.clone());
    assert_eq!(spawn, at(0, PLAYER_START_Y));
    let back = g.enter_world(&mut w, WorldKind::Plaine, TileType::SpiralPortal, grass());
    assert_eq!(back, at(MAP_WIDTH - 1, PLAYER_START_Y));
    let spawn2 = g.enter_world(&mut w, WorldKind::Spirale2, TileType::SpiralPortal2, grass());
    assert_eq!(spawn2, at(MAP_WIDTH - 1, PLAYER_START_Y));
    assert_eq!(w.enemies().len(), 5);
    assert!(w.enemies().iter().all(|e| e.stats().vie == 200));
}

#[test]
fn opening_a_chest_raises_the_attack() {
    let (mut g, mut w) = Game::new(quiet_plain(), &grass(), &grass(), &grass());
    assert_eq!(g.explore(&mut w, 1, 0), ExploreOutcome::Moved { from: at(2, 3), to: at(3, 3), portal: g_portal() });
    g.update_chest_prompt(&w);
    assert_eq!(g.chests.active(), None);
    g.explore(&mut w, 1, 0);
    g.update_chest_prompt(&w);
    assert_eq!(g.chests.active(), Some(0));
    let n = g.messages.len();
    g.handle_chest_click(true);
    assert_eq!(g.messages.len(), n + 1);
    assert_eq!(g.messages[n].text, GameText::ChestOpened);
    g.update_chest_animation(&mut w, 1000, 4);
    assert_eq!(w.players()[0].stats().attaque, 30);
    let last = g.messages.last().copied();
    assert_eq!(last.map(|m| (m.text, m.timer_ms, m.centered)),
        Some((GameText::AttackRaised { before: 15, after: 30 }, 2500, true)));
    // The reward is given once.
    g.update_chest_animation(&mut w, 1000, 4);
    assert_eq!(w.players()[0].stats().attaque, 30);
    assert!(matches!(g.state, GameState::Exploration));
}

#[test]
fn the_victory_chest_ends_the_game() {
    let mut plain = quiet_plain();
    plain[2][4] = TileType::VictoryChest;
    let (mut g, mut w) = Game::new(plain, &grass(), &grass(), &grass());
    g.explore(&mut w, 1, 0);
    g.explore(&mut w, 1, 0);
    g.update_chest_prompt(&w);
    g.handle_chest_click(true);
    assert_eq!(g.messages.last().map(|m| m.text), Some(GameText::Victory));
    assert!(matches!(g.state, GameState::GameOver(GameOverState { selected: 1, allow_restart: false })));
    g.update_chest_animation(&mut w, 1000, 4);
    assert_eq!(w.players()[0].stats().attaque, 15);
    assert!(matches!(g.state, GameState::GameOver(GameOverState { selected: 1, allow_restart: false })));
    // After a victory the end screen only quits.
    assert_eq!(g.game_over_input(true, false, true, None), GameOverAction::Quit);
    assert_eq!(g.game_over_input(false, false, false, Some(0)), GameOverAction::Stay);
    assert_eq!(g.game_over_input(false, false, false, None), GameOverAction::Stay);
}

#[test]
fn defeat_offers_to_play_again() {
    let (mut g, mut w) = Game::new(grass(), &grass(), &grass(), &grass());
    assert_eq!(g.game_over_input(true, true, true, Some(0)), GameOverAction::Stay);
    g.check_game_over(&w);
    assert!(matches!(g.state, GameState::Exploration));
    w.players_mut()[0].inflige_degats(500);
    g.check_game_over(&w);
    assert!(matches!(g.state, GameState::GameOver(GameOverState { selected: 0, allow_restart: true })));
    assert_eq!(g.game_over_input(false, true, false, None), GameOverAction::Stay);
    assert!(matches!(g.state, GameState::GameOver(GameOverState { selected: 1, allow_restart: true })));
    assert_eq!(g.game_over_input(true, false, false, None), GameOverAction::Stay);
    assert_eq!(g.game_over_input(false, false, true, None), GameOverAction::Restart);
    assert_eq!(g.game_over_input(false, false, false, Some(1)), GameOverAction::Quit);
    assert_eq!(g.game_over_input(false, false, false, Some(7)), GameOverAction::Stay);
    g.restart(&mut w, grass());
    assert!(matches!(g.state, GameState::Exploration));
    assert!(g.messages.is_empty());
    assert_eq!(w.players().len(), 1);
    assert_eq!(w.players()[0].stats().vie, 120);
    assert_eq!(player_pos(&w), at(PLAYER_START_X, PLAYER_START_Y));
    assert_eq!(w.enemies().len(), 4);
    assert!(!w.enemies_frozen);
}

#[test]
fn messages_fade_with_time() {
    let (mut g, _w) = Game::new(grass(), &grass(), &grass(), &grass());
    g.messages.push(Message { text: GameText::Moved, timer_ms: 600, centered: false });
    g.messages.push(Message { text: GameText::ChestOpened, timer_ms: 1200, centered: true });
    g.update_messages(500);
    assert_eq!(g.messages.len(), 2);
    assert_eq!(g.messages[0].timer_ms, 100);
    g.update_messages(100);
    assert_eq!(g.messages.len(), 1);
    assert_eq!((g.messages[0].text, g.messages[0].timer_ms, g.messages[0].centered), (GameText::ChestOpened, 600, true));
    g.update_messages(5000);
    assert!(g.messages.is_empty());
}

#[test]
fn counting_enemies_left_everywhere() {
    let (mut g, mut w) = Game::new(grass(), &grass(), &grass(), &grass());
    assert_eq!(g.remaining_enemies_total(&w), 14);
    w.enemies_mut()[0].inflige_degats(1000);
    assert_eq!(g.remaining_enemies_total(&w), 13);
    g.store_current_world_enemies(&w);
    assert_eq!(g.enemy_cache[0].as_ref().map(|v| v.len()), Some(4));
    w.enemies.clear();
    assert_eq!(g.remaining_enemies_total(&w), 10);
}
