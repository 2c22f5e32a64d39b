use rpg_core::coffre::{ChestSystem, CHEST_FADE_MS, CHEST_FRAME_MS};
use rpg_core::map::{TileType, WorldKind, MAP_HEIGHT, MAP_WIDTH};
use rpg_core::types::Position;

fn at(x: usize, y: usize) -> Position {
    Position { x, y }
}

fn map_with_chests(cells: &[(usize, usize)]) -> Vec<Vec<TileType>> {
    let mut tiles = vec![vec![TileType::Herbe; MAP_WIDTH]; MAP_HEIGHT];
    for &(x, y) in cells {
        tiles[y][x] = TileType::Coffre;
    }
    tiles
}

fn chest_system(cells: &[(usize, usize)]) -> ChestSystem {
    let mut s = ChestSystem::new();
    s.rebuild_from_tiles(&map_with_chests(cells), WorldKind::Plaine);
    s
}

#[test]
fn chests_are_built_closed_from_the_map() {
    let s = chest_system(&[(5, 5), (2, 1)]);
    let cs = s.chests();
    assert_eq!(cs.len(), 2);
    assert_eq!(cs[0].position, at(2, 1));
    assert_eq!(cs[1].position, at(5, 5));
    assert!(cs.iter().all(|c| !c.opened && !c.animating && !c.removed && !c.reward_pending));
    assert_eq!(s.active(), None);
}

#[test]
fn prompt_offers_an_adjacent_closed_chest() {
    let mut s = chest_system(&[(5, 5), (2, 1)]);
    s.refresh_prompt(Some(at(5, 6)));
    assert_eq!(s.active(), Some(1));
    s.refresh_prompt(Some(at(6, 6)));
    assert_eq!(s.active(), None);
    s.refresh_prompt(Some(at(1, 1)));
    assert_eq!(s.active(), Some(0));
    s.refresh_prompt(None);
    assert_eq!(s.active(), None);
    s.refresh_prompt(Some(at(2, 0)));
    s.clear_active();
    assert_eq!(s.active(), None);
}

#[test]
fn click_on_the_prompt_opens_the_chest() {
    let mut s = chest_system(&[(5, 5)]);
    assert_eq!(s.handle_click(true), None);
    s.refresh_prompt(Some(at(4, 5)));
    assert_eq!(s.handle_click(false), None);
    assert_eq!(s.active(), Some(0));
    assert_eq!(s.handle_click(true), Some(at(5, 5)));
    assert!(s.chests()[0].animating);
    assert_eq!(s.active(), None);
    // An opening chest is offered no more.
    s.refresh_prompt(Some(at(4, 5)));
    assert_eq!(s.active(), None);
}

#[test]
fn opening_runs_frame_by_frame_then_fades_away() {
    let mut s = chest_system(&[(5, 5)]);
    s.refresh_prompt(Some(at(5, 4)));
    assert_eq!(s.handle_click(true), Some(at(5, 5)));
    assert_eq!(s.chests()[0].current_frame(3), 0);
    s.update_animation(CHEST_FRAME_MS + 10, 4);
    assert_eq!(s.chests()[0].anim_frame, 1);
    assert_eq!(s.chests()[0].anim_timer_ms, 10);
    assert_eq!(s.chests()[0].current_frame(3), 1);
    s.update_animation(0, 4);
    assert_eq!(s.chests()[0].anim_frame, 1);
    s.update_animation(2 * CHEST_FRAME_MS, 4);
    let c = s.chests()[0];
    assert!(!c.animating && c.opened && c.fading && c.reward_pending);
    assert_eq!(c.anim_frame, 3);
    assert_eq!(c.current_frame(3), 3);
    assert_eq!(s.collect_opened_rewards(), vec![at(5, 5)]);
    assert_eq!(s.collect_opened_rewards(), Vec::<Position>::new());
    // The fading began with the last opening step.
    assert_eq!(s.chests()[0].fade_timer_ms, 2 * CHEST_FRAME_MS);
    s.update_animation(CHEST_FADE_MS - 2 * CHEST_FRAME_MS - 1, 4);
    assert!(!s.chests()[0].removed);
    s.update_animation(1, 4);
    assert!(s.chests()[0].removed);
    assert!(!s.chests()[0].fading);
}

#[test]
fn stored_chests_keep_their_state_when_rebuilt() {
    let mut s = chest_system(&[(5, 5), (8, 2)]);
    s.refresh_prompt(Some(at(8, 3)));
    s.handle_click(true);
    s.store_world_snapshot(WorldKind::Plaine);
    s.rebuild_from_tiles(&map_with_chests(&[(1, 1)]), WorldKind::Maison);
    assert_eq!(s.chests().len(), 1);
    assert!(!s.chests()[0].animating);
    s.rebuild_from_tiles(&map_with_chests(&[(5, 5), (8, 2)]), WorldKind::Plaine);
    let cs = s.chests();
    assert_eq!(cs.len(), 2);
    assert_eq!(cs[0].position, at(8, 2));
    assert!(cs[0].animating);
    assert_eq!(cs[1].position, at(5, 5));
    assert!(!cs[1].animating);
}

#[test]
fn stored_chests_not_on_the_map_are_dropped() {
    let mut s = chest_system(&[(5, 5), (8, 2)]);
    s.store_world_snapshot(WorldKind::Spirale);
    s.rebuild_from_tiles(&map_with_chests(&[(5, 5), (0, 0)]), WorldKind::Spirale);
    let cs = s.chests();
    assert_eq!(cs.len(), 2);
    assert_eq!(cs[0].position, at(5, 5));
    assert_eq!(cs[1].position, at(0, 0));
}
