use rpg_core::ennemi::Ennemi;
use rpg_core::joueur::Joueur;
use rpg_core::types::{Combatant, Position};
use rpg_core::world::World;

fn at(x: usize, y: usize) -> Position {
    Position { x, y }
}

#[test]
fn new_world_is_empty_and_walkable() {
    let w = World::new(5, 3);
    assert_eq!((w.width, w.height), (5, 3));
    assert!(w.players().is_empty());
    assert!(w.enemies().is_empty());
    assert!(!w.enemies_frozen);
    assert_eq!(w.walkable.len(), 3);
    assert!(w.walkable.iter().all(|row| row.len() == 5 && row.iter().all(|&c| c)));
}

#[test]
fn bounds_of_the_world() {
    let w = World::new(5, 3);
    assert!(w.is_within(0, 0));
    assert!(w.is_within(4, 2));
    assert!(!w.is_within(5, 0));
    assert!(!w.is_within(0, 3));
    assert!(!w.is_within(-1, 1));
}

#[test]
fn finds_first_living_enemy_on_a_cell() {
    let mut w = World::new(5, 5);
    let mut dead = Ennemi::nouveau(0, at(2, 2));
    dead.inflige_degats(1000);
    w.add_enemy(dead);
    w.add_enemy(Ennemi::nouveau(1, at(2, 2)));
    w.add_enemy(Ennemi::nouveau(2, at(2, 2)));
    assert_eq!(w.find_enemy_on_tile(2, 2), Some(1));
    assert_eq!(w.find_enemy_on_tile(3, 2), None);
}

#[test]
fn player_moves_inside_the_world_onto_free_cells() {
    let mut w = World::new(4, 4);
    w.add_player(Joueur::nouveau(0, at(1, 1)));
    w.add_enemy(Ennemi::nouveau(0, at(3, 1)));
    assert!(w.move_player(0, 1, 0));
    assert_eq!(w.players()[0].position(), at(2, 1));
    // Onto a living enemy: refused.
    assert!(!w.move_player(0, 1, 0));
    assert_eq!(w.players()[0].position(), at(2, 1));
    // Off the world: refused.
    assert!(w.move_player(0, 0, -1));
    assert!(!w.move_player(0, 0, -1));
    assert_eq!(w.players()[0].position(), at(2, 0));
    // Unknown player: refused.
    assert!(!w.move_player(9, 0, 1));
    // Onto a dead enemy: allowed.
    w.enemies_mut()[0].inflige_degats(1000);
    assert!(w.move_player(0, 1, 1));
    assert_eq!(w.players()[0].position(), at(3, 1));
}

#[test]
fn dead_player_does_not_move() {
    let mut w = World::new(4, 4);
    w.add_player(Joueur::nouveau(0, at(1, 1)));
    w.players_mut()[0].inflige_degats(500);
    assert!(!w.move_player(0, 1, 0));
    assert_eq!(w.players()[0].position(), at(1, 1));
}

#[test]
fn walkable_map_of_the_wrong_shape_is_ignored() {
    let mut w = World::new(3, 2);
    w.update_walkable_map(vec![vec![false; 3]; 3]);
    assert!(w.walkable.iter().all(|row| row.iter().all(|&c| c)));
    w.update_walkable_map(vec![vec![false; 3], vec![true; 2]]);
    assert!(w.walkable.iter().all(|row| row.iter().all(|&c| c)));
    w.update_walkable_map(vec![vec![false, true, false], vec![true; 3]]);
    assert_eq!(w.walkable, vec![vec![false, true, false], vec![true; 3]]);
}

#[test]
fn nothing_wanders_while_frozen_or_without_time() {
    let mut w = World::new(6, 6);
    w.add_enemy(Ennemi::nouveau(0, at(2, 2)));
    w.add_enemy(Ennemi::nouveau(1, at(4, 4)));
    w.enemies_frozen = true;
    for _ in 0..20 {
        w.wander_enemies(5000);
    }
    assert_eq!(w.enemies()[0].position(), at(2, 2));
    assert_eq!(w.enemies()[1].position(), at(4, 4));
    w.enemies_frozen = false;
    w.wander_enemies(0);
    assert_eq!(w.enemies()[0].position(), at(2, 2));
}

#[test]
fn wandering_enemies_stay_apart_on_walkable_cells() {
    let mut w = World::new(4, 4);
    let mut grid = vec![vec![true; 4]; 4];
    grid[0][0] = false;
    grid[3][3] = false;
    w.update_walkable_map(grid.clone());
    w.add_player(Joueur::nouveau(0, at(1, 2)));
    w.add_enemy(Ennemi::nouveau(0, at(1, 1)));
    w.add_enemy(Ennemi::nouveau(1, at(2, 1)));
    w.add_enemy(Ennemi::nouveau(2, at(2, 2)));
    let mut moved = false;
    for _ in 0..300 {
        let before: Vec<Position> = w.enemies().iter().map(|e| e.position()).collect();
        w.wander_enemies(3000);
        let after: Vec<Position> = w.enemies().iter().map(|e| e.position()).collect();
        for (b, a) in before.iter().zip(after.iter()) {
            let dist = (b.x as isize - a.x as isize).abs() + (b.y as isize - a.y as isize).abs();
            assert!(dist <= 1);
            if dist == 1 {
                moved = true;
            }
            assert!(a.x < 4 && a.y < 4);
            assert!(grid[a.y][a.x]);
        }
        for i in 0..after.len() {
            for j in 0..after.len() {
                if i != j {
                    assert_ne!(after[i], after[j]);
                }
            }
        }
    }
    assert!(moved);
    assert_eq!(w.players()[0].position(), at(1, 2));
}

#[test]
fn wandering_with_given_draws_takes_the_first_open_step() {
    let mut w = World::new(3, 3);
    w.add_enemy(Ennemi::with_delay(0, at(1, 1), 500));
    w.add_enemy(Ennemi::with_delay(1, at(1, 0), 500));
    let dirs = vec![
        [(0, -1), (1, 0), (-1, 0), (0, 1)],
        [(0, 1), (1, 0), (-1, 0), (0, -1)],
    ];
    w.wander_with_draws(600, &dirs, &vec![800, 900]);
    // Enemy 0 finds (1, 0) held and steps right; enemy 1 then takes the cell
    // enemy 0 left.
    assert_eq!(w.enemies()[0].position(), at(2, 1));
    assert_eq!(w.enemies()[1].position(), at(1, 1));
    // The new delays are those drawn: nothing fires before them.
    w.wander_with_draws(700, &dirs, &vec![800, 900]);
    assert_eq!(w.enemies()[0].position(), at(2, 1));
    assert_eq!(w.enemies()[1].position(), at(1, 1));
    w.wander_with_draws(100, &dirs, &vec![800, 900]);
    assert_eq!(w.enemies()[0].position(), at(2, 0));
    assert_eq!(w.enemies()[1].position(), at(1, 1));
}

#[test]
fn wandering_with_given_draws_respects_walls_and_edges() {
    let mut w = World::new(3, 3);
    w.update_walkable_map(vec![vec![true, false, true], vec![true; 3], vec![true; 3]]);
    w.add_enemy(Ennemi::with_delay(0, at(1, 1), 500));
    let dirs = vec![[(0, -1), (0, -1), (0, -1), (0, -1)]];
    w.wander_with_draws(500, &dirs, &vec![500]);
    assert_eq!(w.enemies()[0].position(), at(1, 1));
    let dirs = vec![[(0, -1), (0, 1), (1, 0), (1, 0)]];
    w.wander_with_draws(500, &dirs, &vec![500]);
    assert_eq!(w.enemies()[0].position(), at(1, 2));
    let dirs = vec![[(0, 1), (0, 1), (-1, 0), (1, 0)]];
    w.wander_with_draws(500, &dirs, &vec![500]);
    assert_eq!(w.enemies()[0].position(), at(0, 2));
}

#[test]
fn timer_with_given_delay() {
    let mut e = Ennemi::with_delay(3, at(0, 0), 700);
    assert!(!e.tick_timer_with(699, 1000));
    assert!(e.tick_timer_with(1, 1000));
    assert!(!e.tick_timer_with(999, 50));
    assert!(e.tick_timer_with(1, 50));
    assert!(e.tick_timer_with(50, 50));
}
