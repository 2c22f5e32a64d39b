use rpg_core::combat::{
    CombatEvent, CombatMessage, CombatResolution, CombatResult, CombatRolls, CombatState, CombatTransition,
    PlayerAction,
};
use rpg_core::ennemi::Ennemi;
use rpg_core::joueur::Joueur;
use rpg_core::types::{Combatant, Position};
use rpg_core::world::World;

fn at(x: usize, y: usize) -> Position {
    Position { x, y }
}

fn arena() -> World {
    let mut w = World::new(8, 8);
    w.add_player(Joueur::nouveau(0, at(3, 3)));
    w.add_enemy(Ennemi::nouveau(0, at(4, 3)));
    w
}

fn rolls(player_delta: i32, enemy_delta: i32, flee_roll: i32, lucky: bool, gain: u32) -> CombatRolls {
    CombatRolls { player_delta, enemy_delta, flee_roll, lucky, gain }
}

fn events(res: &CombatResolution) -> Vec<CombatEvent> {
    res.messages.iter().map(|m| m.event).collect()
}

#[test]
fn message_durations() {
    assert_eq!(CombatMessage::about(CombatEvent::PlayerAttack(3)).duree_ms, 1000);
    assert_eq!(CombatMessage::about(CombatEvent::PlayerDefends).duree_ms, 800);
    assert_eq!(CombatMessage::about(CombatEvent::FleeSucceeded).duree_ms, 1200);
    assert_eq!(CombatMessage::about(CombatEvent::FleeFailed).duree_ms, 1000);
    assert_eq!(CombatMessage::about(CombatEvent::Healed(10)).duree_ms, 1600);
    assert_eq!(CombatMessage::about(CombatEvent::Ended(CombatResult::Fuite)).duree_ms, 2000);
    assert_eq!(CombatMessage::about(CombatEvent::EnemyAttack(1)).duree_ms, 1000);
}

#[test]
fn initiative() {
    let c = CombatState::with_initiative(0, 2, false);
    assert_eq!(c.enemy_index(), 2);
    let c = CombatState::new(0, 1);
    assert_eq!(c.enemy_index(), 1);
}

#[test]
fn attack_then_enemy_strikes_back() {
    let mut w = arena();
    let mut c = CombatState::new(0, 0);
    let res = c.resolve(&mut w, Some(PlayerAction::Attack), rolls(0, 0, 99, false, 10));
    assert_eq!(events(&res), vec![CombatEvent::PlayerAttack(15), CombatEvent::EnemyAttack(12)]);
    assert_eq!(res.transition, CombatTransition::Continue);
    assert_eq!(w.enemies()[0].stats().vie, 85);
    assert_eq!(w.players()[0].stats().vie, 108);
    let res = c.resolve(&mut w, Some(PlayerAction::Attack), rolls(5, -5, 99, false, 10));
    assert_eq!(events(&res), vec![CombatEvent::PlayerAttack(20), CombatEvent::EnemyAttack(7)]);
    assert_eq!(w.enemies()[0].stats().vie, 65);
    assert_eq!(w.players()[0].stats().vie, 101);
}

#[test]
fn defending_halves_the_next_blow() {
    let mut w = arena();
    let mut c = CombatState::new(0, 0);
    let res = c.resolve(&mut w, Some(PlayerAction::Defend), rolls(0, 1, 99, false, 10));
    assert_eq!(events(&res), vec![CombatEvent::PlayerDefends, CombatEvent::EnemyAttack(6)]);
    assert_eq!(w.players()[0].stats().vie, 114);
    assert_eq!(w.enemies()[0].stats().vie, 100);
    // The guard lasts for one blow only.
    let res = c.resolve(&mut w, Some(PlayerAction::Attack), rolls(0, 0, 99, false, 10));
    assert_eq!(events(&res), vec![CombatEvent::PlayerAttack(15), CombatEvent::EnemyAttack(12)]);
}

#[test]
fn faster_player_always_flees_one_step_left() {
    let mut w = arena();
    let mut c = CombatState::new(0, 0);
    let res = c.resolve(&mut w, Some(PlayerAction::Flee), rolls(0, 0, 99, false, 10));
    assert_eq!(events(&res), vec![CombatEvent::FleeSucceeded]);
    assert_eq!(res.transition, CombatTransition::Terminer(CombatResult::Fuite));
    assert_eq!(w.players()[0].position(), at(2, 3));
    assert_eq!(w.players()[0].stats().vie, 120);
}

#[test]
fn slower_player_flees_on_a_low_roll_only() {
    let mut w = arena();
    w.enemies_mut()[0].stats_mut().vitesse = 20;
    let mut c = CombatState::new(0, 0);
    let res = c.resolve(&mut w, Some(PlayerAction::Flee), rolls(0, 0, 30, false, 10));
    assert_eq!(events(&res), vec![CombatEvent::FleeFailed, CombatEvent::EnemyAttack(12)]);
    assert_eq!(res.transition, CombatTransition::Continue);
    assert_eq!(w.players()[0].position(), at(3, 3));
    let res = c.resolve(&mut w, Some(PlayerAction::Flee), rolls(0, 0, 29, false, 10));
    assert_eq!(res.transition, CombatTransition::Terminer(CombatResult::Fuite));
    assert_eq!(w.players()[0].position(), at(2, 3));
}

#[test]
fn victory_may_heal_the_player() {
    let mut w = arena();
    w.players_mut()[0].inflige_degats(50);
    w.enemies_mut()[0].inflige_degats(90);
    let mut c = CombatState::new(0, 0);
    let res = c.resolve(&mut w, Some(PlayerAction::Attack), rolls(0, 0, 99, true, 20));
    assert_eq!(
        events(&res),
        vec![CombatEvent::PlayerAttack(15), CombatEvent::Healed(20), CombatEvent::Ended(CombatResult::JoueurVainqueur)]
    );
    assert_eq!(res.transition, CombatTransition::Terminer(CombatResult::JoueurVainqueur));
    assert_eq!(w.players()[0].stats().vie, 90);
    assert_eq!(w.enemies()[0].stats().vie, 0);
}

#[test]
fn victory_heal_is_capped() {
    let mut w = arena();
    w.enemies_mut()[0].inflige_degats(95);
    let mut c = CombatState::new(0, 0);
    let res = c.resolve(&mut w, Some(PlayerAction::Attack), rolls(0, 0, 99, true, 40));
    assert_eq!(res.transition, CombatTransition::Terminer(CombatResult::JoueurVainqueur));
    assert_eq!(w.players()[0].stats().vie, 120);
}

#[test]
fn enemy_first_can_defeat_the_player() {
    let mut w = arena();
    w.players_mut()[0].inflige_degats(110);
    let mut c = CombatState::with_initiative(0, 0, false);
    let res = c.resolve(&mut w, None, rolls(0, 0, 99, false, 10));
    assert_eq!(
        events(&res),
        vec![CombatEvent::EnemyAttack(12), CombatEvent::Ended(CombatResult::EnnemiVainqueur)]
    );
    assert_eq!(res.transition, CombatTransition::Terminer(CombatResult::EnnemiVainqueur));
    assert_eq!(w.players()[0].stats().vie, 0);
}

#[test]
fn no_action_on_the_players_turn_waits() {
    let mut w = arena();
    let mut c = CombatState::new(0, 0);
    let res = c.resolve(&mut w, None, rolls(0, 0, 99, false, 10));
    assert!(res.messages.is_empty());
    assert_eq!(res.transition, CombatTransition::Continue);
    assert_eq!(w.players()[0].stats().vie, 120);
    assert_eq!(w.enemies()[0].stats().vie, 100);
}

#[test]
fn both_down_is_a_double_knock_out() {
    let mut w = arena();
    w.players_mut()[0].inflige_degats(120);
    w.enemies_mut()[0].inflige_degats(100);
    let mut c = CombatState::new(0, 0);
    let res = c.resolve(&mut w, Some(PlayerAction::Attack), rolls(0, 0, 99, false, 10));
    assert_eq!(events(&res), vec![CombatEvent::Ended(CombatResult::DoubleKo)]);
    assert_eq!(res.transition, CombatTransition::Terminer(CombatResult::DoubleKo));
}

#[test]
fn missing_fighters_end_the_combat() {
    let mut w = arena();
    let mut c = CombatState::new(0, 3);
    assert!(c.turn_is_safe(&w));
    let res = c.resolve(&mut w, Some(PlayerAction::Attack), rolls(0, 0, 0, false, 10));
    assert!(res.messages.is_empty());
    assert_eq!(res.transition, CombatTransition::Terminer(CombatResult::DoubleKo));
}

#[test]
fn random_turn_hits_within_the_roll() {
    for _ in 0..50 {
        let mut w = arena();
        let mut c = CombatState::new(0, 0);
        assert!(c.turn_is_safe(&w));
        let res = c.update(&mut w, Some(PlayerAction::Attack));
        assert_eq!(res.transition, CombatTransition::Continue);
        let e = w.enemies()[0].stats().vie;
        let p = w.players()[0].stats().vie;
        assert!((80..=90).contains(&e));
        assert!((103..=113).contains(&p));
    }
}

#[test]
fn oversized_attack_is_not_safe() {
    let mut w = arena();
    w.players_mut()[0].stats_mut().attaque = 0x7fff_fffb;
    let c = CombatState::new(0, 0);
    assert!(!c.turn_is_safe(&w));
}

#[test]
fn slower_player_flees_about_three_times_in_ten() {
    let mut fled = 0;
    for _ in 0..300 {
        let mut w = arena();
        w.enemies_mut()[0].stats_mut().vitesse = 20;
        let mut c = CombatState::new(0, 0);
        let res = c.update(&mut w, Some(PlayerAction::Flee));
        match res.transition {
            CombatTransition::Terminer(CombatResult::Fuite) => {
                fled += 1;
                assert_eq!(w.players()[0].position(), at(2, 3));
            }
            CombatTransition::Continue => {
                assert_eq!(events(&res)[0], CombatEvent::FleeFailed);
                assert_eq!(w.players()[0].position(), at(3, 3));
            }
            other => panic!("unexpected {:?}", other),
        }
    }
    assert!(fled > 30 && fled < 200, "fled {} times", fled);
}
