use rpg_core::ennemi::{direction_from_roll, Ennemi};
use rpg_core::joueur::Joueur;
use rpg_core::types::{
    attack_damage, attack_fits, enemy_base_stats, player_base_stats, saturating_mul, Combatant, Position, Stats,
    PLAYER_MAX_VIE,
};

fn at(x: usize, y: usize) -> Position {
    Position { x, y }
}

#[test]
fn stats_new_keeps_its_values() {
    let s = Stats::new(30, 7, 4);
    assert_eq!((s.vie, s.attaque, s.vitesse), (30, 7, 4));
    assert!(s.est_vivant());
    assert!(!Stats::new(0, 7, 4).est_vivant());
}

#[test]
fn take_damage_never_goes_below_zero() {
    let mut s = Stats::new(30, 7, 4);
    s.take_damage(12);
    assert_eq!(s.vie, 18);
    assert_eq!((s.attaque, s.vitesse), (7, 4));
    s.take_damage(100);
    assert_eq!(s.vie, 0);
    assert!(!s.est_vivant());
    s.take_damage(5);
    assert_eq!(s.vie, 0);
}

#[test]
fn base_statistics() {
    let p = player_base_stats();
    assert_eq!((p.vie, p.attaque, p.vitesse), (PLAYER_MAX_VIE, 15, 10));
    assert_eq!(PLAYER_MAX_VIE, 120);
    let e = enemy_base_stats();
    assert_eq!((e.vie, e.attaque, e.vitesse), (100, 12, 8));
}

#[test]
fn saturating_product() {
    assert_eq!(saturating_mul(3, 4), 12);
    assert_eq!(saturating_mul(0, u32::MAX), 0);
    assert_eq!(saturating_mul(70_000, 70_000), u32::MAX);
}

#[test]
fn attack_damage_is_shifted_strength_at_least_one() {
    assert_eq!(attack_damage(15, 3), 18);
    assert_eq!(attack_damage(15, -5), 10);
    assert_eq!(attack_damage(2, -5), 1);
    assert_eq!(attack_damage(0, 0), 1);
    assert!(attack_fits(15));
    assert!(attack_fits(0x7fff_fffa));
    assert!(!attack_fits(0x7fff_fffb));
    assert!(!attack_fits(0x8000_0004));
    assert!(attack_fits(0x8000_0005));
}

#[test]
fn new_player_has_base_statistics() {
    let j = Joueur::nouveau(3, at(2, 5));
    assert_eq!(j.id(), 3);
    assert_eq!(j.position(), at(2, 5));
    let s = j.stats();
    assert_eq!((s.vie, s.attaque, s.vitesse), (120, 15, 10));
    assert!(j.est_vivant());
    assert_eq!(j.vitesse(), 10);
}

#[test]
fn player_heal_is_capped() {
    let mut j = Joueur::nouveau(0, at(0, 0));
    j.inflige_degats(50);
    assert_eq!(j.stats().vie, 70);
    j.heal(30);
    assert_eq!(j.stats().vie, 100);
    j.heal(100);
    assert_eq!(j.stats().vie, PLAYER_MAX_VIE);
    j.heal(u32::MAX);
    assert_eq!(j.stats().vie, PLAYER_MAX_VIE);
}

#[test]
fn lucky_heal_stays_in_range() {
    let mut healed = 0;
    for _ in 0..200 {
        let mut j = Joueur::nouveau(0, at(1, 1));
        j.inflige_degats(100);
        match j.gain_vie_if_lucky() {
            Some(gain) => {
                healed += 1;
                assert!((10..=40).contains(&gain));
                assert_eq!(j.stats().vie, 20 + gain);
            }
            None => assert_eq!(j.stats().vie, 20),
        }
        assert_eq!(j.position(), at(1, 1));
    }
    assert!(healed > 0 && healed < 200);
}

#[test]
fn player_attack_roll_is_within_five() {
    let j = Joueur::nouveau(0, at(0, 0));
    let mut seen_other = false;
    for _ in 0..200 {
        let a = j.attaque();
        assert!((10..=20).contains(&a));
        if a != 15 {
            seen_other = true;
        }
    }
    assert!(seen_other);
}

#[test]
fn new_enemy_has_base_statistics() {
    let e = Ennemi::nouveau(7, at(4, 4));
    assert_eq!(e.id(), 7);
    assert_eq!(e.position(), at(4, 4));
    let s = e.stats();
    assert_eq!((s.vie, s.attaque, s.vitesse), (100, 12, 8));
}

#[test]
fn enemy_timer_fires_after_its_delay() {
    for _ in 0..50 {
        let mut e = Ennemi::nouveau(0, at(0, 0));
        assert!(!e.tick_timer(0));
        assert!(!e.tick_timer(499));
        assert!(e.tick_timer(2501));
        assert!(!e.tick_timer(499));
        assert_eq!(e.position(), at(0, 0));
    }
}

#[test]
fn enemy_directions_are_unit_steps() {
    assert_eq!(direction_from_roll(0), (0, -1));
    assert_eq!(direction_from_roll(1), (0, 1));
    assert_eq!(direction_from_roll(2), (-1, 0));
    assert_eq!(direction_from_roll(3), (1, 0));
    assert_eq!(direction_from_roll(9), (1, 0));
    let e = Ennemi::nouveau(0, at(3, 3));
    let mut seen = Vec::new();
    for _ in 0..200 {
        let d = e.random_dir();
        assert!([(0, -1), (0, 1), (-1, 0), (1, 0)].contains(&d));
        if !seen.contains(&d) {
            seen.push(d);
        }
    }
    assert!(seen.len() > 1);
}

#[test]
fn enemy_damage_is_saturating() {
    let mut e = Ennemi::nouveau(0, at(0, 0));
    e.inflige_degats(30);
    assert_eq!(e.stats().vie, 70);
    e.inflige_degats(300);
    assert_eq!(e.stats().vie, 0);
    assert!(!e.est_vivant());
}

#[test]
fn search_outcome_for_a_given_draw() {
    let mut j = Joueur::nouveau(2, at(4, 1));
    j.inflige_degats(60);
    assert_eq!(j.heal_if_lucky(false, 30), None);
    assert_eq!(j.stats().vie, 60);
    assert_eq!(j.heal_if_lucky(true, 25), Some(25));
    assert_eq!(j.stats().vie, 85);
    assert_eq!(j.heal_if_lucky(true, 40), Some(40));
    assert_eq!(j.stats().vie, 120);
    assert_eq!(j.position(), at(4, 1));
    assert_eq!(j.id(), 2);
}
