use rpg_core::entity::{step_clamped, Classe, Combatant, Faction, Personnage, Position};

fn at(x: usize, y: usize) -> Position {
    Position { x, y }
}

#[test]
fn class_names() {
    assert_eq!(Classe::Soldat.nom(), "Soldat");
    assert_eq!(Classe::Magicien.nom(), "Magicien");
    assert_eq!(Classe::Assassin.nom(), "Assassin");
}

#[test]
fn player_classes_have_their_statistics() {
    let expected = [
        (Classe::Soldat, (120, 15, 10)),
        (Classe::Magicien, (80, 25, 12)),
        (Classe::Assassin, (90, 18, 20)),
    ];
    for (c, (vie, att, vit)) in expected {
        let p = Personnage::nouveau_joueur(1, c, at(2, 3));
        assert_eq!(p.id(), 1);
        assert_eq!(p.classe(), c);
        assert_eq!(p.faction(), Faction::Joueur);
        assert_eq!(p.position(), at(2, 3));
        assert_eq!((p.stats().vie, p.attaque(), p.vitesse()), (vie, att, vit));
    }
}

#[test]
fn enemy_classes_have_their_statistics() {
    let expected = [
        (Classe::Soldat, (100, 12, 8)),
        (Classe::Magicien, (60, 20, 10)),
        (Classe::Assassin, (70, 14, 15)),
    ];
    for (c, (vie, att, vit)) in expected {
        let p = Personnage::nouvel_ennemi(4, c, at(0, 1));
        assert_eq!(p.faction(), Faction::Ennemi);
        assert_eq!((p.stats().vie, p.attaque(), p.vitesse()), (vie, att, vit));
    }
}

#[test]
fn character_damage_saturates() {
    let mut p = Personnage::nouveau_joueur(0, Classe::Magicien, at(0, 0));
    p.inflige_degats(30);
    assert_eq!(p.stats().vie, 50);
    assert!(p.est_vivant());
    p.inflige_degats(80);
    assert_eq!(p.stats().vie, 0);
    assert!(!p.est_vivant());
}

#[test]
fn steps_are_earned_at_speed_and_remainder_kept() {
    // Speed 10: half a step per second.
    let mut p = Personnage::nouveau_joueur(0, Classe::Soldat, at(0, 0));
    assert_eq!(p.steps_due(0), 0);
    assert_eq!(p.steps_due(1000), 0);
    assert_eq!(p.steps_due(1000), 1);
    assert_eq!(p.steps_due(4000), 2);
    assert_eq!(p.steps_due(1999), 0);
    assert_eq!(p.steps_due(1), 1);
    // Speed 20: one step per second.
    let mut a = Personnage::nouveau_joueur(0, Classe::Assassin, at(0, 0));
    assert_eq!(a.steps_due(3500), 3);
    assert_eq!(a.steps_due(500), 1);
}

#[test]
fn clamped_steps_stay_in_the_box() {
    assert_eq!(step_clamped(at(0, 0), (-1, 0), 5, 5), at(0, 0));
    assert_eq!(step_clamped(at(0, 0), (0, 1), 5, 5), at(0, 1));
    assert_eq!(step_clamped(at(4, 4), (1, 0), 5, 5), at(4, 4));
    assert_eq!(step_clamped(at(4, 4), (0, -1), 5, 5), at(4, 3));
    assert_eq!(step_clamped(at(3, 3), (1, 0), 0, 0), at(0, 0));
}

#[test]
fn random_wandering_stays_in_the_box() {
    let mut p = Personnage::nouvel_ennemi(0, Classe::Soldat, at(1, 1));
    let mut moved = false;
    for _ in 0..100 {
        p.update_random_movement(5000, 3, 3);
        let pos = p.position();
        assert!(pos.x < 3 && pos.y < 3);
        if pos != at(1, 1) {
            moved = true;
        }
    }
    assert!(moved);
    let before = p.position();
    p.update_random_movement(0, 3, 3);
    assert_eq!(p.position(), before);
    let d = p.random_dir();
    assert!([(0, -1), (0, 1), (-1, 0), (1, 0)].contains(&d));
}
