//! The player character.
use vstd::prelude::*;
use crate::chance::{random_in_range, random_ratio};
use crate::types::{
    player_base_stats, saturating_add_spec, Combatant, Position, Stats, PLAYER_MAX_VIE,
};

verus! {

#[derive(Clone, Copy, Debug)]
pub struct Joueur {
    id: usize,
    stats: Stats,
    pos: Position,
}

impl Joueur {
    pub fn nouveau(id: usize, pos: Position) -> (j: Self)
        ensures
            j.spec_id() == id,
            j.spec_position() == pos,
            j.spec_stats().vie == PLAYER_MAX_VIE,
            j.spec_stats().attaque == 15,
            j.spec_stats().vitesse == 10,
    {
        Joueur { id, stats: player_base_stats(), pos }
    }

    /// Heals by `gain` life points, up to the player's starting life.
    pub fn heal(&mut self, gain: u32)
        ensures
            final(self).spec_stats().vie == heal_value(old(self).spec_stats().vie, gain),
            final(self).spec_stats().attaque == old(self).spec_stats().attaque,
            final(self).spec_stats().vitesse == old(self).spec_stats().vitesse,
            final(self).spec_position() == old(self).spec_position(),
            final(self).spec_id() == old(self).spec_id(),
    {
        let healed = self.stats.vie.saturating_add(gain);
        self.stats.vie = if healed < PLAYER_MAX_VIE { healed } else { PLAYER_MAX_VIE };
    }

    /// With one chance in two, heals by a random amount in `10..=40` (up to the
    /// player's starting life) and returns that amount; otherwise changes nothing.
    pub fn gain_vie_if_lucky(&mut self) -> (r: Option<u32>)
        ensures
            match r {
                Some(gain) => {
                    &&& 10 <= gain <= 40
                    &&& final(self).spec_stats().vie == heal_value(old(self).spec_stats().vie, gain)
                    &&& final(self).spec_stats().attaque == old(self).spec_stats().attaque
                    &&& final(self).spec_stats().vitesse == old(self).spec_stats().vitesse
                    &&& final(self).spec_position() == old(self).spec_position()
                    &&& final(self).spec_id() == old(self).spec_id()
                },
                None => *final(self) == *old(self),
            },
    {
        if random_ratio(1, 2) {
            let gain = random_in_range(10, 40) as u32;
            self.heal_if_lucky(true, gain)
        } else {
            None
        }
    }

    /// The outcome of a search for a given draw: when `lucky`, heals by `gain`
    /// life points (up to the player's starting life) and returns `gain`;
    /// otherwise changes nothing and returns `None`.
    pub fn heal_if_lucky(&mut self, lucky: bool, gain: u32) -> (r: Option<u32>)
        ensures
            lucky ==> r == Some(gain),
            lucky ==> final(self).spec_stats().vie == heal_value(old(self).spec_stats().vie, gain),
            lucky ==> final(self).spec_stats().attaque == old(self).spec_stats().attaque,
            lucky ==> final(self).spec_stats().vitesse == old(self).spec_stats().vitesse,
            lucky ==> final(self).spec_position() == old(self).spec_position(),
            lucky ==> final(self).spec_id() == old(self).spec_id(),
            !lucky ==> r is None && *final(self) == *old(self),
    {
        if lucky {
            self.heal(gain);
            Some(gain)
        } else {
            None
        }
    }
}

/// Life after a heal of `gain`: the sum, capped at the player's starting life.
pub open spec fn heal_value(vie: u32, gain: u32) -> u32 {
    let healed = saturating_add_spec(vie, gain);
    if healed < PLAYER_MAX_VIE { healed } else { PLAYER_MAX_VIE }
}

impl Combatant for Joueur {
    closed spec fn spec_id(&self) -> usize {
        self.id
    }

    closed spec fn spec_position(&self) -> Position {
        self.pos
    }

    closed spec fn spec_stats(&self) -> Stats {
        self.stats
    }

    fn id(&self) -> (r: usize) {
        self.id
    }

    fn position(&self) -> (r: Position) {
        self.pos
    }

    fn position_mut(&mut self) -> (r: &mut Position) {
        &mut self.pos
    }

    fn stats(&self) -> (r: &Stats) {
        &self.stats
    }

    fn stats_mut(&mut self) -> (r: &mut Stats) {
        &mut self.stats
    }
}

} // verus!
