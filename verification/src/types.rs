//! Positions, statistics and the behaviour shared by every fighter.
use vstd::prelude::*;
use crate::chance::random_in_range;

verus! {

/// A cell of the tile grid: `x` counts columns, `y` counts rows.
#[derive(Clone, Copy, Debug, PartialEq, Eq, Structural)]
pub struct Position {
    pub x: usize,
    pub y: usize,
}

/// Life points, attack strength and speed of a fighter.
#[derive(Clone, Copy, Debug)]
pub struct Stats {
    pub vie: u32,
    pub attaque: u32,
    pub vitesse: u32,
}

/// `a - b`, or 0 where `b > a`.
pub open spec fn saturating_sub_spec(a: u32, b: u32) -> u32 {
    if a >= b { (a - b) as u32 } else { 0 }
}

/// `a + b`, or `u32::MAX` where the sum does not fit.
pub open spec fn saturating_add_spec(a: u32, b: u32) -> u32 {
    if a + b <= u32::MAX { (a + b) as u32 } else { u32::MAX }
}

/// `a * b`, or `u32::MAX` where the product does not fit.
pub open spec fn saturating_mul_spec(a: u32, b: u32) -> u32 {
    if a * b <= u32::MAX { (a * b) as u32 } else { u32::MAX }
}

/// `a * b`, or `u32::MAX` where the product does not fit.
pub fn saturating_mul(a: u32, b: u32) -> (r: u32)
    ensures
        r == saturating_mul_spec(a, b),
{
    match a.checked_mul(b) {
        Some(v) => v,
        None => u32::MAX,
    }
}

impl Stats {
    pub fn new(vie: u32, attaque: u32, vitesse: u32) -> (s: Self)
        ensures
            s.vie == vie,
            s.attaque == attaque,
            s.vitesse == vitesse,
    {
        Stats { vie, attaque, vitesse }
    }

    pub fn est_vivant(&self) -> (r: bool)
        ensures
            r == (self.vie > 0),
    {
        self.vie > 0
    }

    /// Loses `degats` life points, never going below zero.
    pub fn take_damage(&mut self, degats: u32)
        ensures
            final(self).vie == saturating_sub_spec(old(self).vie, degats),
            final(self).attaque == old(self).attaque,
            final(self).vitesse == old(self).vitesse,
    {
        self.vie = self.vie.saturating_sub(degats);
    }
}

/// Life points of a fresh player, also the most a player can heal up to.
pub const PLAYER_MAX_VIE: u32 = 120;

/// Statistics a player starts with.
pub fn player_base_stats() -> (s: Stats)
    ensures
        s.vie == PLAYER_MAX_VIE,
        s.attaque == 15,
        s.vitesse == 10,
{
    Stats::new(PLAYER_MAX_VIE, 15, 10)
}

/// Statistics an enemy starts with.
pub fn enemy_base_stats() -> (s: Stats)
    ensures
        s.vie == 100,
        s.attaque == 12,
        s.vitesse == 8,
{
    Stats::new(100, 12, 8)
}

/// The attack strength read as a two's complement `i32`, as the damage roll
/// reads it.
pub open spec fn attaque_as_i32(attaque: u32) -> int {
    if attaque <= i32::MAX { attaque as int } else { attaque - 0x1_0000_0000 }
}

/// Damage of one blow: the attack strength shifted by `delta`, and at least 1.
pub open spec fn attack_value(attaque: u32, delta: int) -> u32 {
    let v = attaque_as_i32(attaque) + delta;
    if v < 1 { 1 } else { v as u32 }
}

/// The attack strengths for which a shift of up to 5 either way stays
/// within `i32`.
pub open spec fn attack_roll_fits(attaque: u32) -> bool {
    i32::MIN <= attaque_as_i32(attaque) - 5 && attaque_as_i32(attaque) + 5 <= i32::MAX
}

/// Whether the attack strength can be shifted by the damage roll within `i32`.
pub fn attack_fits(attaque: u32) -> (r: bool)
    ensures
        r == attack_roll_fits(attaque),
{
    if attaque <= 0x7fff_ffff {
        attaque <= 0x7fff_fffa
    } else {
        attaque >= 0x8000_0005
    }
}

/// Damage of one blow for a given random shift `delta` of the attack strength.
pub fn attack_damage(attaque: u32, delta: i32) -> (r: u32)
    requires
        i32::MIN <= attaque_as_i32(attaque) + delta <= i32::MAX,
    ensures
        r == attack_value(attaque, delta as int),
        r >= 1,
{
    let base: i64 = if attaque <= 0x7fff_ffff { attaque as i64 } else { attaque as i64 - 0x1_0000_0000 };
    let v: i64 = base + delta as i64;
    if v < 1 { 1 } else { v as u32 }
}

/// What every fighter of the game offers: identity, position, statistics and
/// the combat actions built on them.
pub trait Combatant {
    spec fn spec_id(&self) -> usize;

    spec fn spec_position(&self) -> Position;

    spec fn spec_stats(&self) -> Stats;

    fn id(&self) -> (r: usize)
        ensures
            r == self.spec_id(),
    ;

    fn position(&self) -> (r: Position)
        ensures
            r == self.spec_position(),
    ;

    fn position_mut(&mut self) -> (r: &mut Position)
        ensures
            *r == old(self).spec_position(),
            final(self).spec_position() == *final(r),
            final(self).spec_stats() == old(self).spec_stats(),
            final(self).spec_id() == old(self).spec_id(),
    ;

    fn stats(&self) -> (r: &Stats)
        ensures
            *r == self.spec_stats(),
    ;

    fn stats_mut(&mut self) -> (r: &mut Stats)
        ensures
            *r == old(self).spec_stats(),
            final(self).spec_stats() == *final(r),
            final(self).spec_position() == old(self).spec_position(),
            final(self).spec_id() == old(self).spec_id(),
    ;

    fn est_vivant(&self) -> (r: bool)
        ensures
            r == (self.spec_stats().vie > 0),
    {
        self.stats().est_vivant()
    }

    /// Damage of one attack: the attack strength shifted by a random amount
    /// in `-5..=5`, and at least 1.
    fn attaque(&self) -> (r: u32)
        requires
            attack_roll_fits(self.spec_stats().attaque),
        ensures
            exists|d: int| -5 <= d <= 5 && r == attack_value(self.spec_stats().attaque, d),
    {
        let delta = random_in_range(-5, 5);
        attack_damage(self.stats().attaque, delta)
    }

    fn vitesse(&self) -> (r: u32)
        ensures
            r == self.spec_stats().vitesse,
    {
        self.stats().vitesse
    }

    /// Loses `degats` life points, never going below zero; nothing else changes.
    fn inflige_degats(&mut self, degats: u32)
        ensures
            final(self).spec_stats().vie == saturating_sub_spec(old(self).spec_stats().vie, degats),
            final(self).spec_stats().attaque == old(self).spec_stats().attaque,
            final(self).spec_stats().vitesse == old(self).spec_stats().vitesse,
            final(self).spec_position() == old(self).spec_position(),
            final(self).spec_id() == old(self).spec_id(),
    {
        self.stats_mut().take_damage(degats);
    }
}

} // verus!
