//! Enemies that wander the map on their own timers.
use vstd::prelude::*;
use crate::chance::{random_in_range, random_index};
use crate::types::{enemy_base_stats, saturating_add_spec, Combatant, Position, Stats};

verus! {

/// Shortest wait between two enemy moves, in milliseconds.
pub const MIN_MOVE_DELAY_MS: u32 = 500;

/// Longest wait between two enemy moves, in milliseconds.
pub const MAX_MOVE_DELAY_MS: u32 = 3000;

/// The unit step selected by a roll in `0..4`: up, down, left, right.
pub open spec fn direction_of_roll(roll: int) -> (isize, isize) {
    if roll == 0 {
        (0isize, -1isize)
    } else if roll == 1 {
        (0isize, 1isize)
    } else if roll == 2 {
        (-1isize, 0isize)
    } else {
        (1isize, 0isize)
    }
}

/// A unit step along one axis.
pub open spec fn is_cardinal(d: (isize, isize)) -> bool {
    d == (0isize, -1isize) || d == (0isize, 1isize) || d == (-1isize, 0isize) || d == (1isize, 0isize)
}

/// The unit step selected by a roll: 0 up, 1 down, 2 left, anything else right.
pub fn direction_from_roll(roll: usize) -> (d: (isize, isize))
    ensures
        d == direction_of_roll(roll as int),
        is_cardinal(d),
{
    match roll {
        0 => (0, -1),
        1 => (0, 1),
        2 => (-1, 0),
        _ => (1, 0),
    }
}

#[derive(Clone, Copy, Debug)]
pub struct Ennemi {
    id: usize,
    stats: Stats,
    pos: Position,
    move_timer_ms: u32,
    move_delay_ms: u32,
}

impl Ennemi {
    /// Time waited since the last move, in milliseconds.
    pub closed spec fn spec_move_timer(&self) -> u32 {
        self.move_timer_ms
    }

    /// Time to wait before the next move, in milliseconds.
    pub closed spec fn spec_move_delay(&self) -> u32 {
        self.move_delay_ms
    }

    /// A new enemy with the base enemy statistics and a random move delay.
    pub fn nouveau(id: usize, pos: Position) -> (e: Self)
        ensures
            e.spec_id() == id,
            e.spec_position() == pos,
            e.spec_stats().vie == 100,
            e.spec_stats().attaque == 12,
            e.spec_stats().vitesse == 8,
            e.spec_move_timer() == 0,
            MIN_MOVE_DELAY_MS <= e.spec_move_delay() <= MAX_MOVE_DELAY_MS,
    {
        let delay = random_in_range(500, 3000) as u32;
        Self::with_delay(id, pos, delay)
    }

    /// A new enemy with the base enemy statistics that waits `delay`
    /// milliseconds before its first move.
    pub fn with_delay(id: usize, pos: Position, delay: u32) -> (e: Self)
        ensures
            e.spec_id() == id,
            e.spec_position() == pos,
            e.spec_stats().vie == 100,
            e.spec_stats().attaque == 12,
            e.spec_stats().vitesse == 8,
            e.spec_move_timer() == 0,
            e.spec_move_delay() == delay,
    {
        Ennemi { id, stats: enemy_base_stats(), pos, move_timer_ms: 0, move_delay_ms: delay }
    }

    /// Advances the move timer by `dt_ms`. When it reaches the delay, the timer
    /// restarts from zero with a new random delay and the result is `true`.
    pub fn tick_timer(&mut self, dt_ms: u32) -> (due: bool)
        ensures
            due == (saturating_add_spec(old(self).spec_move_timer(), dt_ms) >= old(self).spec_move_delay()),
            due ==> final(self).spec_move_timer() == 0,
            due ==> MIN_MOVE_DELAY_MS <= final(self).spec_move_delay() <= MAX_MOVE_DELAY_MS,
            !due ==> final(self).spec_move_timer() == saturating_add_spec(old(self).spec_move_timer(), dt_ms),
            !due ==> final(self).spec_move_delay() == old(self).spec_move_delay(),
            final(self).spec_id() == old(self).spec_id(),
            final(self).spec_position() == old(self).spec_position(),
            final(self).spec_stats() == old(self).spec_stats(),
    {
        if self.move_timer_ms.saturating_add(dt_ms) >= self.move_delay_ms {
            let next_delay = random_in_range(500, 3000) as u32;
            self.tick_timer_with(dt_ms, next_delay)
        } else {
            let same = self.move_delay_ms;
            self.tick_timer_with(dt_ms, same)
        }
    }

    /// Advances the move timer by `dt_ms`. When it reaches the delay, the timer
    /// restarts from zero with the delay `next_delay` and the result is `true`.
    pub fn tick_timer_with(&mut self, dt_ms: u32, next_delay: u32) -> (due: bool)
        ensures
            due == (saturating_add_spec(old(self).spec_move_timer(), dt_ms) >= old(self).spec_move_delay()),
            due ==> final(self).spec_move_timer() == 0,
            due ==> final(self).spec_move_delay() == next_delay,
            !due ==> final(self).spec_move_timer() == saturating_add_spec(old(self).spec_move_timer(), dt_ms),
            !due ==> final(self).spec_move_delay() == old(self).spec_move_delay(),
            final(self).spec_id() == old(self).spec_id(),
            final(self).spec_position() == old(self).spec_position(),
            final(self).spec_stats() == old(self).spec_stats(),
    {
        self.move_timer_ms = self.move_timer_ms.saturating_add(dt_ms);
        if self.move_timer_ms >= self.move_delay_ms {
            self.move_timer_ms = 0;
            self.move_delay_ms = next_delay;
            true
        } else {
            false
        }
    }

    /// A random unit step along one axis.
    pub fn random_dir(&self) -> (d: (isize, isize))
        ensures
            is_cardinal(d),
    {
        direction_from_roll(random_index(4))
    }
}

impl Combatant for Ennemi {
    closed spec fn spec_id(&self) -> usize {
        self.id
    }

    closed spec fn spec_position(&self) -> Position {
        self.pos
    }

    closed spec fn spec_stats(&self) -> Stats {
        self.stats
    }

    fn id(&self) -> (r: usize) {
        self.id
    }

    fn position(&self) -> (r: Position) {
        self.pos
    }

    fn position_mut(&mut self) -> (r: &mut Position)
        ensures
            final(self).spec_move_timer() == old(self).spec_move_timer(),
            final(self).spec_move_delay() == old(self).spec_move_delay(),
    {
        &mut self.pos
    }

    fn stats(&self) -> (r: &Stats) {
        &self.stats
    }

    /// Loses `degats` life points, never going below zero; nothing else changes.
    fn inflige_degats(&mut self, degats: u32)
        ensures
            final(self).spec_move_timer() == old(self).spec_move_timer(),
            final(self).spec_move_delay() == old(self).spec_move_delay(),
    {
        self.stats.take_damage(degats);
    }

    fn stats_mut(&mut self) -> (r: &mut Stats)
        ensures
            final(self).spec_move_timer() == old(self).spec_move_timer(),
            final(self).spec_move_delay() == old(self).spec_move_delay(),
    {
        &mut self.stats
    }
}

} // verus!
