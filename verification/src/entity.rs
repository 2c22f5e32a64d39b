//! Character classes and the class-based characters (`Personnage`).
use vstd::prelude::*;
use crate::chance::{random_index, random_ratio};
use crate::ennemi::{direction_from_roll, is_cardinal};
use crate::types::saturating_sub_spec;
pub use crate::types::{Position, Stats};

verus! {

#[derive(Clone, Copy, Debug, PartialEq, Eq, Structural)]
pub enum Classe {
    Soldat,
    Magicien,
    Assassin,
}

impl Classe {
    /// The name shown for the class.
    pub fn nom(&self) -> (s: &'static str)
        ensures
            *self == Classe::Soldat ==> s@ == "Soldat"@,
            *self == Classe::Magicien ==> s@ == "Magicien"@,
            *self == Classe::Assassin ==> s@ == "Assassin"@,
    {
        match self {
            Classe::Soldat => "Soldat",
            Classe::Magicien => "Magicien",
            Classe::Assassin => "Assassin",
        }
    }
}

#[derive(Clone, Copy, Debug, PartialEq, Eq, Structural)]
pub enum Faction {
    Joueur,
    Ennemi,
}

/// Life, attack and speed of a player character of class `c`.
pub open spec fn player_class_stats(c: Classe) -> (u32, u32, u32) {
    match c {
        Classe::Soldat => (120, 15, 10),
        Classe::Magicien => (80, 25, 12),
        Classe::Assassin => (90, 18, 20),
    }
}

/// Life, attack and speed of an enemy character of class `c`.
pub open spec fn enemy_class_stats(c: Classe) -> (u32, u32, u32) {
    match c {
        Classe::Soldat => (100, 12, 8),
        Classe::Magicien => (60, 20, 10),
        Classe::Assassin => (70, 14, 15),
    }
}

/// The statistics hold the triple `(vie, attaque, vitesse)`.
pub open spec fn stats_are(s: Stats, t: (u32, u32, u32)) -> bool {
    s.vie == t.0 && s.attaque == t.1 && s.vitesse == t.2
}

/// Movement is counted in units of 1/20000 step: a speed of `v` earns `v`
/// units per millisecond, that is `v / 20` steps per second (half a step per
/// second at speed 10).
pub const STEP_UNITS: u64 = 20000;

/// One random move takes this many milliseconds on average (half a step per
/// second).
pub const RANDOM_MOVE_MS: u32 = 2000;

/// The coordinate `v`, read as an `isize`, shifted by `d` and clamped to
/// `0..=max - 1` (to 0 when `max` is 0).
pub open spec fn clamp_coord(v: usize, d: int, max: usize) -> usize {
    let t = (v as isize) as int + d;
    let hi = (saturating_sub_usize(max, 1) as isize) as int;
    let c = if t < 0 { 0 } else if t > hi { hi } else { t };
    c as usize
}

pub open spec fn saturating_sub_usize(a: usize, b: usize) -> usize {
    if a >= b { (a - b) as usize } else { 0 }
}

/// The position reached from `p` by the unit steps `ds`, in order, each
/// clamped to the `max_x` by `max_y` box.
pub open spec fn walk_clamped(p: Position, ds: Seq<(isize, isize)>, max_x: usize, max_y: usize) -> Position
    decreases ds.len(),
{
    if ds.len() == 0 {
        p
    } else {
        let q = walk_clamped(p, ds.drop_last(), max_x, max_y);
        let d = ds.last();
        Position { x: clamp_coord(q.x, d.0 as int, max_x), y: clamp_coord(q.y, d.1 as int, max_y) }
    }
}

/// A coordinate that can be shifted by one either way within `isize`.
pub open spec fn coord_steps(v: usize) -> bool {
    isize::MIN < (v as isize) < isize::MAX
}

/// The position reached from `pos` by the unit step `d`, clamped to the
/// `max_x` by `max_y` box.
pub fn step_clamped(pos: Position, d: (isize, isize), max_x: usize, max_y: usize) -> (r: Position)
    requires
        is_cardinal(d),
        coord_steps(pos.x),
        coord_steps(pos.y),
    ensures
        r.x == clamp_coord(pos.x, d.0 as int, max_x),
        r.y == clamp_coord(pos.y, d.1 as int, max_y),
{
    let mut x = pos.x as isize + d.0;
    let mut y = pos.y as isize + d.1;
    let max_x_isize = max_x.saturating_sub(1) as isize;
    let max_y_isize = max_y.saturating_sub(1) as isize;
    if x < 0 {
        x = 0;
    } else if x > max_x_isize {
        x = max_x_isize;
    }
    if y < 0 {
        y = 0;
    } else if y > max_y_isize {
        y = max_y_isize;
    }
    Position { x: x as usize, y: y as usize }
}

/// What every class-based character offers.
pub trait Combatant {
    spec fn spec_id(&self) -> usize;

    spec fn spec_classe(&self) -> Classe;

    spec fn spec_faction(&self) -> Faction;

    spec fn spec_position(&self) -> Position;

    spec fn spec_stats(&self) -> Stats;

    fn id(&self) -> (r: usize)
        ensures
            r == self.spec_id(),
    ;

    fn classe(&self) -> (r: Classe)
        ensures
            r == self.spec_classe(),
    ;

    fn faction(&self) -> (r: Faction)
        ensures
            r == self.spec_faction(),
    ;

    fn position(&self) -> (r: Position)
        ensures
            r == self.spec_position(),
    ;

    fn position_mut(&mut self) -> (r: &mut Position)
        ensures
            *r == old(self).spec_position(),
            final(self).spec_position() == *final(r),
            final(self).spec_stats() == old(self).spec_stats(),
            final(self).spec_id() == old(self).spec_id(),
            final(self).spec_classe() == old(self).spec_classe(),
            final(self).spec_faction() == old(self).spec_faction(),
    ;

    fn stats(&self) -> (r: &Stats)
        ensures
            *r == self.spec_stats(),
    ;

    fn stats_mut(&mut self) -> (r: &mut Stats)
        ensures
            *r == old(self).spec_stats(),
            final(self).spec_stats() == *final(r),
            final(self).spec_position() == old(self).spec_position(),
            final(self).spec_id() == old(self).spec_id(),
            final(self).spec_classe() == old(self).spec_classe(),
            final(self).spec_faction() == old(self).spec_faction(),
    ;

    fn est_vivant(&self) -> (r: bool)
        ensures
            r == (self.spec_stats().vie > 0),
    {
        self.stats().est_vivant()
    }

    fn attaque(&self) -> (r: u32)
        ensures
            r == self.spec_stats().attaque,
    {
        self.stats().attaque
    }

    fn vitesse(&self) -> (r: u32)
        ensures
            r == self.spec_stats().vitesse,
    {
        self.stats().vitesse
    }

    /// Loses `degats` life points, never going below zero; nothing else changes.
    fn inflige_degats(&mut self, degats: u32)
        ensures
            final(self).spec_stats().vie == saturating_sub_spec(old(self).spec_stats().vie, degats),
            final(self).spec_stats().attaque == old(self).spec_stats().attaque,
            final(self).spec_stats().vitesse == old(self).spec_stats().vitesse,
            final(self).spec_position() == old(self).spec_position(),
            final(self).spec_id() == old(self).spec_id(),
            final(self).spec_classe() == old(self).spec_classe(),
            final(self).spec_faction() == old(self).spec_faction(),
    {
        self.stats_mut().take_damage(degats);
    }
}

#[derive(Clone, Debug)]
pub struct Personnage {
    id: usize,
    classe: Classe,
    faction: Faction,
    stats: Stats,
    pos: Position,
    /// Movement earned but not yet taken, in units of 1/`STEP_UNITS` step.
    move_accum: u64,
}

impl Personnage {
    /// Well-formed: less than one whole step is held back.
    pub open spec fn wf(&self) -> bool {
        self.spec_move_accum() < STEP_UNITS
    }

    /// Movement earned but not yet taken, in units of 1/`STEP_UNITS` step.
    pub closed spec fn spec_move_accum(&self) -> u64 {
        self.move_accum
    }

    /// A player character of class `classe` with the statistics of that class.
    pub fn nouveau_joueur(id: usize, classe: Classe, pos: Position) -> (p: Self)
        ensures
            p.spec_id() == id,
            p.spec_classe() == classe,
            p.spec_faction() == Faction::Joueur,
            p.spec_position() == pos,
            stats_are(p.spec_stats(), player_class_stats(classe)),
            p.spec_move_accum() == 0,
    {
        let stats = match classe {
            Classe::Soldat => Stats::new(120, 15, 10),
            Classe::Magicien => Stats::new(80, 25, 12),
            Classe::Assassin => Stats::new(90, 18, 20),
        };
        Personnage { id, classe, faction: Faction::Joueur, stats, pos, move_accum: 0 }
    }

    /// An enemy character of class `classe` with the statistics of that class.
    pub fn nouvel_ennemi(id: usize, classe: Classe, pos: Position) -> (p: Self)
        ensures
            p.spec_id() == id,
            p.spec_classe() == classe,
            p.spec_faction() == Faction::Ennemi,
            p.spec_position() == pos,
            stats_are(p.spec_stats(), enemy_class_stats(classe)),
            p.spec_move_accum() == 0,
    {
        let stats = match classe {
            Classe::Soldat => Stats::new(100, 12, 8),
            Classe::Magicien => Stats::new(60, 20, 10),
            Classe::Assassin => Stats::new(70, 14, 15),
        };
        Personnage { id, classe, faction: Faction::Ennemi, stats, pos, move_accum: 0 }
    }

    /// Earns movement for `dt_ms` milliseconds at the character's speed and
    /// returns the whole steps now due, keeping the fraction for later.
    pub fn steps_due(&mut self, dt_ms: u32) -> (steps: usize)
        requires
            old(self).wf(),
            (old(self).spec_move_accum() + old(self).spec_stats().vitesse * dt_ms) / (STEP_UNITS as int) <= usize::MAX,
        ensures
            dt_ms == 0 ==> steps == 0 && *final(self) == *old(self),
            steps * STEP_UNITS + final(self).spec_move_accum()
                == old(self).spec_move_accum() + old(self).spec_stats().vitesse * dt_ms,
            final(self).spec_move_accum() < STEP_UNITS,
            final(self).spec_id() == old(self).spec_id(),
            final(self).spec_classe() == old(self).spec_classe(),
            final(self).spec_faction() == old(self).spec_faction(),
            final(self).spec_position() == old(self).spec_position(),
            final(self).spec_stats() == old(self).spec_stats(),
    {
        if dt_ms == 0 {
            return 0;
        }
        let v: u64 = self.stats.vitesse as u64;
        let t: u64 = dt_ms as u64;
        assert(v * t <= 0xffff_ffffu64 * 0xffff_ffffu64) by (nonlinear_arith)
            requires v <= 0xffff_ffffu64, t <= 0xffff_ffffu64;
        let earned: u64 = v * t;
        let total: u64 = self.move_accum + earned;
        let steps = total / STEP_UNITS;
        self.move_accum = total % STEP_UNITS;
        steps as usize
    }

    /// A random unit step along one axis.
    pub fn random_dir(&self) -> (d: (isize, isize))
        ensures
            is_cardinal(d),
    {
        direction_from_roll(random_index(4))
    }

    /// Takes one random unit step, clamped to the `max_x` by `max_y` box.
    fn one_step_random(&mut self, max_x: usize, max_y: usize)
        requires
            coord_steps(old(self).spec_position().x),
            coord_steps(old(self).spec_position().y),
        ensures
            exists|d: (isize, isize)| is_cardinal(d)
                && final(self).spec_position().x == clamp_coord(old(self).spec_position().x, d.0 as int, max_x)
                && final(self).spec_position().y == clamp_coord(old(self).spec_position().y, d.1 as int, max_y),
            final(self).spec_id() == old(self).spec_id(),
            final(self).spec_classe() == old(self).spec_classe(),
            final(self).spec_faction() == old(self).spec_faction(),
            final(self).spec_stats() == old(self).spec_stats(),
            final(self).spec_move_accum() == old(self).spec_move_accum(),
    {
        let d = self.random_dir();
        self.pos = step_clamped(self.pos, d, max_x, max_y);
    }

    /// Wanders randomly for `dt_ms` milliseconds: one random step per
    /// `RANDOM_MOVE_MS` milliseconds, plus one more with a chance equal to the
    /// remaining fraction. Each step is clamped to the `max_x` by `max_y` box.
    pub fn update_random_movement(&mut self, dt_ms: u32, max_x: usize, max_y: usize)
        requires
            coord_steps(old(self).spec_position().x),
            coord_steps(old(self).spec_position().y),
            max_x <= isize::MAX,
            max_y <= isize::MAX,
        ensures
            dt_ms == 0 ==> *final(self) == *old(self),
            exists|ds: Seq<(isize, isize)>| {
                &&& forall|i: int| 0 <= i < ds.len() ==> is_cardinal(#[trigger] ds[i])
                &&& ds.len() == dt_ms / RANDOM_MOVE_MS
                    || (dt_ms % RANDOM_MOVE_MS > 0 && ds.len() == dt_ms / RANDOM_MOVE_MS + 1)
                &&& final(self).spec_position() == #[trigger] walk_clamped(old(self).spec_position(), ds, max_x, max_y)
            },
            final(self).spec_position() == old(self).spec_position() || {
                &&& final(self).spec_position().x <= saturating_sub_usize(max_x, 1)
                &&& final(self).spec_position().y <= saturating_sub_usize(max_y, 1)
            },
            final(self).spec_id() == old(self).spec_id(),
            final(self).spec_classe() == old(self).spec_classe(),
            final(self).spec_faction() == old(self).spec_faction(),
            final(self).spec_stats() == old(self).spec_stats(),
            final(self).spec_move_accum() == old(self).spec_move_accum(),
    {
        if dt_ms == 0 {
            proof {
                assert(walk_clamped(self.spec_position(), Seq::empty(), max_x, max_y) == self.spec_position());
            }
            return;
        }
        let steps = dt_ms / RANDOM_MOVE_MS;
        let ghost start = *self;
        let ghost mut ds: Seq<(isize, isize)> = Seq::empty();
        for k in 0..steps
            invariant
                coord_steps(self.spec_position().x),
                coord_steps(self.spec_position().y),
                max_x <= isize::MAX,
                max_y <= isize::MAX,
                self.spec_position() == start.spec_position() || {
                    &&& self.spec_position().x <= saturating_sub_usize(max_x, 1)
                    &&& self.spec_position().y <= saturating_sub_usize(max_y, 1)
                },
                ds.len() == k,
                forall|i: int| 0 <= i < ds.len() ==> is_cardinal(#[trigger] ds[i]),
                self.spec_position() == walk_clamped(start.spec_position(), ds, max_x, max_y),
                self.spec_id() == start.spec_id(),
                self.spec_classe() == start.spec_classe(),
                self.spec_faction() == start.spec_faction(),
                self.spec_stats() == start.spec_stats(),
                self.spec_move_accum() == start.spec_move_accum(),
        {
            let ghost before = *self;
            self.one_step_random(max_x, max_y);
            proof {
                let d = choose|d: (isize, isize)| is_cardinal(d)
                    && self.spec_position().x == clamp_coord(before.spec_position().x, d.0 as int, max_x)
                    && self.spec_position().y == clamp_coord(before.spec_position().y, d.1 as int, max_y);
                let ds1 = ds.push(d);
                assert(ds1.drop_last() == ds);
                assert forall|i: int| 0 <= i < ds1.len() implies is_cardinal(#[trigger] ds1[i]) by {
                    if i < ds.len() {
                        assert(ds1[i] == ds[i]);
                    }
                }
                ds = ds1;
            }
        }
        let frac = dt_ms % RANDOM_MOVE_MS;
        if frac > 0 && random_ratio(frac, RANDOM_MOVE_MS) {
            let ghost before = *self;
            self.one_step_random(max_x, max_y);
            proof {
                let d = choose|d: (isize, isize)| is_cardinal(d)
                    && self.spec_position().x == clamp_coord(before.spec_position().x, d.0 as int, max_x)
                    && self.spec_position().y == clamp_coord(before.spec_position().y, d.1 as int, max_y);
                let ds1 = ds.push(d);
                assert(ds1.drop_last() == ds);
                assert forall|i: int| 0 <= i < ds1.len() implies is_cardinal(#[trigger] ds1[i]) by {
                    if i < ds.len() {
                        assert(ds1[i] == ds[i]);
                    }
                }
                ds = ds1;
            }
        }
        proof {
            assert(self.spec_position() == walk_clamped(start.spec_position(), ds, max_x, max_y));
        }
    }
}

impl Combatant for Personnage {
    closed spec fn spec_id(&self) -> usize {
        self.id
    }

    closed spec fn spec_classe(&self) -> Classe {
        self.classe
    }

    closed spec fn spec_faction(&self) -> Faction {
        self.faction
    }

    closed spec fn spec_position(&self) -> Position {
        self.pos
    }

    closed spec fn spec_stats(&self) -> Stats {
        self.stats
    }

    fn id(&self) -> (r: usize) {
        self.id
    }

    fn classe(&self) -> (r: Classe) {
        self.classe
    }

    fn faction(&self) -> (r: Faction) {
        self.faction
    }

    fn position(&self) -> (r: Position) {
        self.pos
    }

    fn position_mut(&mut self) -> (r: &mut Position)
        ensures
            final(self).spec_move_accum() == old(self).spec_move_accum(),
    {
        &mut self.pos
    }

    fn stats(&self) -> (r: &Stats) {
        &self.stats
    }

    fn stats_mut(&mut self) -> (r: &mut Stats)
        ensures
            final(self).spec_move_accum() == old(self).spec_move_accum(),
    {
        &mut self.stats
    }
}

} // verus!
