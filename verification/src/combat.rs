//! Turn-based combat between one player and one enemy.
use vstd::prelude::*;
use crate::chance::{percent_roll, random_in_range, random_ratio};
use crate::joueur::heal_value;
use crate::types::{attack_fits, attack_roll_fits, attack_value, attack_damage, saturating_sub_spec, Combatant};
use crate::world::{step_fits, World};

verus! {

#[derive(Clone, Copy, Debug, PartialEq, Eq, Structural)]
pub enum CombatResult {
    JoueurVainqueur,
    EnnemiVainqueur,
    DoubleKo,
    Fuite,
}

/// What happened during a combat turn, as reported to the player.
#[derive(Clone, Copy, Debug, PartialEq, Eq, Structural)]
pub enum CombatEvent {
    /// The player hit the enemy for this many points.
    PlayerAttack(u32),
    /// The player braced for the next blow.
    PlayerDefends,
    /// The player ran away.
    FleeSucceeded,
    /// The player failed to run away.
    FleeFailed,
    /// The player healed this many points by searching the beaten enemy.
    Healed(u32),
    /// The combat ended with this result.
    Ended(CombatResult),
    /// The enemy hit the player for this many points.
    EnemyAttack(u32),
}

/// How long a message about `e` stays on screen, in milliseconds.
pub open spec fn event_duration(e: CombatEvent) -> u32 {
    match e {
        CombatEvent::PlayerAttack(_) => 1000,
        CombatEvent::PlayerDefends => 800,
        CombatEvent::FleeSucceeded => 1200,
        CombatEvent::FleeFailed => 1000,
        CombatEvent::Healed(_) => 1600,
        CombatEvent::Ended(_) => 2000,
        CombatEvent::EnemyAttack(_) => 1000,
    }
}

#[derive(Clone, Copy, Debug)]
pub struct CombatMessage {
    pub event: CombatEvent,
    pub duree_ms: u32,
}

impl CombatMessage {
    /// A message about `event`, shown for the usual duration of such events.
    pub fn about(event: CombatEvent) -> (m: Self)
        ensures
            m.event == event,
            m.duree_ms == event_duration(event),
    {
        let duree_ms = match event {
            CombatEvent::PlayerAttack(_) => 1000,
            CombatEvent::PlayerDefends => 800,
            CombatEvent::FleeSucceeded => 1200,
            CombatEvent::FleeFailed => 1000,
            CombatEvent::Healed(_) => 1600,
            CombatEvent::Ended(_) => 2000,
            CombatEvent::EnemyAttack(_) => 1000,
        };
        CombatMessage { event, duree_ms }
    }
}

#[derive(Clone, Copy, Debug, PartialEq, Eq, Structural)]
pub enum CombatTransition {
    Continue,
    Terminer(CombatResult),
}

pub struct CombatResolution {
    pub messages: Vec<CombatMessage>,
    pub transition: CombatTransition,
}

/// What the player chose to do this turn.
#[derive(Clone, Copy, Debug, PartialEq, Eq, Structural)]
pub enum PlayerAction {
    Attack,
    Defend,
    Flee,
}

/// The random draws a combat turn may use.
#[derive(Clone, Copy, Debug)]
pub struct CombatRolls {
    /// Shift of the player's attack strength, in `-5..=5`.
    pub player_delta: i32,
    /// Shift of the enemy's attack strength, in `-5..=5`.
    pub enemy_delta: i32,
    /// Percentage roll for a flight attempt, in `0..100`; below 30 succeeds.
    pub flee_roll: i32,
    /// Whether searching a beaten enemy heals the player.
    pub lucky: bool,
    /// The amount healed when lucky, in `10..=40`.
    pub gain: u32,
}

/// The draws lie in the ranges the game draws them from.
pub open spec fn rolls_in_range(r: CombatRolls) -> bool {
    &&& -5 <= r.player_delta <= 5
    &&& -5 <= r.enemy_delta <= 5
    &&& 0 <= r.flee_roll < 100
    &&& 10 <= r.gain <= 40
}

/// The state of a combat turn while it is being resolved.
pub struct FightState {
    pub player_vie: u32,
    pub enemy_vie: u32,
    pub player_defending: bool,
    pub enemy_defending: bool,
    pub player_turn: bool,
    pub events: Seq<CombatEvent>,
    pub result: Option<CombatResult>,
}

/// A blow of `dmg` points, halved (rounding down) against a defender.
pub open spec fn blow(defending: bool, dmg: u32) -> u32 {
    if defending { dmg / 2 } else { dmg }
}

/// The player's part of the turn: nothing unless it is the player's turn, the
/// player is alive and an action was chosen.
pub open spec fn player_phase(s: FightState, action: Option<PlayerAction>, player_attaque: u32,
    player_vitesse: u32, enemy_vitesse: u32, r: CombatRolls) -> FightState {
    if s.player_turn && s.player_vie > 0 {
        match action {
            Some(PlayerAction::Attack) => {
                let d = blow(s.enemy_defending, attack_value(player_attaque, r.player_delta as int));
                FightState {
                    enemy_vie: saturating_sub_spec(s.enemy_vie, d),
                    enemy_defending: false,
                    player_turn: false,
                    events: s.events.push(CombatEvent::PlayerAttack(d)),
                    ..s
                }
            },
            Some(PlayerAction::Defend) => FightState {
                player_defending: true,
                player_turn: false,
                events: s.events.push(CombatEvent::PlayerDefends),
                ..s
            },
            Some(PlayerAction::Flee) => {
                if player_vitesse > enemy_vitesse || r.flee_roll < 30 {
                    FightState {
                        events: s.events.push(CombatEvent::FleeSucceeded),
                        result: Some(CombatResult::Fuite),
                        ..s
                    }
                } else {
                    FightState {
                        player_turn: false,
                        events: s.events.push(CombatEvent::FleeFailed),
                        ..s
                    }
                }
            },
            None => s,
        }
    } else {
        s
    }
}

/// Ends the combat when a fighter has fallen: a player who beat the enemy may
/// heal by searching it, then the result is announced.
pub open spec fn check_end(s: FightState, r: CombatRolls) -> FightState {
    if s.result is None && (s.player_vie == 0 || s.enemy_vie == 0) {
        if s.player_vie > 0 {
            let pv = if r.lucky { heal_value(s.player_vie, r.gain) } else { s.player_vie };
            let evs = if r.lucky { s.events.push(CombatEvent::Healed(r.gain)) } else { s.events };
            FightState {
                player_vie: pv,
                events: evs.push(CombatEvent::Ended(CombatResult::JoueurVainqueur)),
                result: Some(CombatResult::JoueurVainqueur),
                ..s
            }
        } else if s.enemy_vie > 0 {
            FightState {
                events: s.events.push(CombatEvent::Ended(CombatResult::EnnemiVainqueur)),
                result: Some(CombatResult::EnnemiVainqueur),
                ..s
            }
        } else {
            FightState {
                events: s.events.push(CombatEvent::Ended(CombatResult::DoubleKo)),
                result: Some(CombatResult::DoubleKo),
                ..s
            }
        }
    } else {
        s
    }
}

/// The enemy's part of the turn: it strikes whenever the turn is still open
/// and it is not the player's turn.
pub open spec fn enemy_phase(s: FightState, enemy_attaque: u32, r: CombatRolls) -> FightState {
    if s.result is None && !s.player_turn {
        let d = blow(s.player_defending, attack_value(enemy_attaque, r.enemy_delta as int));
        FightState {
            player_vie: saturating_sub_spec(s.player_vie, d),
            player_defending: false,
            player_turn: true,
            events: s.events.push(CombatEvent::EnemyAttack(d)),
            ..s
        }
    } else {
        s
    }
}

/// A whole combat turn: the player acts, the end is checked, the enemy
/// strikes back, the end is checked again.
pub open spec fn fight_turn(s: FightState, action: Option<PlayerAction>, player_attaque: u32,
    player_vitesse: u32, enemy_attaque: u32, enemy_vitesse: u32, r: CombatRolls) -> FightState {
    let s1 = player_phase(s, action, player_attaque, player_vitesse, enemy_vitesse, r);
    let s2 = check_end(s1, r);
    let s3 = enemy_phase(s2, enemy_attaque, r);
    check_end(s3, r)
}

/// The transition announced by a resolved turn.
pub open spec fn transition_of(s: FightState) -> CombatTransition {
    match s.result {
        Some(res) => CombatTransition::Terminer(res),
        None => CombatTransition::Continue,
    }
}

/// `after` is `w` with the life of player `pi` set to `player_vie` and that of
/// enemy `ei` set to `enemy_vie`, and nothing else changed.
pub open spec fn world_after_fight(w: World, after: World, pi: int, ei: int, player_vie: u32, enemy_vie: u32) -> bool {
    let p = w.players@[pi];
    let e = w.enemies@[ei];
    &&& after.width == w.width
    &&& after.height == w.height
    &&& after.enemies_frozen == w.enemies_frozen
    &&& after.walkable == w.walkable
    &&& after.players@.len() == w.players@.len()
    &&& after.enemies@.len() == w.enemies@.len()
    &&& forall|j: int| 0 <= j < w.players@.len() && j != pi ==> #[trigger] after.players@[j] == w.players@[j]
    &&& forall|j: int| 0 <= j < w.enemies@.len() && j != ei ==> #[trigger] after.enemies@[j] == w.enemies@[j]
    &&& after.players@[pi].spec_stats().vie == player_vie
    &&& after.players@[pi].spec_stats().attaque == p.spec_stats().attaque
    &&& after.players@[pi].spec_stats().vitesse == p.spec_stats().vitesse
    &&& after.players@[pi].spec_position() == p.spec_position()
    &&& after.players@[pi].spec_id() == p.spec_id()
    &&& after.enemies@[ei].spec_stats().vie == enemy_vie
    &&& after.enemies@[ei].spec_stats().attaque == e.spec_stats().attaque
    &&& after.enemies@[ei].spec_stats().vitesse == e.spec_stats().vitesse
    &&& after.enemies@[ei].spec_position() == e.spec_position()
    &&& after.enemies@[ei].spec_id() == e.spec_id()
    &&& after.enemies@[ei].spec_move_timer() == e.spec_move_timer()
    &&& after.enemies@[ei].spec_move_delay() == e.spec_move_delay()
}

/// The messages report exactly `events`, each with its usual duration.
pub open spec fn messages_report(messages: Seq<CombatMessage>, events: Seq<CombatEvent>) -> bool {
    &&& messages.len() == events.len()
    &&& forall|k: int| 0 <= k < events.len() ==> {
        &&& (#[trigger] messages[k]).event == events[k]
        &&& messages[k].duree_ms == event_duration(events[k])
    }
}

#[derive(Debug)]
pub struct CombatState {
    player_idx: usize,
    enemy_idx: usize,
    player_defending: bool,
    enemy_defending: bool,
    player_turn: bool,
}

impl CombatState {
    pub closed spec fn spec_player_idx(&self) -> usize {
        self.player_idx
    }

    pub closed spec fn spec_enemy_idx(&self) -> usize {
        self.enemy_idx
    }

    pub closed spec fn spec_player_defending(&self) -> bool {
        self.player_defending
    }

    pub closed spec fn spec_enemy_defending(&self) -> bool {
        self.enemy_defending
    }

    pub closed spec fn spec_player_turn(&self) -> bool {
        self.player_turn
    }

    /// A combat in which the player moves first and nobody defends.
    pub fn new(player_idx: usize, enemy_idx: usize) -> (s: Self)
        ensures
            s.spec_player_idx() == player_idx,
            s.spec_enemy_idx() == enemy_idx,
            !s.spec_player_defending(),
            !s.spec_enemy_defending(),
            s.spec_player_turn(),
    {
        CombatState { player_idx, enemy_idx, player_defending: false, enemy_defending: false, player_turn: true }
    }

    /// A combat in which the player moves first exactly when `player_first`.
    pub fn with_initiative(player_idx: usize, enemy_idx: usize, player_first: bool) -> (s: Self)
        ensures
            s.spec_player_idx() == player_idx,
            s.spec_enemy_idx() == enemy_idx,
            !s.spec_player_defending(),
            !s.spec_enemy_defending(),
            s.spec_player_turn() == player_first,
    {
        let mut state = Self::new(player_idx, enemy_idx);
        state.player_turn = player_first;
        state
    }

    pub fn enemy_index(&self) -> (r: usize)
        ensures
            r == self.spec_enemy_idx(),
    {
        self.enemy_idx
    }

    /// This combat, halfway through a turn, matches the turn state `fs` that
    /// started from `s0` on `w0`, with `world` and `messages` as they stand.
    spec fn tracks(&self, world: World, messages: Seq<CombatMessage>, w0: World, s0: CombatState, fs: FightState) -> bool {
        &&& self.player_idx == s0.player_idx
        &&& self.enemy_idx == s0.enemy_idx
        &&& self.player_defending == fs.player_defending
        &&& self.enemy_defending == fs.enemy_defending
        &&& self.player_turn == fs.player_turn
        &&& messages_report(messages, fs.events)
        &&& world_after_fight(w0, world, s0.player_idx as int, s0.enemy_idx as int, fs.player_vie, fs.enemy_vie)
    }

    /// Ends the combat if a fighter has fallen, as `check_end` says.
    fn end_if_over(&self, world: &mut World, messages: &mut Vec<CombatMessage>, rolls: CombatRolls,
        Ghost(w0): Ghost<World>, Ghost(s0): Ghost<CombatState>, Ghost(fs): Ghost<FightState>) -> (r: Option<CombatResult>)
        requires
            self.tracks(*old(world), old(messages)@, w0, s0, fs),
            s0.fighters_in(w0),
            fs.result is None,
            rolls_in_range(rolls),
        ensures
            self.tracks(*final(world), final(messages)@, w0, s0, check_end(fs, rolls)),
            r == check_end(fs, rolls).result,
    {
        let pi = self.player_idx;
        let ei = self.enemy_idx;
        let player_alive = world.players[pi].est_vivant();
        let enemy_alive = world.enemies[ei].est_vivant();
        if !player_alive || !enemy_alive {
            let ghost m0 = messages@;
            let result = if player_alive {
                if rolls.lucky {
                    world.players[pi].heal(rolls.gain);
                    messages.push(CombatMessage::about(CombatEvent::Healed(rolls.gain)));
                }
                CombatResult::JoueurVainqueur
            } else if enemy_alive {
                CombatResult::EnnemiVainqueur
            } else {
                CombatResult::DoubleKo
            };
            messages.push(CombatMessage::about(CombatEvent::Ended(result)));
            proof {
                let fe = check_end(fs, rolls);
                assert(messages@.len() == fe.events.len());
                assert forall|k: int| 0 <= k < fe.events.len() implies {
                    &&& (#[trigger] messages@[k]).event == fe.events[k]
                    &&& messages@[k].duree_ms == event_duration(fe.events[k])
                } by {
                    if k < m0.len() {
                        assert(messages@[k] == m0[k]);
                    }
                }
            }
            Some(result)
        } else {
            None
        }
    }

    /// Resolves one combat turn with the draws `rolls` and the player's chosen
    /// `action`, if any, as `fight_turn` says. A combat whose fighters are no
    /// longer both in the world ends at once in a double knock-out.
    pub fn resolve(&mut self, world: &mut World, action: Option<PlayerAction>, rolls: CombatRolls) -> (res: CombatResolution)
        requires
            old(self).turn_fits(*old(world)),
            rolls_in_range(rolls),
        ensures
            old(self).resolved(*old(world), action, rolls, *final(self), *final(world), res),
    {
        let mut messages: Vec<CombatMessage> = Vec::new();
        if self.player_idx >= world.players.len() || self.enemy_idx >= world.enemies.len() {
            return CombatResolution { messages, transition: CombatTransition::Terminer(CombatResult::DoubleKo) };
        }
        let ghost w0 = *world;
        let ghost s0 = *self;
        let pi = self.player_idx;
        let ei = self.enemy_idx;
        let ghost p0 = w0.players@[pi as int];
        let ghost e0 = w0.enemies@[ei as int];
        let ghost mut fs = self.fight_start(p0.spec_stats().vie, e0.spec_stats().vie);
        assert(self.tracks(*world, messages@, w0, s0, fs));
        if self.player_turn && world.players[pi].est_vivant() {
            match action {
                Some(PlayerAction::Attack) => {
                    let base = attack_damage(world.players[pi].stats().attaque, rolls.player_delta);
                    let damage = if self.enemy_defending { base / 2 } else { base };
                    world.enemies[ei].inflige_degats(damage);
                    self.enemy_defending = false;
                    self.player_turn = false;
                    messages.push(CombatMessage::about(CombatEvent::PlayerAttack(damage)));
                },
                Some(PlayerAction::Defend) => {
                    self.player_defending = true;
                    self.player_turn = false;
                    messages.push(CombatMessage::about(CombatEvent::PlayerDefends));
                },
                Some(PlayerAction::Flee) => {
                    let ps = world.players[pi].vitesse();
                    let es = world.enemies[ei].vitesse();
                    let reussite = if ps > es { true } else { rolls.flee_roll < 30 };
                    if reussite {
                        let player_id = world.players[pi].id();
                        let _ = world.move_player(player_id, -1, 0);
                        messages.push(CombatMessage::about(CombatEvent::FleeSucceeded));
                        proof {
                            let t = s0.turn_on(w0, action, rolls);
                            assert(t == player_phase(fs, action, p0.spec_stats().attaque, p0.spec_stats().vitesse,
                                e0.spec_stats().vitesse, rolls));
                        }
                        return CombatResolution { messages, transition: CombatTransition::Terminer(CombatResult::Fuite) };
                    } else {
                        self.player_turn = false;
                        messages.push(CombatMessage::about(CombatEvent::FleeFailed));
                    }
                },
                None => {},
            }
        }
        proof {
            fs = player_phase(fs, action, p0.spec_stats().attaque, p0.spec_stats().vitesse, e0.spec_stats().vitesse, rolls);
        }
        assert(self.tracks(*world, messages@, w0, s0, fs));
        if let Some(result) = self.end_if_over(world, &mut messages, rolls, Ghost(w0), Ghost(s0), Ghost(fs)) {
            return CombatResolution { messages, transition: CombatTransition::Terminer(result) };
        }
        proof {
            fs = check_end(fs, rolls);
        }
        if !self.player_turn {
            let base = attack_damage(world.enemies[ei].stats().attaque, rolls.enemy_delta);
            let damage = if self.player_defending { base / 2 } else { base };
            world.players[pi].inflige_degats(damage);
            self.player_defending = false;
            self.player_turn = true;
            messages.push(CombatMessage::about(CombatEvent::EnemyAttack(damage)));
        }
        proof {
            fs = enemy_phase(fs, e0.spec_stats().attaque, rolls);
        }
        assert(self.tracks(*world, messages@, w0, s0, fs));
        if let Some(result) = self.end_if_over(world, &mut messages, rolls, Ghost(w0), Ghost(s0), Ghost(fs)) {
            return CombatResolution { messages, transition: CombatTransition::Terminer(result) };
        }
        CombatResolution { messages, transition: CombatTransition::Continue }
    }

    /// Plays one combat turn: draws the random values a turn may need, then
    /// resolves the turn with them.
    pub fn update(&mut self, world: &mut World, action: Option<PlayerAction>) -> (res: CombatResolution)
        requires
            old(self).turn_fits(*old(world)),
        ensures
            exists|r: CombatRolls| rolls_in_range(r)
                && #[trigger] old(self).resolved(*old(world), action, r, *final(self), *final(world), res),
    {
        let rolls = CombatRolls {
            player_delta: random_in_range(-5, 5),
            enemy_delta: random_in_range(-5, 5),
            flee_roll: percent_roll(),
            lucky: random_ratio(1, 2),
            gain: random_in_range(10, 40) as u32,
        };
        self.resolve(world, action, rolls)
    }

    /// Whether a turn of this combat on `world` stays within the machine's
    /// integers (see `turn_fits`).
    pub fn turn_is_safe(&self, world: &World) -> (r: bool)
        ensures
            r == self.turn_fits(*world),
    {
        if self.player_idx >= world.players.len() || self.enemy_idx >= world.enemies.len() {
            return true;
        }
        let pa = world.players[self.player_idx].stats().attaque;
        let ea = world.enemies[self.enemy_idx].stats().attaque;
        if !attack_fits(pa) || !attack_fits(ea) {
            return false;
        }
        let id = world.players[self.player_idx].id();
        let n = world.players.len();
        for i in 0..n
            invariant
                n == world.players@.len(),
                self.fighters_in(*world),
                attack_roll_fits(world.players@[self.player_idx as int].spec_stats().attaque),
                attack_roll_fits(world.enemies@[self.enemy_idx as int].spec_stats().attaque),
                id == world.players@[self.player_idx as int].spec_id(),
                forall|j: int| 0 <= j < i && #[trigger] world.players@[j].spec_id() == id
                    ==> step_fits(world.players@[j].spec_position(), -1isize, 0isize),
        {
            let p = &world.players[i];
            if p.id() == id {
                let x = p.position().x;
                let y = p.position().y;
                if !((x as isize) > isize::MIN) {
                    proof {
                        assert(world.players@[i as int].spec_id() == id);
                        assert(!step_fits(world.players@[i as int].spec_position(), -1isize, 0isize));
                    }
                    return false;
                }
            }
        }
        true
    }

    /// The turn state this combat starts from, given the two fighters' lives.
    pub open spec fn fight_start(&self, player_vie: u32, enemy_vie: u32) -> FightState {
        FightState {
            player_vie,
            enemy_vie,
            player_defending: self.spec_player_defending(),
            enemy_defending: self.spec_enemy_defending(),
            player_turn: self.spec_player_turn(),
            events: Seq::empty(),
            result: None,
        }
    }

    /// Both fighters of this combat exist in `world`.
    pub open spec fn fighters_in(&self, world: World) -> bool {
        self.spec_player_idx() < world.players@.len() && self.spec_enemy_idx() < world.enemies@.len()
    }

    /// The turn resolved from this combat on `world` with `action` and the draws `r`.
    pub open spec fn turn_on(&self, world: World, action: Option<PlayerAction>, r: CombatRolls) -> FightState {
        let p = world.players@[self.spec_player_idx() as int];
        let e = world.enemies@[self.spec_enemy_idx() as int];
        fight_turn(self.fight_start(p.spec_stats().vie, e.spec_stats().vie), action,
            p.spec_stats().attaque, p.spec_stats().vitesse, e.spec_stats().attaque, e.spec_stats().vitesse, r)
    }

    /// The preconditions under which a turn runs without overflow: both attack
    /// strengths can be shifted by the damage roll, and the player can step
    /// one cell to the left when fleeing.
    pub open spec fn turn_fits(&self, world: World) -> bool {
        self.fighters_in(world) ==> {
            let p = world.players@[self.spec_player_idx() as int];
            &&& attack_roll_fits(p.spec_stats().attaque)
            &&& attack_roll_fits(world.enemies@[self.spec_enemy_idx() as int].spec_stats().attaque)
            &&& forall|i: int| 0 <= i < world.players@.len() && #[trigger] world.players@[i].spec_id() == p.spec_id()
                ==> step_fits(world.players@[i].spec_position(), -1isize, 0isize)
        }
    }

    /// `after`, `self_after` and `res` are what resolving the turn with the
    /// draws `r` makes of `world` and of this combat.
    pub open spec fn resolved(&self, world: World, action: Option<PlayerAction>, r: CombatRolls,
        self_after: CombatState, world_after: World, res: CombatResolution) -> bool {
        if !self.fighters_in(world) {
            &&& res.messages@.len() == 0
            &&& res.transition == CombatTransition::Terminer(CombatResult::DoubleKo)
            &&& self_after == *self
            &&& world_after == world
        } else {
            let t = self.turn_on(world, action, r);
            let pi = self.spec_player_idx() as int;
            let ei = self.spec_enemy_idx() as int;
            let p = world.players@[pi];
            let e = world.enemies@[ei];
            &&& messages_report(res.messages@, t.events)
            &&& res.transition == transition_of(t)
            &&& self_after.spec_player_idx() == self.spec_player_idx()
            &&& self_after.spec_enemy_idx() == self.spec_enemy_idx()
            &&& self_after.spec_player_defending() == t.player_defending
            &&& self_after.spec_enemy_defending() == t.enemy_defending
            &&& self_after.spec_player_turn() == t.player_turn
            &&& if t.result == Some(CombatResult::Fuite) {
                world.player_moved(world_after, p.spec_id(), -1isize, 0isize)
            } else {
                world_after_fight(world, world_after, pi, ei, t.player_vie, t.enemy_vie)
            }
        }
    }
}

/// A combat turn never raises the enemy's life.
pub proof fn lemma_turn_never_heals_enemy(s: FightState, action: Option<PlayerAction>, player_attaque: u32,
    player_vitesse: u32, enemy_attaque: u32, enemy_vitesse: u32, r: CombatRolls)
    ensures
        fight_turn(s, action, player_attaque, player_vitesse, enemy_attaque, enemy_vitesse, r).enemy_vie <= s.enemy_vie,
{
}

/// The player's life rises during a turn only by searching a beaten enemy:
/// the turn then ends in the player's victory, and never above the maximum.
pub proof fn lemma_player_heals_only_on_victory(s: FightState, action: Option<PlayerAction>, player_attaque: u32,
    player_vitesse: u32, enemy_attaque: u32, enemy_vitesse: u32, r: CombatRolls)
    requires
        s.result is None,
    ensures
        ({
            let t = fight_turn(s, action, player_attaque, player_vitesse, enemy_attaque, enemy_vitesse, r);
            t.player_vie > s.player_vie ==> t.result == Some(CombatResult::JoueurVainqueur) && r.lucky
                && t.player_vie <= crate::types::PLAYER_MAX_VIE
        }),
{
}

/// A combat goes on after a turn only while both fighters still stand.
pub proof fn lemma_combat_continues_only_while_both_stand(s: FightState, action: Option<PlayerAction>,
    player_attaque: u32, player_vitesse: u32, enemy_attaque: u32, enemy_vitesse: u32, r: CombatRolls)
    ensures
        ({
            let t = fight_turn(s, action, player_attaque, player_vitesse, enemy_attaque, enemy_vitesse, r);
            transition_of(t) == CombatTransition::Continue ==> t.player_vie > 0 && t.enemy_vie > 0
        }),
{
}

/// A standing player who is faster than the enemy always gets away on their
/// turn, untouched.
pub proof fn lemma_faster_player_always_flees(s: FightState, player_attaque: u32, player_vitesse: u32,
    enemy_attaque: u32, enemy_vitesse: u32, r: CombatRolls)
    requires
        s.result is None,
        s.player_turn,
        s.player_vie > 0,
        s.enemy_vie > 0,
        player_vitesse > enemy_vitesse,
    ensures
        ({
            let t = fight_turn(s, Some(PlayerAction::Flee), player_attaque, player_vitesse, enemy_attaque, enemy_vitesse, r);
            &&& t.result == Some(CombatResult::Fuite)
            &&& t.player_vie == s.player_vie
            &&& t.enemy_vie == s.enemy_vie
            &&& t.events == s.events.push(CombatEvent::FleeSucceeded)
        }),
{
}

/// A standing player who defends takes only half (rounded down) of the
/// enemy's next blow.
pub proof fn lemma_defending_halves_the_blow(s: FightState, player_attaque: u32, player_vitesse: u32,
    enemy_attaque: u32, enemy_vitesse: u32, r: CombatRolls)
    requires
        s.result is None,
        s.player_turn,
        s.player_vie > 0,
        s.enemy_vie > 0,
    ensures
        ({
            let t = fight_turn(s, Some(PlayerAction::Defend), player_attaque, player_vitesse, enemy_attaque, enemy_vitesse, r);
            let d = attack_value(enemy_attaque, r.enemy_delta as int) / 2;
            &&& t.events.subrange(0, s.events.len() as int + 2)
                == s.events.push(CombatEvent::PlayerDefends).push(CombatEvent::EnemyAttack(d))
            &&& t.player_vie == saturating_sub_spec(s.player_vie, d)
            &&& t.enemy_vie == s.enemy_vie
        }),
{
    let t = fight_turn(s, Some(PlayerAction::Defend), player_attaque, player_vitesse, enemy_attaque, enemy_vitesse, r);
    let d = attack_value(enemy_attaque, r.enemy_delta as int) / 2;
    let s3 = enemy_phase(check_end(player_phase(s, Some(PlayerAction::Defend), player_attaque, player_vitesse,
        enemy_vitesse, r), r), enemy_attaque, r);
    assert(s3.events == s.events.push(CombatEvent::PlayerDefends).push(CombatEvent::EnemyAttack(d)));
    if s3.player_vie == 0 {
        assert(t.events.subrange(0, s.events.len() as int + 2) =~= s3.events);
    } else {
        assert(t.events =~= s3.events);
        assert(t.events.subrange(0, s.events.len() as int + 2) =~= s3.events);
    }
}

/// A turn after which the player stands and the enemy has no life left, and
/// from which the player did not flee, ends in the player's victory, and its
/// last event announces that victory, whatever the draws (the search of the
/// beaten enemy lucky or not).
pub proof fn lemma_fallen_enemy_means_victory(s: FightState, action: Option<PlayerAction>, player_attaque: u32,
    player_vitesse: u32, enemy_attaque: u32, enemy_vitesse: u32, r: CombatRolls)
    requires
        s.result is None,
    ensures
        ({
            let t = fight_turn(s, action, player_attaque, player_vitesse, enemy_attaque, enemy_vitesse, r);
            t.player_vie > 0 && t.enemy_vie == 0 && t.result != Some(CombatResult::Fuite) ==> {
                &&& t.result == Some(CombatResult::JoueurVainqueur)
                &&& t.events.len() > 0
                &&& t.events.last() == CombatEvent::Ended(CombatResult::JoueurVainqueur)
            }
        }),
{
    let s1 = player_phase(s, action, player_attaque, player_vitesse, enemy_vitesse, r);
    let s2 = check_end(s1, r);
    let s3 = enemy_phase(s2, enemy_attaque, r);
    let t = check_end(s3, r);
    assert(t == fight_turn(s, action, player_attaque, player_vitesse, enemy_attaque, enemy_vitesse, r));
    if t.player_vie > 0 && t.enemy_vie == 0 && t.result != Some(CombatResult::Fuite) {
        if s2.result is Some {
            assert(s3 == s2);
            assert(t == s2);
            if s1.result is Some {
                assert(s2 == s1);
            }
        } else {
            assert(s3.result is None);
        }
    }
}

/// A resolved turn that leaves the player standing and the enemy without
/// life, and that is no flight, ends in the player's victory and reports it as
/// its last message.
pub proof fn lemma_beaten_enemy_is_a_victory(cs: CombatState, world: World, action: Option<PlayerAction>,
    r: CombatRolls, cs1: CombatState, w1: World, res: CombatResolution)
    requires
        cs.fighters_in(world),
        cs.resolved(world, action, r, cs1, w1, res),
        w1.players@[cs.spec_player_idx() as int].spec_stats().vie > 0,
        w1.enemies@[cs.spec_enemy_idx() as int].spec_stats().vie == 0,
        res.transition != CombatTransition::Terminer(CombatResult::Fuite),
    ensures
        res.transition == CombatTransition::Terminer(CombatResult::JoueurVainqueur),
        res.messages@.len() > 0,
        res.messages@.last().event == CombatEvent::Ended(CombatResult::JoueurVainqueur),
{
    let p = world.players@[cs.spec_player_idx() as int];
    let e = world.enemies@[cs.spec_enemy_idx() as int];
    let s = cs.fight_start(p.spec_stats().vie, e.spec_stats().vie);
    lemma_fallen_enemy_means_victory(s, action, p.spec_stats().attaque, p.spec_stats().vitesse,
        e.spec_stats().attaque, e.spec_stats().vitesse, r);
    let t = cs.turn_on(world, action, r);
    assert(t.result != Some(CombatResult::Fuite));
    assert(res.messages@[res.messages@.len() - 1].event == t.events[t.events.len() - 1]);
}

} // verus!
