use crate::arena::{
    Arena, Spawn, Tile, has_wizard_of, index_of, on_board, owns_piece_on, spawn_body,
};
use crate::color::Color;
use crate::combat::{attack_beats, attack_succeeds};
use crate::creation::GameCreation;
use crate::spells::{Spell, SpellKind, casts};
use crate::stats::CreationStats;
use crate::stats::{WizardStats, defence_of, combat_of};
use crate::wizard::{ServerWizards, active_count};
use vstd::prelude::*;

verus! {

/// Everything a running match holds: the roster and the board.
pub struct ServerState {
    pub wizards: ServerWizards,
    pub arena: Arena,
}

impl ServerState {
    pub open spec fn wf(&self) -> bool {
        self.wizards.wf() && self.arena.wf()
    }
}

/// What the engine tells the players; `id` is the acting player.
#[derive(Clone, Debug)]
pub enum Event {
    Join { id: u32, player: crate::wizard::Player },
    Leave { id: u32 },
    Ready { id: u32, ready: bool },
    /// The lobby so far, sent to a player who just connected.
    Welcome { to: u32 },
    ChooseSpell { id: u32 },
    CastSpell { id: u32, name: String, range: u8 },
    WaitingForOtherPlayers { count: u32 },
    SpellSucceeds { alignment: i8 },
    SpellFails,
    Disbelieve { id: u32, x: u8, y: u8, success: bool },
    CreationSpell { id: u32, x: u8, y: u8, creation: Option<GameCreation> },
    CastFire { id: u32, x: u8, y: u8, fire: Option<GameCreation> },
    CastBlob { id: u32, x: u8, y: u8, blob: Option<GameCreation> },
    BuffWizard { id: u32, stats: WizardStats },
    DeBuffWizard { id: u32, stats: WizardStats },
    MagicBolt { id: u32, x: u8, y: u8, success: bool },
    Lightning { id: u32, x: u8, y: u8, success: bool },
    MagicalAttack { id: u32, x: u8, y: u8, success: bool },
    Subversion { id: u32, x: u8, y: u8, success: bool },
    RaiseDead { id: u32, x: u8, y: u8, success: bool },
    MoveWizard { id: u32, x: u8, y: u8 },
    MoveCreation { id: u32, sx: u8, sy: u8, dx: u8, dy: u8 },
    SuccessfulAttack { id: u32, x: u8, y: u8, corpse: bool },
    FailedAttack { id: u32, x: u8, y: u8 },
    SuccessfulRangedAttack { id: u32, sx: u8, sy: u8, dx: u8, dy: u8, corpse: bool, color: Color },
    FailedRangedAttack { id: u32, sx: u8, sy: u8, dx: u8, dy: u8, color: Color },
    SuccessfulDragonRangedAttack { id: u32, sx: u8, sy: u8, dx: u8, dy: u8 },
    FailedDragonRangedAttack { id: u32, sx: u8, sy: u8, dx: u8, dy: u8 },
    UndeadCannotBeAttacked { id: u32 },
    NoLineOfSight { id: u32 },
    NoPossibleMoves { id: u32 },
    ShadowWoodInfo { id: u32 },
    ShelterDisappears { x: u8, y: u8 },
    SpawnFire { x: u8, y: u8, fire: Option<GameCreation> },
    SpawnBlob { x: u8, y: u8, blob: Option<GameCreation> },
    RemoveSpawn { x: u8, y: u8 },
    NewSpell { id: u32, x: u8, y: u8 },
    SendSpell { id: u32, spell: Spell },
}

/// The result of one melee attack.
pub struct AttackOutcome {
    /// What to tell the players, in order.
    pub events: Vec<Event>,
    /// Whether the attacker won the opposed throw.
    pub success: bool,
    /// Whether the attack left a single player standing.
    pub game_over: bool,
    /// Where the attacker stands afterwards, from where ranged combat may follow;
    /// none once the match is over.
    pub next: Option<(u8, u8)>,
}

/// A piece that can be attacked by moving onto its tile: an enemy blob; else a
/// magic wood that shelters an enemy wizard, or any other enemy creation; else an
/// enemy wizard.
pub open spec fn attack_target(t: Tile, id: u32) -> bool {
    match t.spawn {
        Some(Spawn::Blob(b)) => b.id != id,
        Some(Spawn::Fire(_)) => false,
        None => match t.creation {
            Some(c) => if c.stats.magic_wood {
                t.wizard matches Some(w) && w.id != id
            } else {
                c.id != id
            },
            None => t.wizard matches Some(w) && w.id != id,
        },
    }
}

/// The defence that a melee attack on the tile must beat.
pub open spec fn target_defence(t: Tile) -> int {
    match t.spawn {
        Some(s) => spawn_body(s).stats.base.defence as int,
        None => match t.creation {
            Some(c) => c.stats.base.defence as int,
            None => defence_of(t.wizard->0.stats),
        },
    }
}

/// Whether a won attack on the tile kills a wizard: one standing there, or one
/// sheltering in magic wood.
pub open spec fn kills_wizard(t: Tile) -> bool {
    t.spawn.is_none() && match t.creation {
        Some(c) => c.stats.magic_wood,
        None => true,
    }
}

/// The wizard a won attack on the tile kills.
pub open spec fn victim(t: Tile) -> u32 {
    t.wizard->0.id
}

/// Whether a won attack lets the attacker advance onto the tile: only where
/// nothing else is left there.
pub open spec fn advances_onto(t: Tile) -> bool {
    match t.spawn {
        Some(_) => t.creation.is_none() && t.wizard.is_none(),
        None => match t.creation {
            Some(c) => c.stats.magic_wood || t.wizard.is_none(),
            None => true,
        },
    }
}

/// The tile holds no wizard of `id` but, perhaps, the one at position `at`.
pub open spec fn sole_wizard(a: Arena, id: u32, at: int) -> bool {
    forall|j: int| 0 <= j < 150 && j != at ==> !has_wizard_of(#[trigger] a.tiles@[j], id)
}

fn target_defence_exec(t: &Tile) -> (r: u8)
    requires
        t.spawn.is_some() || t.creation.is_some() || t.wizard.is_some(),
    ensures
        r as int == target_defence(*t),
{
    match &t.spawn {
        Some(s) => s.body().stats.base.defence,
        None => match &t.creation {
            Some(c) => c.stats.base.defence,
            None => t.wizard.as_ref().unwrap().stats.get_defence(),
        },
    }
}

fn victim_exec(t: &Tile) -> (r: u32)
    requires
        t.wizard.is_some(),
    ensures
        r == victim(*t),
{
    t.wizard.as_ref().unwrap().id
}

/// Marks a killed wizard in the roster and takes its pieces off the board; true
/// when a single player is left.
fn kill_player(state: &mut ServerState, victim: u32) -> (r: bool)
    requires
        old(state).wf(),
    ensures
        final(state).wf(),
        final(state).arena.alignment == old(state).arena.alignment,
        forall|i: int|
            0 <= i < 150 ==> #[trigger] final(state).arena.tiles@[i] == crate::arena::purge(
                old(state).arena.tiles@[i],
                victim,
                true,
            ),
        forall|i: int|
            0 <= i < 150 ==> !owns_piece_on(#[trigger] final(state).arena.tiles@[i], victim) && !has_wizard_of(
                final(state).arena.tiles@[i],
                victim,
            ),
        r == (active_count(final(state).wizards@) == 1),
        forall|i: int| 0 <= i < final(state).wizards@.len() ==> (#[trigger] final(state).wizards@[i]).id == old(state).wizards@[i].id,
        final(state).wizards@.len() == old(state).wizards@.len(),
{
    state.arena.kill_wizard_and_creations(victim);
    // A piece whose owner left the roster has no entry to mark.
    let _ = state.wizards.set_dead(victim);
    state.wizards.check_for_winning_condition()
}

/// A creation at (sx, sy) attacks the piece at (dx, dy), with the given throws of
/// attacker and defender. It spends its remaining movement. When it wins, the
/// piece dies (a creation leaves a corpse unless it was an illusion or undead);
/// a killed wizard takes all its pieces with it; and the attacker advances onto
/// the tile if nothing is left there, unless it is shadow wood, which stays rooted.
pub fn creation_attack(
    state: &mut ServerState,
    id: u32,
    sx: u8,
    sy: u8,
    dx: u8,
    dy: u8,
    attack_roll: u8,
    defence_roll: u8,
) -> (r: AttackOutcome)
    requires
        old(state).wf(),
        on_board(sx as int, sy as int),
        on_board(dx as int, dy as int),
        sx != dx || sy != dy,
        old(state).arena.tile(sx as int, sy as int).creation matches Some(c) && c.id == id,
        attack_target(old(state).arena.tile(dx as int, dy as int), id),
    ensures
        final(state).wf(),
        ({
            let src = old(state).arena.tile(sx as int, sy as int);
            let dst = old(state).arena.tile(dx as int, dy as int);
            let a = src.creation->0;
            let rooted = a.stats.shadow_wood;
            let mover = GameCreation { moves_left: 0, ..a };
            &&& r.success == attack_beats(
                a.stats.base.combat as int,
                target_defence(dst),
                attack_roll as int,
                defence_roll as int,
            )
            &&& (r.success && kills_wizard(dst)) ==> forall|i: int|
                0 <= i < 150 ==> !has_wizard_of(#[trigger] final(state).arena.tiles@[i], victim(dst))
                    && !owns_piece_on(final(state).arena.tiles@[i], victim(dst))
            &&& r.game_over == (r.success && kills_wizard(dst) && active_count(final(state).wizards@) == 1)
            &&& (!r.game_over && r.success && !rooted && advances_onto(dst)) ==> (final(state).arena.tile(
                dx as int,
                dy as int,
            ).creation == Some(mover) && r.next == Some((dx, dy)))
            &&& (!r.game_over && (!r.success || rooted)) ==> (final(state).arena.tile(sx as int, sy as int).creation == Some(
                mover,
            ) && r.next == Some((sx, sy)))
            &&& rooted ==> final(state).arena.tile(sx as int, sy as int).creation == Some(mover)
            &&& rooted ==> forall|k: int| 0 <= k < r.events@.len() ==> !(#[trigger] r.events@[k] is MoveCreation)
            &&& r.game_over ==> r.next.is_none()
        }),
{
    {
        let c = state.arena.get_mut_creation(sx, sy);
        c.moves_left = 0;
    }
    let shadow_wood = state.arena.get_creation(sx, sy).stats.shadow_wood;
    let combat = state.arena.get_creation(sx, sy).stats.base.combat;
    let dst = state.arena.get(dx, dy);
    let defence = target_defence_exec(dst);
    let success = attack_succeeds(combat, defence, attack_roll, defence_roll);
    let mut events: Vec<Event> = Vec::new();
    if !success {
        events.push(Event::FailedAttack { id, x: dx, y: dy });
        return AttackOutcome { events, success, game_over: false, next: Some((sx, sy)) };
    }
    let has_spawn = dst.spawn.is_some();
    let creation_there = dst.creation.is_some();
    let wizard_there = dst.wizard.is_some();
    if has_spawn {
        events.push(Event::SuccessfulAttack { id, x: dx, y: dy, corpse: false });
        state.arena.remove_spawn(dx, dy);
        if !shadow_wood && !creation_there && !wizard_there {
            events.push(Event::MoveCreation { id, sx, sy, dx, dy });
            state.arena.move_creation(sx, sy, dx, dy);
            return AttackOutcome { events, success, game_over: false, next: Some((dx, dy)) };
        }
        return AttackOutcome { events, success, game_over: false, next: Some((sx, sy)) };
    }
    if creation_there {
        let magic_wood = dst.creation.as_ref().unwrap().stats.magic_wood;
        if magic_wood {
            let victim = victim_exec(dst);
            events.push(Event::SuccessfulAttack { id, x: dx, y: dy, corpse: false });
            let over = kill_player(state, victim);
            if over {
                return AttackOutcome { events, success, game_over: true, next: None };
            }
            if !shadow_wood {
                events.push(Event::MoveCreation { id, sx, sy, dx, dy });
                state.arena.move_creation(sx, sy, dx, dy);
                return AttackOutcome { events, success, game_over: false, next: Some((dx, dy)) };
            }
            return AttackOutcome { events, success, game_over: false, next: Some((sx, sy)) };
        }
        let other = dst.creation.as_ref().unwrap();
        let corpse = !(other.illusion || other.stats.undead);
        events.push(Event::SuccessfulAttack { id, x: dx, y: dy, corpse });
        state.arena.kill_creation(dx, dy, corpse);
        if !shadow_wood && !wizard_there {
            events.push(Event::MoveCreation { id, sx, sy, dx, dy });
            state.arena.move_creation(sx, sy, dx, dy);
            return AttackOutcome { events, success, game_over: false, next: Some((dx, dy)) };
        }
        return AttackOutcome { events, success, game_over: false, next: Some((sx, sy)) };
    }
    let victim = victim_exec(dst);
    events.push(Event::SuccessfulAttack { id, x: dx, y: dy, corpse: false });
    let over = kill_player(state, victim);
    if over {
        return AttackOutcome { events, success, game_over: true, next: None };
    }
    if !shadow_wood {
        events.push(Event::MoveCreation { id, sx, sy, dx, dy });
        state.arena.move_creation(sx, sy, dx, dy);
        return AttackOutcome { events, success, game_over: false, next: Some((dx, dy)) };
    }
    AttackOutcome { events, success, game_over: false, next: Some((sx, sy)) }
}

/// The wizard `w` after it attacked: no movement left, and out of shadow form.
pub open spec fn spent_wizard(w: crate::wizard::GameWizard) -> crate::wizard::GameWizard {
    crate::wizard::GameWizard {
        moves_left: 0,
        stats: WizardStats { shadow_form: false, ..w.stats },
        ..w
    }
}

/// The wizard of `id` at (sx, sy) attacks the piece at (dx, dy), with the given
/// throws. Attacking spends its movement and ends its shadow form; its combat
/// counts its attack buff. When it wins, the piece dies as for a creation's
/// attack, and the wizard advances onto the tile if nothing is left there.
pub fn wizard_attack(
    state: &mut ServerState,
    id: u32,
    sx: u8,
    sy: u8,
    dx: u8,
    dy: u8,
    attack_roll: u8,
    defence_roll: u8,
) -> (r: AttackOutcome)
    requires
        old(state).wf(),
        on_board(sx as int, sy as int),
        on_board(dx as int, dy as int),
        sx != dx || sy != dy,
        has_wizard_of(old(state).arena.tile(sx as int, sy as int), id),
        sole_wizard(old(state).arena, id, index_of(sx as int, sy as int)),
        attack_target(old(state).arena.tile(dx as int, dy as int), id),
        active_count(old(state).wizards@) != 1,
    ensures
        final(state).wf(),
        ({
            let src = old(state).arena.tile(sx as int, sy as int);
            let dst = old(state).arena.tile(dx as int, dy as int);
            let w = src.wizard->0;
            let mover = spent_wizard(w);
            &&& r.success == attack_beats(
                combat_of(w.stats),
                target_defence(dst),
                attack_roll as int,
                defence_roll as int,
            )
            &&& (r.success && kills_wizard(dst)) ==> forall|i: int|
                0 <= i < 150 ==> !has_wizard_of(#[trigger] final(state).arena.tiles@[i], victim(dst))
                    && !owns_piece_on(final(state).arena.tiles@[i], victim(dst))
            &&& r.game_over == (r.success && kills_wizard(dst) && active_count(final(state).wizards@) == 1)
            &&& (!r.game_over && r.success && advances_onto(dst)) ==> (final(state).arena.tile(
                dx as int,
                dy as int,
            ).wizard == Some(mover) && r.next == Some((dx, dy)))
            &&& (!r.game_over && !(r.success && advances_onto(dst))) ==> (final(state).arena.tile(
                sx as int,
                sy as int,
            ).wizard == Some(mover) && r.next == Some((sx, sy)))
            &&& r.game_over ==> r.next.is_none()
        }),
{
    let ghost s_idx = index_of(sx as int, sy as int);
    let combat = {
        let w = state.arena.get_mut_wizard(sx, sy);
        w.moves_left = 0;
        w.stats.shadow_form = false;
        w.stats.get_combat()
    };
    let ghost a1 = state.arena;
    let dst = state.arena.get(dx, dy);
    let defence = target_defence_exec(dst);
    let success = attack_succeeds(combat, defence, attack_roll, defence_roll);
    let mut events: Vec<Event> = Vec::new();
    if !success {
        events.push(Event::FailedAttack { id, x: dx, y: dy });
        return AttackOutcome { events, success, game_over: false, next: Some((sx, sy)) };
    }
    let has_spawn = dst.spawn.is_some();
    let creation_there = dst.creation.is_some();
    let wizard_there = dst.wizard.is_some();
    if has_spawn {
        events.push(Event::SuccessfulAttack { id, x: dx, y: dy, corpse: false });
        state.arena.remove_spawn(dx, dy);
        if !creation_there && !wizard_there {
            events.push(Event::MoveWizard { id, x: dx, y: dy });
            assert(state.arena.tiles@[s_idx] == a1.tiles@[s_idx]);
            state.arena.move_wizard(id, dx, dy);
            return AttackOutcome { events, success, game_over: false, next: Some((dx, dy)) };
        }
        return AttackOutcome { events, success, game_over: false, next: Some((sx, sy)) };
    }
    if creation_there {
        let magic_wood = dst.creation.as_ref().unwrap().stats.magic_wood;
        if magic_wood {
            let victim = victim_exec(dst);
            events.push(Event::SuccessfulAttack { id, x: dx, y: dy, corpse: false });
            if state.wizards.check_for_winning_condition() {
                return AttackOutcome { events, success, game_over: true, next: None };
            }
            let over = kill_player(state, victim);
            if over {
                return AttackOutcome { events, success, game_over: true, next: None };
            }
            assert forall|j: int| 0 <= j < 150 && j != s_idx implies !has_wizard_of(
                #[trigger] state.arena.tiles@[j],
                id,
            ) by {
                assert(state.arena.tiles@[j] == crate::arena::purge(a1.tiles@[j], victim, true));
            }
            assert(state.arena.tiles@[s_idx] == crate::arena::purge(a1.tiles@[s_idx], victim, true));
            assert(has_wizard_of(state.arena.tiles@[s_idx], id));
            state.arena.move_wizard(id, dx, dy);
            return AttackOutcome { events, success, game_over: false, next: Some((dx, dy)) };
        }
        let other = dst.creation.as_ref().unwrap();
        let corpse = !(other.illusion || other.stats.undead);
        events.push(Event::SuccessfulAttack { id, x: dx, y: dy, corpse });
        state.arena.kill_creation(dx, dy, corpse);
        if !wizard_there {
            events.push(Event::MoveWizard { id, x: dx, y: dy });
            assert(index_of(dx as int, dy as int) != s_idx);
            assert(has_wizard_of(state.arena.tiles@[s_idx], id));
            state.arena.move_wizard(id, dx, dy);
            return AttackOutcome { events, success, game_over: false, next: Some((dx, dy)) };
        }
        return AttackOutcome { events, success, game_over: false, next: Some((sx, sy)) };
    }
    let victim = victim_exec(dst);
    events.push(Event::SuccessfulAttack { id, x: dx, y: dy, corpse: false });
    let over = kill_player(state, victim);
    if over {
        return AttackOutcome { events, success, game_over: true, next: None };
    }
    assert forall|j: int| 0 <= j < 150 && j != s_idx implies !has_wizard_of(#[trigger] state.arena.tiles@[j], id) by {
        assert(state.arena.tiles@[j] == crate::arena::purge(a1.tiles@[j], victim, true));
    }
    assert(state.arena.tiles@[s_idx] == crate::arena::purge(a1.tiles@[s_idx], victim, true));
    assert(has_wizard_of(state.arena.tiles@[s_idx], id));
    events.push(Event::MoveWizard { id, x: dx, y: dy });
    state.arena.move_wizard(id, dx, dy);
    AttackOutcome { events, success, game_over: false, next: Some((dx, dy)) }
}

/// The result of a ranged attack or an attacking spell.
pub struct ShotOutcome {
    pub events: Vec<Event>,
    /// Whether the target was destroyed.
    pub success: bool,
}

/// What a missile hits on a tile: a blob; else a creation, unless it is undead and
/// the shooter is not; else a wizard.
pub open spec fn ranged_hit_defence(t: Tile, shooter_undead: bool) -> Option<int> {
    match t.spawn {
        Some(Spawn::Blob(b)) => Some(b.stats.base.defence as int),
        _ => match t.creation {
            Some(c) => if c.stats.undead && !shooter_undead { None } else { Some(c.stats.base.defence as int) },
            None => match t.wizard {
                Some(w) => Some(defence_of(w.stats)),
                None => None,
            },
        },
    }
}

/// The creation at (sx, sy) shoots at (dx, dy) with its ranged combat value and
/// the given throws. A destroyed creation leaves a corpse unless the shooter is a
/// dragon or the creation leaves none; a wizard hit, or one sheltering in the
/// magic wood hit, dies with all its pieces.
pub fn creation_ranged_combat(
    state: &mut ServerState,
    id: u32,
    sx: u8,
    sy: u8,
    dx: u8,
    dy: u8,
    attack_roll: u8,
    defence_roll: u8,
) -> (r: ShotOutcome)
    requires
        old(state).wf(),
        on_board(sx as int, sy as int),
        on_board(dx as int, dy as int),
        old(state).arena.tile(sx as int, sy as int).creation.is_some(),
    ensures
        final(state).wf(),
        ({
            let shooter = old(state).arena.tile(sx as int, sy as int).creation->0;
            let dst = old(state).arena.tile(dx as int, dy as int);
            r.success == match ranged_hit_defence(dst, shooter.stats.undead) {
                Some(d) => attack_beats(shooter.stats.base.ranged_combat as int, d, attack_roll as int, defence_roll as int),
                None => false,
            }
        }),
        !r.success ==> final(state).arena == old(state).arena && final(state).wizards@ == old(state).wizards@,
        ({
            let shooter = old(state).arena.tile(sx as int, sy as int).creation->0;
            let t = old(state).arena.tile(dx as int, dy as int);
            let i = index_of(dx as int, dy as int);
            &&& (r.success && t.spawn matches Some(Spawn::Blob(_))) ==> final(state).arena.tiles@
                == old(state).arena.tiles@.update(i, Tile { spawn: None, ..t })
            &&& (r.success && !(t.spawn matches Some(Spawn::Blob(_))) && (t.creation matches Some(c) && !(
            c.stats.magic_wood && t.wizard.is_some()))) ==> final(state).arena.tiles@ == old(state).arena.tiles@.update(
                i,
                Tile {
                    creation: None,
                    corpse: if !shooter.stats.dragon && crate::creation::leaves_corpse(t.creation->0) {
                        t.creation
                    } else {
                        t.corpse
                    },
                    ..t
                },
            )
            &&& (r.success && !(t.spawn matches Some(Spawn::Blob(_))) && (t.creation.is_none() || (t.creation->0.stats.magic_wood && t.wizard.is_some())))
                ==> forall|j: int| 0 <= j < 150 ==> !has_wizard_of(#[trigger] final(state).arena.tiles@[j], t.wizard->0.id)
        }),
{
    let shooter = state.arena.get_creation(sx, sy);
    let combat = shooter.stats.base.ranged_combat;
    let dragon = shooter.stats.dragon;
    let undead = shooter.stats.undead;
    let color = shooter.projectile_color();
    let dst = state.arena.get(dx, dy);
    let mut events: Vec<Event> = Vec::new();
    let blob = match &dst.spawn {
        Some(Spawn::Blob(_)) => true,
        _ => false,
    };
    let mut success = false;
    if blob {
        let defence = dst.spawn.as_ref().unwrap().body().stats.base.defence;
        if attack_succeeds(combat, defence, attack_roll, defence_roll) {
            if dragon {
                events.push(Event::SuccessfulDragonRangedAttack { id, sx, sy, dx, dy });
            } else {
                events.push(Event::SuccessfulRangedAttack { id, sx, sy, dx, dy, corpse: false, color });
            }
            state.arena.remove_spawn(dx, dy);
            success = true;
        }
    } else if dst.creation.is_some() {
        let other = dst.creation.as_ref().unwrap();
        if other.stats.undead && !undead {
            events.push(Event::UndeadCannotBeAttacked { id });
        } else if attack_succeeds(combat, other.stats.base.defence, attack_roll, defence_roll) {
            success = true;
            if other.stats.magic_wood && dst.wizard.is_some() {
                let victim = victim_exec(dst);
                if dragon {
                    events.push(Event::SuccessfulDragonRangedAttack { id, sx, sy, dx, dy });
                } else {
                    events.push(Event::SuccessfulRangedAttack { id, sx, sy, dx, dy, corpse: false, color });
                }
                kill_player(state, victim);
            } else if dragon {
                events.push(Event::SuccessfulDragonRangedAttack { id, sx, sy, dx, dy });
                state.arena.kill_creation(dx, dy, false);
            } else {
                let corpse = other.has_a_corpse();
                events.push(Event::SuccessfulRangedAttack { id, sx, sy, dx, dy, corpse, color });
                state.arena.kill_creation(dx, dy, corpse);
            }
        }
    } else if dst.wizard.is_some() {
        let defence = dst.wizard.as_ref().unwrap().stats.get_defence();
        if attack_succeeds(combat, defence, attack_roll, defence_roll) {
            let victim = victim_exec(dst);
            if dragon {
                events.push(Event::SuccessfulDragonRangedAttack { id, sx, sy, dx, dy });
            } else {
                events.push(Event::SuccessfulRangedAttack { id, sx, sy, dx, dy, corpse: false, color });
            }
            kill_player(state, victim);
            success = true;
        }
    }
    if !success {
        if dragon {
            events.push(Event::FailedDragonRangedAttack { id, sx, sy, dx, dy });
        } else {
            events.push(Event::FailedRangedAttack { id, sx, sy, dx, dy, color });
        }
    }
    ShotOutcome { events, success }
}

/// The wizard at (sx, sy) shoots with its bow at (dx, dy), with the given throws.
/// A hit on magic wood with a wizard inside kills the wood's owner.
pub fn wizard_ranged_combat(
    state: &mut ServerState,
    id: u32,
    sx: u8,
    sy: u8,
    dx: u8,
    dy: u8,
    attack_roll: u8,
    defence_roll: u8,
) -> (r: ShotOutcome)
    requires
        old(state).wf(),
        on_board(sx as int, sy as int),
        on_board(dx as int, dy as int),
        old(state).arena.tile(sx as int, sy as int).wizard.is_some(),
    ensures
        final(state).wf(),
        ({
            let shooter = old(state).arena.tile(sx as int, sy as int).wizard->0;
            let dst = old(state).arena.tile(dx as int, dy as int);
            let combat: int = if shooter.stats.magic_bow { 3 } else { 0 };
            r.success == match ranged_hit_defence(dst, true) {
                Some(d) => attack_beats(combat, d, attack_roll as int, defence_roll as int),
                None => false,
            }
        }),
        !r.success ==> final(state).arena == old(state).arena && final(state).wizards@ == old(state).wizards@,
        ({
            let t = old(state).arena.tile(dx as int, dy as int);
            let i = index_of(dx as int, dy as int);
            let blob = t.spawn matches Some(Spawn::Blob(_));
            &&& (r.success && blob) ==> final(state).arena.tiles@ == old(state).arena.tiles@.update(
                i,
                Tile { spawn: None, ..t },
            )
            &&& (r.success && !blob && (t.creation matches Some(c) && !(c.stats.magic_wood && t.wizard.is_some())))
                ==> final(state).arena.tiles@ == old(state).arena.tiles@.update(
                i,
                Tile {
                    creation: None,
                    corpse: if crate::creation::leaves_corpse(t.creation->0) { t.creation } else { t.corpse },
                    ..t
                },
            )
            &&& (r.success && !blob && (t.creation matches Some(c) && c.stats.magic_wood && t.wizard.is_some()))
                ==> forall|j: int| 0 <= j < 150 ==> !has_wizard_of(#[trigger] final(state).arena.tiles@[j], t.creation->0.id)
            &&& (r.success && !blob && t.creation.is_none()) ==> forall|j: int|
                0 <= j < 150 ==> !has_wizard_of(#[trigger] final(state).arena.tiles@[j], t.wizard->0.id)
        }),
{
    let combat = state.arena.get_wizard(sx, sy).stats.get_ranged_combat();
    let color = Color::BrightWhite;
    let dst = state.arena.get(dx, dy);
    let mut events: Vec<Event> = Vec::new();
    let blob = match &dst.spawn {
        Some(Spawn::Blob(_)) => true,
        _ => false,
    };
    let mut success = false;
    if blob {
        let defence = dst.spawn.as_ref().unwrap().body().stats.base.defence;
        if attack_succeeds(combat, defence, attack_roll, defence_roll) {
            events.push(Event::SuccessfulRangedAttack { id, sx, sy, dx, dy, corpse: false, color });
            state.arena.remove_spawn(dx, dy);
            success = true;
        }
    } else if dst.creation.is_some() {
        let other = dst.creation.as_ref().unwrap();
        if attack_succeeds(combat, other.stats.base.defence, attack_roll, defence_roll) {
            success = true;
            if other.stats.magic_wood && dst.wizard.is_some() {
                let owner = other.id;
                events.push(Event::SuccessfulRangedAttack { id, sx, sy, dx, dy, corpse: false, color });
                kill_player(state, owner);
            } else {
                let corpse = other.has_a_corpse();
                events.push(Event::SuccessfulRangedAttack { id, sx, sy, dx, dy, corpse, color });
                state.arena.kill_creation(dx, dy, corpse);
            }
        }
    } else if dst.wizard.is_some() {
        let defence = dst.wizard.as_ref().unwrap().stats.get_defence();
        if attack_succeeds(combat, defence, attack_roll, defence_roll) {
            let victim = victim_exec(dst);
            events.push(Event::SuccessfulRangedAttack { id, sx, sy, dx, dy, corpse: false, color });
            kill_player(state, victim);
            success = true;
        }
    }
    if !success {
        events.push(Event::FailedRangedAttack { id, sx, sy, dx, dy, color });
    }
    ShotOutcome { events, success }
}

/// Disbelieve cast by `id` on (x, y): an illusion vanishes and the world shifts by
/// the spell's alignment; anything real stays and the spell fails.
pub fn resolve_disbelieve(state: &mut ServerState, id: u32, x: u8, y: u8, spell_alignment: i8) -> (r: Vec<Event>)
    requires
        old(state).wf(),
        on_board(x as int, y as int),
    ensures
        final(state).wf(),
        final(state).wizards@ == old(state).wizards@,
        ({
            let t = old(state).arena.tile(x as int, y as int);
            let success = t.creation matches Some(c) && c.illusion;
            &&& r@.len() == 2
            &&& r@[0] == Event::Disbelieve { id, x, y, success }
            &&& success ==> final(state).arena.tiles@ == old(state).arena.tiles@.update(
                index_of(x as int, y as int),
                Tile { creation: None, ..t },
            ) && r@[1] == Event::SpellSucceeds { alignment: final(state).arena.alignment }
            &&& !success ==> final(state).arena == old(state).arena && r@[1] == Event::SpellFails
        }),
{
    let illusion = match &state.arena.get(x, y).creation {
        Some(c) => c.illusion,
        None => false,
    };
    let mut events: Vec<Event> = Vec::new();
    if illusion {
        events.push(Event::Disbelieve { id, x, y, success: true });
        state.arena.set_creation(x, y, None);
        state.arena.adjust_alignment(spell_alignment);
        events.push(Event::SpellSucceeds { alignment: state.arena.alignment });
    } else {
        events.push(Event::Disbelieve { id, x, y, success: false });
        events.push(Event::SpellFails);
    }
    events
}

/// The tiles a spell of the given kind and range may target for the caster at
/// (x, y): enemy pieces for disbelieve and the attacking spells, empty tiles for
/// whatever it summons, subvertable creations, uncovered corpses; none for the
/// spells the caster casts on itself or on the world.
pub fn spell_targets(arena: &Arena, kind: &SpellKind, range: u8, x: u8, y: u8, id: u32) -> (r: Vec<(u8, u8)>)
    requires
        arena.wf(),
    ensures
        r@ == match *kind {
            SpellKind::Disbelieve | SpellKind::MagicBolt | SpellKind::Lightning | SpellKind::MagicalAttack(_) => arena.tiles_where(
                crate::arena::Area::Spell(range), x, y, crate::arena::Query::AttackableOpposition, id),
            SpellKind::Creation(_) | SpellKind::MagicFire(_) | SpellKind::GooeyBlob(_) | SpellKind::MagicWood(_)
            | SpellKind::ShadowWood(_) | SpellKind::Shelter(_) | SpellKind::Wall(_) => arena.tiles_where(
                crate::arena::Area::Spell(range), x, y, crate::arena::Query::Empty, 0),
            SpellKind::Subversion => arena.tiles_where(
                crate::arena::Area::Spell(range), x, y, crate::arena::Query::SubvertableOpposition, id),
            SpellKind::RaiseDead => arena.tiles_where(
                crate::arena::Area::Spell(range), x, y, crate::arena::Query::VisibleCorpse, 0),
            _ => Seq::<(u8, u8)>::empty(),
        },
{
    match kind {
        SpellKind::Disbelieve | SpellKind::MagicBolt | SpellKind::Lightning | SpellKind::MagicalAttack(_) => arena.cast_spell_on_attackable_tiles(x, y, range, id),
        SpellKind::Creation(_) | SpellKind::MagicFire(_) | SpellKind::GooeyBlob(_) | SpellKind::MagicWood(_)
        | SpellKind::ShadowWood(_) | SpellKind::Shelter(_) | SpellKind::Wall(_) => arena.creation_spell_tiles(x, y, range),
        SpellKind::Subversion => arena.all_subvertable_opposition_tiles(x, y, range, id),
        SpellKind::RaiseDead => arena.visible_corpse_tiles(x, y, range),
        _ => Vec::new(),
    }
}

/// How a summoned piece lands on its tile.
#[derive(Clone, Copy, Debug, PartialEq, Eq, Structural)]
pub enum Summon {
    /// A creation, a wood, a wall or a shelter.
    Creation,
    Fire,
    Blob,
}

/// Summons a piece of `id` with the given stats onto the empty tile (dx, dy). An
/// illusion always appears; anything else only when the throw casts the spell.
/// On success the world shifts by the spell's alignment.
pub fn resolve_summon(
    state: &mut ServerState,
    id: u32,
    spell: &Spell,
    stats: &CreationStats,
    how: Summon,
    dx: u8,
    dy: u8,
    illusion: bool,
    world_alignment: i8,
    spell_ability: u8,
    roll: u8,
) -> (r: Vec<Event>)
    requires
        old(state).wf(),
        on_board(dx as int, dy as int),
    ensures
        final(state).wf(),
        final(state).wizards@ == old(state).wizards@,
        ({
            let ok = (illusion && how == Summon::Creation) || casts(roll as int, *spell, world_alignment as int, spell_ability as int);
            let t = old(state).arena.tile(dx as int, dy as int);
            let piece = GameCreation {
                id,
                moves_left: 0,
                stats: *stats,
                frame_count: 0,
                current_frame: 0,
                illusion: illusion && how == Summon::Creation,
            };
            &&& r@.len() == 2
            &&& ok ==> final(state).arena.tiles@ == old(state).arena.tiles@.update(
                index_of(dx as int, dy as int),
                match how {
                    Summon::Creation => Tile { creation: Some(piece), ..t },
                    Summon::Fire => Tile { corpse: None, spawn: Some(Spawn::Fire(piece)), ..t },
                    Summon::Blob => Tile { spawn: Some(Spawn::Blob(piece)), ..t },
                },
            )
            &&& !ok ==> final(state).arena == old(state).arena && r@[1] == Event::SpellFails
        }),
{
    let is_illusion = illusion && how == Summon::Creation;
    let ok = is_illusion || spell.cast_with_roll(world_alignment, spell_ability, roll);
    let mut events: Vec<Event> = Vec::new();
    if ok {
        let mut piece = GameCreation::new(id, stats.duplicate());
        piece.illusion = is_illusion;
        let shown = piece.duplicate();
        match how {
            Summon::Creation => {
                events.push(Event::CreationSpell { id, x: dx, y: dy, creation: Some(shown) });
                state.arena.set_creation(dx, dy, Some(piece));
            },
            Summon::Fire => {
                events.push(Event::CastFire { id, x: dx, y: dy, fire: Some(shown) });
                state.arena.spawn_fire(dx, dy, piece);
            },
            Summon::Blob => {
                events.push(Event::CastBlob { id, x: dx, y: dy, blob: Some(shown) });
                state.arena.spawn_blob(dx, dy, piece);
            },
        }
        state.arena.adjust_alignment(spell.alignment);
        events.push(Event::SpellSucceeds { alignment: state.arena.alignment });
    } else {
        match how {
            Summon::Creation => events.push(Event::CreationSpell { id, x: dx, y: dy, creation: None }),
            Summon::Fire => events.push(Event::CastFire { id, x: dx, y: dy, fire: None }),
            Summon::Blob => events.push(Event::CastBlob { id, x: dx, y: dy, blob: None }),
        }
        events.push(Event::SpellFails);
    }
    events
}

/// What a bolt of the given combat value does to the piece at (dx, dy), with the
/// given throws: a creation dies without a corpse; a wizard dies with all its
/// pieces. A blob alone is left alone.
pub fn resolve_bolt(
    state: &mut ServerState,
    id: u32,
    dx: u8,
    dy: u8,
    combat: u8,
    lightning: bool,
    attack_roll: u8,
    defence_roll: u8,
) -> (r: ShotOutcome)
    requires
        old(state).wf(),
        on_board(dx as int, dy as int),
    ensures
        final(state).wf(),
        ({
            let t = old(state).arena.tile(dx as int, dy as int);
            let defence: Option<int> = match t.creation {
                Some(c) => Some(c.stats.base.defence as int),
                None => match t.wizard {
                    Some(w) => Some(defence_of(w.stats)),
                    None => None,
                },
            };
            &&& r.success == match defence {
                Some(d) => attack_beats(combat as int, d, attack_roll as int, defence_roll as int),
                None => false,
            }
            &&& (r.success && t.creation.is_some()) ==> final(state).arena.tiles@ == old(state).arena.tiles@.update(
                index_of(dx as int, dy as int),
                Tile { creation: None, ..t },
            )
            &&& (r.success && t.creation.is_none()) ==> forall|i: int|
                0 <= i < 150 ==> !has_wizard_of(#[trigger] final(state).arena.tiles@[i], t.wizard->0.id)
            &&& !r.success ==> final(state).arena == old(state).arena && final(state).wizards@ == old(state).wizards@
        }),
{
    let dst = state.arena.get(dx, dy);
    let mut events: Vec<Event> = Vec::new();
    let mut success = false;
    if dst.creation.is_some() {
        let defence = dst.creation.as_ref().unwrap().stats.base.defence;
        success = attack_succeeds(combat, defence, attack_roll, defence_roll);
        if success {
            state.arena.kill_creation(dx, dy, false);
        }
    } else if dst.wizard.is_some() {
        let defence = dst.wizard.as_ref().unwrap().stats.get_defence();
        success = attack_succeeds(combat, defence, attack_roll, defence_roll);
        if success {
            let victim = victim_exec(dst);
            kill_player(state, victim);
        }
    } else {
        return ShotOutcome { events, success: false };
    }
    if lightning {
        events.push(Event::Lightning { id, x: dx, y: dy, success });
    } else {
        events.push(Event::MagicBolt { id, x: dx, y: dy, success });
    }
    ShotOutcome { events, success }
}

/// One attempt of an area magical attack on (dx, dy), with the caster's spell
/// ability and the given throws against magical resistance: a creation dies
/// without a corpse; a wizard loses all its other pieces but lives.
pub fn resolve_magical_attack(
    state: &mut ServerState,
    id: u32,
    dx: u8,
    dy: u8,
    spell_ability: u8,
    attack_roll: u8,
    defence_roll: u8,
) -> (r: ShotOutcome)
    requires
        old(state).wf(),
        on_board(dx as int, dy as int),
    ensures
        final(state).wf(),
        final(state).wizards@ == old(state).wizards@,
        ({
            let t = old(state).arena.tile(dx as int, dy as int);
            let resistance: Option<int> = match t.creation {
                Some(c) => Some(c.stats.base.magical_resistance as int),
                None => match t.wizard {
                    Some(w) => Some(w.stats.base.magical_resistance as int),
                    None => None,
                },
            };
            &&& r.success == match resistance {
                Some(d) => attack_beats(spell_ability as int, d, attack_roll as int, defence_roll as int),
                None => false,
            }
            &&& (r.success && t.creation.is_some()) ==> final(state).arena.tiles@ == old(state).arena.tiles@.update(
                index_of(dx as int, dy as int),
                Tile { creation: None, ..t },
            )
            &&& (r.success && t.creation.is_none()) ==> forall|i: int|
                0 <= i < 150 ==> !owns_piece_on(#[trigger] final(state).arena.tiles@[i], t.wizard->0.id)
                    && final(state).arena.tiles@[i].wizard == old(state).arena.tiles@[i].wizard
            &&& !r.success ==> final(state).arena == old(state).arena
        }),
{
    let dst = state.arena.get(dx, dy);
    let mut events: Vec<Event> = Vec::new();
    let mut success = false;
    if dst.creation.is_some() {
        let resistance = dst.creation.as_ref().unwrap().stats.base.magical_resistance;
        success = attack_succeeds(spell_ability, resistance, attack_roll, defence_roll);
        if success {
            state.arena.kill_creation(dx, dy, false);
        }
    } else if dst.wizard.is_some() {
        let resistance = dst.wizard.as_ref().unwrap().stats.base.magical_resistance;
        success = attack_succeeds(spell_ability, resistance, attack_roll, defence_roll);
        if success {
            let victim = victim_exec(dst);
            state.arena.destroy_all_wizard_creations(victim);
        }
    } else {
        return ShotOutcome { events, success: false };
    }
    events.push(Event::MagicalAttack { id, x: dx, y: dy, success });
    ShotOutcome { events, success }
}

/// Subversion of the creation at (dx, dy) by `id`: it needs the cast throw, a real
/// creation, and a won throw against its magical resistance.
pub fn resolve_subversion(
    state: &mut ServerState,
    id: u32,
    spell: &Spell,
    dx: u8,
    dy: u8,
    world_alignment: i8,
    spell_ability: u8,
    cast_roll: u8,
    attack_roll: u8,
    defence_roll: u8,
) -> (r: Vec<Event>)
    requires
        old(state).wf(),
        on_board(dx as int, dy as int),
        old(state).arena.tile(dx as int, dy as int).creation.is_some(),
    ensures
        final(state).wf(),
        final(state).wizards@ == old(state).wizards@,
        ({
            let t = old(state).arena.tile(dx as int, dy as int);
            let c = t.creation->0;
            let ok = casts(cast_roll as int, *spell, world_alignment as int, spell_ability as int) && !c.illusion
                && attack_beats(spell_ability as int, c.stats.base.magical_resistance as int, attack_roll as int, defence_roll as int);
            &&& ok ==> final(state).arena.tiles@ == old(state).arena.tiles@.update(
                index_of(dx as int, dy as int),
                Tile { creation: Some(GameCreation { id, ..c }), ..t },
            )
            &&& !ok ==> final(state).arena == old(state).arena && r@ == seq![Event::SpellFails]
        }),
{
    let c = state.arena.get_creation(dx, dy);
    let ok = spell.cast_with_roll(world_alignment, spell_ability, cast_roll) && !c.illusion
        && attack_succeeds(spell_ability, c.stats.base.magical_resistance, attack_roll, defence_roll);
    let mut events: Vec<Event> = Vec::new();
    if ok {
        state.arena.adjust_alignment(spell.alignment);
        events.push(Event::SpellSucceeds { alignment: state.arena.alignment });
        events.push(Event::Subversion { id, x: dx, y: dy, success: true });
        state.arena.subvert(dx, dy, id);
    } else {
        events.push(Event::SpellFails);
        assert(events@ =~= seq![Event::SpellFails]);
    }
    events
}

/// Raise dead on the corpse at (dx, dy) by `id`: it needs the cast throw and a
/// won throw against the corpse's magical resistance; the corpse then rises as an
/// undead creation of the caster.
pub fn resolve_raise_dead(
    state: &mut ServerState,
    id: u32,
    spell: &Spell,
    dx: u8,
    dy: u8,
    world_alignment: i8,
    spell_ability: u8,
    cast_roll: u8,
    attack_roll: u8,
    defence_roll: u8,
) -> (r: Vec<Event>)
    requires
        old(state).wf(),
        on_board(dx as int, dy as int),
        old(state).arena.tile(dx as int, dy as int).corpse.is_some(),
    ensures
        final(state).wf(),
        final(state).wizards@ == old(state).wizards@,
        ({
            let t = old(state).arena.tile(dx as int, dy as int);
            let c = t.corpse->0;
            let ok = casts(cast_roll as int, *spell, world_alignment as int, spell_ability as int)
                && attack_beats(spell_ability as int, c.stats.base.magical_resistance as int, attack_roll as int, defence_roll as int);
            &&& r@.len() == 2
            &&& r@[0] == Event::RaiseDead { id, x: dx, y: dy, success: ok }
            &&& ok ==> final(state).arena.tile(dx as int, dy as int).creation == Some(
                GameCreation { id, stats: CreationStats { undead: true, ..c.stats }, ..c },
            ) && final(state).arena.tile(dx as int, dy as int).corpse.is_none()
            &&& !ok ==> final(state).arena == old(state).arena
        }),
{
    let c = state.arena.get_corpse(dx, dy);
    let ok = spell.cast_with_roll(world_alignment, spell_ability, cast_roll)
        && attack_succeeds(spell_ability, c.stats.base.magical_resistance, attack_roll, defence_roll);
    let mut events: Vec<Event> = Vec::new();
    if ok {
        events.push(Event::RaiseDead { id, x: dx, y: dy, success: true });
        state.arena.raise_dead(dx, dy, id);
        state.arena.adjust_alignment(spell.alignment);
        events.push(Event::SpellSucceeds { alignment: state.arena.alignment });
    } else {
        events.push(Event::RaiseDead { id, x: dx, y: dy, success: false });
        events.push(Event::SpellFails);
    }
    events
}

/// Whether moving onto (dx, dy) attacks a piece there, as `attack_target` says.
pub fn is_attack_target(arena: &Arena, id: u32, dx: u8, dy: u8) -> (r: bool)
    requires
        arena.wf(),
        on_board(dx as int, dy as int),
    ensures
        r == attack_target(arena.tile(dx as int, dy as int), id),
{
    let t = arena.get(dx, dy);
    match &t.spawn {
        Some(Spawn::Blob(b)) => b.id != id,
        Some(Spawn::Fire(_)) => false,
        None => match &t.creation {
            Some(c) => if c.stats.magic_wood {
                match &t.wizard {
                    Some(w) => w.id != id,
                    None => false,
                }
            } else {
                c.id != id
            },
            None => match &t.wizard {
                Some(w) => w.id != id,
                None => false,
            },
        },
    }
}

/// The cast throw of a bolt, lightning or magical attack: it fails outright, or
/// the spell goes on to its targets; lightning and magical attacks then shift the
/// world by the spell's alignment, a magic bolt does not.
pub fn cast_attack_spell(state: &mut ServerState, spell: &Spell, world_alignment: i8, spell_ability: u8, roll: u8) -> (r: (Vec<Event>, bool))
    requires
        old(state).wf(),
    ensures
        final(state).wf(),
        final(state).wizards@ == old(state).wizards@,
        final(state).arena.tiles@ == old(state).arena.tiles@,
        r.1 == casts(roll as int, *spell, world_alignment as int, spell_ability as int),
        !r.1 ==> final(state).arena == old(state).arena && r.0@ == seq![Event::SpellFails],
        (r.1 && spell.kind is MagicBolt) ==> final(state).arena == old(state).arena && r.0@.len() == 0,
        (r.1 && !(spell.kind is MagicBolt)) ==> r.0@ == seq![Event::SpellSucceeds { alignment: final(state).arena.alignment }],
{
    let mut events: Vec<Event> = Vec::new();
    if !spell.cast_with_roll(world_alignment, spell_ability, roll) {
        events.push(Event::SpellFails);
        assert(events@ =~= seq![Event::SpellFails]);
        return (events, false);
    }
    let bolt = match spell.kind {
        SpellKind::MagicBolt => true,
        _ => false,
    };
    if !bolt {
        state.arena.adjust_alignment(spell.alignment);
        events.push(Event::SpellSucceeds { alignment: state.arena.alignment });
        assert(events@ =~= seq![Event::SpellSucceeds { alignment: state.arena.alignment }]);
    }
    (events, true)
}

} // verus!
