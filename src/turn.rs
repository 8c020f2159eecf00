use crate::arena::{Spawn, Tile, has_wizard_of, index_of, on_board};
use crate::combat::{attack_beats, attack_succeeds};
use crate::creation::GameCreation;
use crate::rules::{Event, ServerState};
use crate::spells::{Spell, SpellKind, casts};
use crate::stats::{CreationStats, WizardStats};
use crate::wizard::{GameWizard, Wizard, active_count};
use vstd::prelude::*;

verus! {

/// Number of rounds a match lasts when no player wins earlier.
pub fn number_of_turns(players: usize) -> (r: usize)
    requires
        players <= 1000,
    ensures
        r == players * 2 + 15,
{
    players * 2 + 15
}

/// The count of rounds of a match.
pub struct Rounds {
    pub played: usize,
    pub total: usize,
}

impl Rounds {
    /// A match of `players` players: `players * 2 + 15` rounds to play.
    pub fn new(players: usize) -> (r: Rounds)
        requires
            players <= 1000,
        ensures
            r.played == 0,
            r.total == players * 2 + 15,
    {
        Rounds { played: 0, total: number_of_turns(players) }
    }

    /// Whether another round starts: none once a player has won or all rounds are
    /// played. A round that starts is counted.
    pub fn begin_round(&mut self, won: bool) -> (r: bool)
        requires
            old(self).played <= old(self).total,
        ensures
            r == (!won && old(self).played < old(self).total),
            final(self).total == old(self).total,
            final(self).played == (if r { old(self).played + 1 } else { old(self).played as int }),
            final(self).played <= final(self).total,
    {
        if won || self.played >= self.total {
            false
        } else {
            self.played = self.played + 1;
            true
        }
    }
}

/// The phases of a round, in order; `End` once the match is over.
#[derive(Clone, Copy, Debug, PartialEq, Eq, Structural)]
pub enum Phase {
    SelectSpells,
    ResolveSpells,
    Environment,
    Movement,
    End,
}

impl Rounds {
    /// The first phase of a match: the first round's spell selection, if any round
    /// is to be played.
    pub fn first_phase(&mut self) -> (r: Phase)
        requires
            old(self).played == 0,
        ensures
            final(self).total == old(self).total,
            r == (if old(self).total > 0 { Phase::SelectSpells } else { Phase::End }),
            final(self).played == (if old(self).total > 0 { 1nat } else { 0nat }),
    {
        if self.begin_round(false) {
            Phase::SelectSpells
        } else {
            Phase::End
        }
    }

    /// The phase after `phase`, given whether a single player is now left. A win
    /// ends the match at once; after the movement phase the next round starts only
    /// while rounds are left, and is counted.
    pub fn next_phase(&mut self, phase: Phase, won: bool) -> (r: Phase)
        requires
            old(self).played <= old(self).total,
        ensures
            final(self).total == old(self).total,
            final(self).played <= final(self).total,
            won ==> r == Phase::End && final(self).played == old(self).played,
            !won ==> r == match phase {
                Phase::SelectSpells => Phase::ResolveSpells,
                Phase::ResolveSpells => Phase::Environment,
                Phase::Environment => Phase::Movement,
                Phase::Movement => if old(self).played < old(self).total { Phase::SelectSpells } else { Phase::End },
                Phase::End => Phase::End,
            },
            r == Phase::SelectSpells <==> (!won && phase == Phase::Movement && old(self).played < old(self).total),
            (!won && r == Phase::End && phase != Phase::End) ==> final(self).played == final(self).total,
            final(self).played == (if r == Phase::SelectSpells { old(self).played + 1 } else { old(self).played as int }),
    {
        if won {
            return Phase::End;
        }
        match phase {
            Phase::SelectSpells => Phase::ResolveSpells,
            Phase::ResolveSpells => Phase::Environment,
            Phase::Environment => Phase::Movement,
            Phase::Movement => {
                if self.begin_round(false) {
                    Phase::SelectSpells
                } else {
                    Phase::End
                }
            },
            Phase::End => Phase::End,
        }
    }
}

/// How many of `n` calls of `begin_round` without a winner start a round, from
/// a count that stands at `played` of `total`: each call starts one exactly
/// while rounds are left.
pub open spec fn rounds_begun(played: nat, total: nat, n: nat) -> nat
    decreases n,
{
    if n == 0 {
        0
    } else if played < total {
        1 + rounds_begun(played + 1, total, (n - 1) as nat)
    } else {
        rounds_begun(played, total, (n - 1) as nat)
    }
}

/// Without a winner, a match of `players` players runs exactly `players * 2 + 15`
/// rounds: of any number of calls of `begin_round` on a fresh count, that many
/// start a round once the calls are enough, and never more.
pub proof fn lemma_round_count(players: nat, n: nat)
    ensures
        rounds_begun(0, players * 2 + 15, n) == if n < players * 2 + 15 { n } else { players * 2 + 15 },
{
    lemma_rounds_begun(0, players * 2 + 15, n);
}

proof fn lemma_rounds_begun(played: nat, total: nat, n: nat)
    requires
        played <= total,
    ensures
        rounds_begun(played, total, n) == if n < total - played { n } else { (total - played) as nat },
    decreases n,
{
    if n > 0 {
        if played < total {
            lemma_rounds_begun(played + 1, total, (n - 1) as nat);
        } else {
            lemma_rounds_begun(played, total, (n - 1) as nat);
        }
    }
}

/// Places each wizard of the roster on its starting tile; a roster of fewer than
/// two or more than eight is rejected and the board left as it was.
pub fn setup_board(state: &mut ServerState) -> (r: Result<Vec<Event>, crate::wizard::ArenaError>)
    requires
        old(state).wf(),
    ensures
        final(state).wf(),
        final(state).wizards@ == old(state).wizards@,
        r is Err ==> final(state).arena == old(state).arena,
        r is Ok ==> forall|i: int|
            0 <= i < old(state).wizards@.len() ==> ({
                let p = crate::wizard::starting_table(old(state).wizards@.len() as int)[i];
                final(state).arena.tile(p.0 as int, p.1 as int).wizard matches Some(w) && w.id == (
                #[trigger] old(state).wizards@[i]).id
            }),
{
    let positions = match state.wizards.starting_positions() {
        Ok(p) => p,
        Err(e) => {
            return Err(e);
        },
    };
    let ghost n = state.wizards@.len();
    let ghost table = crate::wizard::starting_table(n as int);
    assert(table.len() == n && forall|a: int, b: int| 0 <= a < b < n ==> table[a] != table[b]) by {
        assert(2 <= n <= 8);
    }
    assert(forall|i: int| 0 <= i < n ==> on_board(#[trigger] table[i].0 as int, table[i].1 as int)) by {
        assert(2 <= n <= 8);
    }
    let events: Vec<Event> = Vec::new();
    let mut i: usize = 0;
    while i < positions.len()
        invariant
            state.wf(),
            state.wizards@ == old(state).wizards@,
            n == state.wizards@.len(),
            table == crate::wizard::starting_table(n as int),
            table.len() == n,
            positions@.len() == n,
            forall|a: int, b: int| 0 <= a < b < n ==> table[a] != table[b],
            forall|k: int| 0 <= k < n ==> on_board(#[trigger] table[k].0 as int, table[k].1 as int),
            forall|k: int| 0 <= k < n ==> #[trigger] positions@[k] == (table[k].0, table[k].1, state.wizards@[k].id),
            i <= n,
            forall|k: int|
                0 <= k < i ==> ({
                    let p = table[k];
                    state.arena.tile(p.0 as int, p.1 as int).wizard matches Some(w) && w.id == (
                    #[trigger] state.wizards@[k]).id
                }),
        decreases n - i,
    {
        let (x, y, id) = positions[i];
        let w = match state.wizards.get(id) {
            Ok(w) => GameWizard::from_wizard(w),
            Err(_) => {
                proof {
                    assert(state.wizards@[i as int].id == id);
                }
                return Err(crate::wizard::ArenaError::InvalidNumPlayers);
            },
        };
        state.arena.set_wizard(x, y, Some(w));
        proof {
            assert forall|k: int| 0 <= k < i + 1 implies ({
                let p = table[k];
                state.arena.tile(p.0 as int, p.1 as int).wizard matches Some(w) && w.id == (
                #[trigger] state.wizards@[k]).id
            }) by {
                if k < i {
                    assert(table[k] != table[i as int]);
                    let p = table[k];
                    assert(index_of(p.0 as int, p.1 as int) != index_of(x as int, y as int));
                }
            }
        }
        i = i + 1;
    }
    Ok(events)
}

/// The flag a self-targeted spell sets on its caster's stats.
pub open spec fn has_effect(kind: SpellKind, s: WizardStats) -> bool {
    match kind {
        SpellKind::WizardAttackBuff(b) => s.attack_buff == Some(b),
        SpellKind::WizardDefenceBuff(b) => s.defence_buff == Some(b),
        SpellKind::MagicBow => s.magic_bow,
        SpellKind::MagicWings => s.magic_wings,
        SpellKind::ShadowForm => s.shadow_form,
        _ => true,
    }
}

/// A spell that `id` casts on itself or on the world: a weapon, armour, the bow,
/// wings, shadow form, or a shift of the world's alignment. It works when the
/// throw casts it; `sprites` are the caster's new frames for the equipment spells.
pub fn resolve_self_spell(
    state: &mut ServerState,
    id: u32,
    spell: &Spell,
    world_alignment: i8,
    spell_ability: u8,
    roll: u8,
    sprites: &[[u8; 32]; 4],
) -> (r: Vec<Event>)
    requires
        old(state).wf(),
        exists|j: int| 0 <= j < 150 && has_wizard_of(#[trigger] old(state).arena.tiles@[j], id),
    ensures
        final(state).wf(),
        final(state).wizards@ == old(state).wizards@,
        ({
            let ok = casts(roll as int, *spell, world_alignment as int, spell_ability as int);
            &&& !ok ==> final(state).arena == old(state).arena && r@ == seq![Event::SpellFails]
            &&& ok ==> exists|j: int|
                0 <= j < 150 && ((#[trigger] final(state).arena.tiles@[j]).wizard matches Some(w) && w.id == id
                    && has_effect(spell.kind, w.stats))
        }),
{
    let ok = spell.cast_with_roll(world_alignment, spell_ability, roll);
    let mut events: Vec<Event> = Vec::new();
    if !ok {
        events.push(Event::SpellFails);
        assert(events@ =~= seq![Event::SpellFails]);
        return events;
    }
    let (wx, wy) = state.arena.find_wizard_pos(id);
    let w = state.arena.get_mut_wizard(wx, wy);
    match &spell.kind {
        SpellKind::WizardAttackBuff(b) => {
            match b {
                crate::stats::AttackBuff::MagicKnife => w.stats.magic_knife(sprites),
                crate::stats::AttackBuff::MagicSword => w.stats.magic_sword(sprites),
            }
        },
        SpellKind::WizardDefenceBuff(b) => {
            match b {
                crate::stats::DefenceBuff::MagicShield => w.stats.magic_shield(&sprites[0]),
                crate::stats::DefenceBuff::MagicArmour => w.stats.magic_armour(&sprites[0]),
            }
        },
        SpellKind::MagicBow => w.stats.magic_bow(sprites),
        SpellKind::MagicWings => w.stats.magic_wings(sprites),
        SpellKind::ShadowForm => {
            w.stats.shadow_form = true;
        },
        _ => {},
    }
    let is_buff = match &spell.kind {
        SpellKind::WorldAlignment => false,
        _ => true,
    };
    if is_buff {
        let stats = w.stats.duplicate();
        events.push(Event::BuffWizard { id, stats });
    }
    state.arena.adjust_alignment(spell.alignment);
    events.push(Event::SpellSucceeds { alignment: state.arena.alignment });
    assert(has_effect(spell.kind, state.arena.tiles@[index_of(wx as int, wy as int)].wizard->0.stats));
    events
}

/// How far an area summoning (walls and woods) has got: whether its one throw
/// already succeeded, and how many pieces are placed.
#[derive(Clone, Copy, Debug, PartialEq, Eq, Structural)]
pub struct Placement {
    pub cast: bool,
    pub count: u8,
}

/// The result of placing one piece of an area summoning.
pub struct PlacementStep {
    pub events: Vec<Event>,
    /// Where the summoning stands afterwards; none once it is over.
    pub next: Option<Placement>,
}

/// Places one piece of a wall or wood on the empty tile (dx, dy). Only the first
/// piece needs the throw; if it fails the spell is over. A piece of shadow wood
/// may not stand next to shadow wood: the tile is refused and the caster picks
/// again. The summoning ends after `limit` pieces.
pub fn place_step(
    state: &mut ServerState,
    id: u32,
    spell: &Spell,
    stats: &CreationStats,
    dx: u8,
    dy: u8,
    world_alignment: i8,
    spell_ability: u8,
    roll: u8,
    placement: Placement,
    limit: u8,
) -> (r: PlacementStep)
    requires
        old(state).wf(),
        on_board(dx as int, dy as int),
        placement.count < limit,
    ensures
        final(state).wf(),
        final(state).wizards@ == old(state).wizards@,
        ({
            let refused = stats.shadow_wood && old(state).arena.tiles_where(
                crate::arena::Area::Spell(3), dx, dy, crate::arena::Query::ShadowWood, 0).len() > 0;
            let ok = placement.cast || casts(roll as int, *spell, world_alignment as int, spell_ability as int);
            let t = old(state).arena.tile(dx as int, dy as int);
            let piece = GameCreation { id, moves_left: 0, stats: *stats, frame_count: 0, current_frame: 0, illusion: false };
            &&& refused ==> final(state).arena == old(state).arena && r.next == Some(placement)
            &&& (!refused && !ok) ==> final(state).arena == old(state).arena && r.next.is_none()
            &&& (!refused && ok) ==> final(state).arena.tiles@ == old(state).arena.tiles@.update(
                index_of(dx as int, dy as int),
                Tile { creation: Some(piece), ..t },
            ) && r.next == (if placement.count + 1 >= limit { None } else { Some(Placement { cast: true, count: (placement.count + 1) as u8 }) })
        }),
{
    let mut events: Vec<Event> = Vec::new();
    if stats.shadow_wood && state.arena.is_next_to_shadow_wood(dx, dy) {
        events.push(Event::ShadowWoodInfo { id });
        return PlacementStep { events, next: Some(placement) };
    }
    if !placement.cast && !spell.cast_with_roll(world_alignment, spell_ability, roll) {
        events.push(Event::CreationSpell { id, x: dx, y: dy, creation: None });
        events.push(Event::SpellFails);
        return PlacementStep { events, next: None };
    }
    let piece = GameCreation::new(id, stats.duplicate());
    events.push(Event::CreationSpell { id, x: dx, y: dy, creation: Some(piece.duplicate()) });
    state.arena.set_creation(dx, dy, Some(piece));
    if !placement.cast {
        state.arena.adjust_alignment(spell.alignment);
        events.push(Event::SpellSucceeds { alignment: state.arena.alignment });
    }
    let count = placement.count + 1;
    if count >= limit {
        PlacementStep { events, next: None }
    } else {
        PlacementStep { events, next: Some(Placement { cast: true, count }) }
    }
}

/// The neighbour a spawn spreads to for a throw of 2 to 9: north, then round
/// clockwise to north-west; none off the board or for another throw.
pub open spec fn spread_target_spec(x: int, y: int, roll: int) -> Option<(int, int)> {
    let (tx, ty) = if roll == 2 {
        (x, y - 1)
    } else if roll == 3 {
        (x + 1, y - 1)
    } else if roll == 4 {
        (x + 1, y)
    } else if roll == 5 {
        (x + 1, y + 1)
    } else if roll == 6 {
        (x, y + 1)
    } else if roll == 7 {
        (x - 1, y + 1)
    } else if roll == 8 {
        (x - 1, y)
    } else {
        (x - 1, y - 1)
    };
    if 2 <= roll <= 9 && on_board(tx, ty) { Some((tx, ty)) } else { None }
}

pub fn spread_target(x: u8, y: u8, roll: u8) -> (r: Option<(u8, u8)>)
    requires
        on_board(x as int, y as int),
    ensures
        match r {
            Some((tx, ty)) => spread_target_spec(x as int, y as int, roll as int) == Some((tx as int, ty as int)),
            None => spread_target_spec(x as int, y as int, roll as int).is_none(),
        },
{
    let (tx, ty): (i16, i16) = if roll == 2 {
        (x as i16, y as i16 - 1)
    } else if roll == 3 {
        (x as i16 + 1, y as i16 - 1)
    } else if roll == 4 {
        (x as i16 + 1, y as i16)
    } else if roll == 5 {
        (x as i16 + 1, y as i16 + 1)
    } else if roll == 6 {
        (x as i16, y as i16 + 1)
    } else if roll == 7 {
        (x as i16 - 1, y as i16 + 1)
    } else if roll == 8 {
        (x as i16 - 1, y as i16)
    } else {
        (x as i16 - 1, y as i16 - 1)
    };
    if 2 <= roll && roll <= 9 && 0 <= tx && tx < 15 && 0 <= ty && ty < 10 {
        Some((tx as u8, ty as u8))
    } else {
        None
    }
}

/// The result of a spawn's turn.
pub struct SpreadOutcome {
    pub events: Vec<Event>,
    /// Whether a wizard it killed left a single player standing.
    pub game_over: bool,
}

/// Each piece of the tile either stayed or was taken away; nothing was added.
pub open spec fn removed_only(before: Tile, after: Tile) -> bool {
    &&& (after.spawn == before.spawn || after.spawn.is_none())
    &&& (after.creation == before.creation || after.creation.is_none())
    &&& (after.wizard == before.wizard || after.wizard.is_none())
    &&& (after.corpse == before.corpse || after.corpse.is_none())
}

/// The position `j` is a tile next to (x, y), or (x, y) itself.
pub open spec fn near(x: int, y: int, j: int) -> bool {
    crate::arena::dist2(x, y, crate::arena::coord_of(j).0 as int, crate::arena::coord_of(j).1 as int) <= 2
}

/// A wizard at (x, y) that an attack of combat 5 killed, with all its pieces, and
/// whether that left one player standing.
pub open spec fn wizard_burned(before: ServerState, after: ServerState, w: GameWizard, x: u8, y: u8, spawn: Spawn, over: bool) -> bool {
    &&& after.arena.tile(x as int, y as int).spawn == Some(spawn)
    &&& forall|j: int| 0 <= j < 150 ==> !has_wizard_of(#[trigger] after.arena.tiles@[j], w.id)
    &&& over == (active_count(after.wizards@) == 1)
}

/// What fire owned by `fire.id` does when it spreads to (x, y), with the given throws.
pub open spec fn fire_result(before: ServerState, after: ServerState, fire: GameCreation, x: u8, y: u8, attack_roll: u8, defence_roll: u8, over: bool) -> bool {
    let t = before.arena.tile(x as int, y as int);
    let i = index_of(x as int, y as int);
    let burning = Tile { corpse: None, spawn: Some(Spawn::Fire(fire)), ..t };
    match t.creation {
        Some(c) => if c.id != fire.id && c.stats.attackable && attack_beats(5, c.stats.base.defence as int, attack_roll as int, defence_roll as int) {
            after.arena.tiles@ == before.arena.tiles@.update(
                i,
                if t.wizard.is_none() { Tile { creation: None, ..burning } } else { Tile { creation: None, ..t } },
            ) && !over && after.wizards@ == before.wizards@
        } else {
            after.arena == before.arena && !over && after.wizards@ == before.wizards@
        },
        None => match t.wizard {
            Some(w) => if w.id != fire.id && attack_beats(5, crate::stats::defence_of(w.stats), attack_roll as int, defence_roll as int) {
                wizard_burned(before, after, w, x, y, Spawn::Fire(fire), over)
            } else {
                after.arena == before.arena && !over && after.wizards@ == before.wizards@
            },
            None => after.arena.tiles@ == before.arena.tiles@.update(i, burning) && !over && after.wizards@ == before.wizards@,
        },
    }
}

/// What a blob owned by `blob.id` does when it spreads to (x, y), with the given throws.
pub open spec fn blob_result(before: ServerState, after: ServerState, blob: GameCreation, x: u8, y: u8, attack_roll: u8, defence_roll: u8, over: bool) -> bool {
    let t = before.arena.tile(x as int, y as int);
    let i = index_of(x as int, y as int);
    let covered = Tile { spawn: Some(Spawn::Blob(blob)), ..t };
    match t.creation {
        Some(c) => if c.id != blob.id {
            after.arena.tiles@ == before.arena.tiles@.update(i, covered) && !over && after.wizards@ == before.wizards@
        } else {
            after.arena == before.arena && !over && after.wizards@ == before.wizards@
        },
        None => match t.wizard {
            Some(w) => if w.id != blob.id && attack_beats(5, crate::stats::defence_of(w.stats), attack_roll as int, defence_roll as int) {
                wizard_burned(before, after, w, x, y, Spawn::Blob(blob), over)
            } else {
                after.arena == before.arena && !over && after.wizards@ == before.wizards@
            },
            None => after.arena.tiles@ == before.arena.tiles@.update(i, covered) && !over && after.wizards@ == before.wizards@,
        },
    }
}

/// The fire owned by `fire.id` spreads to (x, y): an enemy attackable creation
/// there must beat combat 5 or burn without a corpse, after which the fire takes
/// the tile unless a wizard stands there; an enemy wizard must beat it or die with
/// all its pieces; a tile with neither catches fire.
pub fn fire_attack(fire: &GameCreation, state: &mut ServerState, x: u8, y: u8, attack_roll: u8, defence_roll: u8) -> (r: SpreadOutcome)
    requires
        old(state).wf(),
        on_board(x as int, y as int),
    ensures
        final(state).wf(),
        final(state).wizards@.len() == old(state).wizards@.len(),
        final(state).arena.alignment == old(state).arena.alignment,
        fire_result(*old(state), *final(state), *fire, x, y, attack_roll, defence_roll, r.game_over),
        forall|j: int|
            0 <= j < 150 && j != index_of(x as int, y as int) ==> removed_only(old(state).arena.tiles@[j], #[trigger] final(state).arena.tiles@[j]),
{
    let tile = state.arena.get(x, y);
    let mut events: Vec<Event> = Vec::new();
    if tile.creation.is_some() {
        let c = tile.creation.as_ref().unwrap();
        if c.id != fire.id && c.stats.attackable {
            if attack_succeeds(5, c.stats.base.defence, attack_roll, defence_roll) {
                let wizard_there = tile.wizard.is_some();
                let ghost t = *tile;
                let ghost i = index_of(x as int, y as int);
                state.arena.kill_creation(x, y, false);
                if !wizard_there {
                    events.push(Event::SpawnFire { x, y, fire: Some(fire.duplicate()) });
                    state.arena.spawn_fire(x, y, fire.duplicate());
                    assert(state.arena.tiles@ =~= old(state).arena.tiles@.update(
                        i,
                        Tile { creation: None, corpse: None, spawn: Some(Spawn::Fire(*fire)), ..t },
                    ));
                }
            } else {
                events.push(Event::SpawnFire { x, y, fire: None });
            }
        }
        return SpreadOutcome { events, game_over: false };
    }
    if tile.wizard.is_some() {
        let w = tile.wizard.as_ref().unwrap();
        if w.id != fire.id {
            if attack_succeeds(5, w.stats.get_defence(), attack_roll, defence_roll) {
                let victim = w.id;
                state.arena.kill_wizard_and_creations(victim);
                let _ = state.wizards.set_dead(victim);
                events.push(Event::SpawnFire { x, y, fire: Some(fire.duplicate()) });
                state.arena.spawn_fire(x, y, fire.duplicate());
                let over = state.wizards.check_for_winning_condition();
                return SpreadOutcome { events, game_over: over };
            } else {
                events.push(Event::SpawnFire { x, y, fire: None });
            }
        }
        return SpreadOutcome { events, game_over: false };
    }
    events.push(Event::SpawnFire { x, y, fire: Some(fire.duplicate()) });
    state.arena.spawn_fire(x, y, fire.duplicate());
    SpreadOutcome { events, game_over: false }
}

/// The blob owned by `blob.id` spreads to (x, y): it covers any enemy creation;
/// an enemy wizard must beat combat 5 or die with all its pieces; an empty tile is
/// covered.
pub fn blob_mutate(blob: &GameCreation, state: &mut ServerState, x: u8, y: u8, attack_roll: u8, defence_roll: u8) -> (r: SpreadOutcome)
    requires
        old(state).wf(),
        on_board(x as int, y as int),
    ensures
        final(state).wf(),
        final(state).wizards@.len() == old(state).wizards@.len(),
        final(state).arena.alignment == old(state).arena.alignment,
        blob_result(*old(state), *final(state), *blob, x, y, attack_roll, defence_roll, r.game_over),
        forall|j: int|
            0 <= j < 150 && j != index_of(x as int, y as int) ==> removed_only(old(state).arena.tiles@[j], #[trigger] final(state).arena.tiles@[j]),
{
    let tile = state.arena.get(x, y);
    let mut events: Vec<Event> = Vec::new();
    if tile.creation.is_some() {
        if tile.creation.as_ref().unwrap().id != blob.id {
            events.push(Event::SpawnBlob { x, y, blob: Some(blob.duplicate()) });
            state.arena.spawn_blob(x, y, blob.duplicate());
        }
        return SpreadOutcome { events, game_over: false };
    }
    if tile.wizard.is_some() {
        let w = tile.wizard.as_ref().unwrap();
        if w.id != blob.id {
            if attack_succeeds(5, w.stats.get_defence(), attack_roll, defence_roll) {
                let victim = w.id;
                state.arena.kill_wizard_and_creations(victim);
                let _ = state.wizards.set_dead(victim);
                events.push(Event::SpawnBlob { x, y, blob: Some(blob.duplicate()) });
                state.arena.spawn_blob(x, y, blob.duplicate());
                let over = state.wizards.check_for_winning_condition();
                return SpreadOutcome { events, game_over: over };
            } else {
                events.push(Event::SpawnFire { x, y, fire: None });
            }
        }
        return SpreadOutcome { events, game_over: false };
    }
    events.push(Event::SpawnBlob { x, y, blob: Some(blob.duplicate()) });
    state.arena.spawn_blob(x, y, blob.duplicate());
    SpreadOutcome { events, game_over: false }
}

/// The turn of the spawn at (x, y) for a throw of the die: 0 or 1 puts it out;
/// 2 to 9 spreads it to a neighbour that holds no spawn.
pub fn spread_spawn(state: &mut ServerState, x: u8, y: u8, roll: u8, attack_roll: u8, defence_roll: u8) -> (r: SpreadOutcome)
    requires
        old(state).wf(),
        on_board(x as int, y as int),
        old(state).arena.tile(x as int, y as int).spawn.is_some(),
    ensures
        final(state).wf(),
        final(state).wizards@.len() == old(state).wizards@.len(),
        roll <= 1 ==> final(state).arena.tiles@ == old(state).arena.tiles@.update(
            index_of(x as int, y as int),
            Tile { spawn: None, ..old(state).arena.tile(x as int, y as int) },
        ) && !r.game_over,
        (roll > 1 && (spread_target_spec(x as int, y as int, roll as int) matches None)) ==> final(state).arena == old(state).arena
            && final(state).wizards@ == old(state).wizards@ && !r.game_over,
        roll > 1 ==> match spread_target_spec(x as int, y as int, roll as int) {
            Some((tx, ty)) => if old(state).arena.tile(tx, ty).spawn.is_some() {
                final(state).arena == old(state).arena && final(state).wizards@ == old(state).wizards@ && !r.game_over
            } else {
                match old(state).arena.tile(x as int, y as int).spawn->0 {
                    Spawn::Fire(f) => fire_result(*old(state), *final(state), f, tx as u8, ty as u8, attack_roll, defence_roll, r.game_over),
                    Spawn::Blob(b) => blob_result(*old(state), *final(state), b, tx as u8, ty as u8, attack_roll, defence_roll, r.game_over),
                }
            },
            None => true,
        },
        final(state).arena.alignment == old(state).arena.alignment,
        forall|j: int| 0 <= j < 150 && !near(x as int, y as int, j) ==> removed_only(old(state).arena.tiles@[j], #[trigger] final(state).arena.tiles@[j]),
{
    let mut events: Vec<Event> = Vec::new();
    if roll <= 1 {
        events.push(Event::RemoveSpawn { x, y });
        proof {
            crate::arena::lemma_tile_index(x as int, y as int, x as int, y as int);
        }
        state.arena.remove_spawn(x, y);
        return SpreadOutcome { events, game_over: false };
    }
    proof {
        crate::arena::lemma_tile_index(x as int, y as int, x as int, y as int);
    }
    match spread_target(x, y, roll) {
        Some((tx, ty)) => {
            proof {
                crate::arena::lemma_tile_index(tx as int, ty as int, tx as int, ty as int);
                let ddx = tx as int - x as int;
                let ddy = ty as int - y as int;
                assert(-1 <= ddx <= 1 && -1 <= ddy <= 1);
                assert(ddx * ddx + ddy * ddy <= 2) by (nonlinear_arith)
                    requires
                        -1 <= ddx <= 1,
                        -1 <= ddy <= 1,
                ;
                assert(near(x as int, y as int, index_of(tx as int, ty as int)));
            }
            if state.arena.get(tx, ty).spawn.is_some() {
                return SpreadOutcome { events, game_over: false };
            }
            let spawn = state.arena.get(x, y).spawn.as_ref().unwrap();
            let body = spawn.body().duplicate();
            match spawn {
                Spawn::Fire(_) => fire_attack(&body, state, tx, ty, attack_roll, defence_roll),
                Spawn::Blob(_) => blob_mutate(&body, state, tx, ty, attack_roll, defence_roll),
            }
        },
        None => SpreadOutcome { events, game_over: false },
    }
}

/// A combustible shelter at (x, y) burns away for a throw of 9: one chance in ten.
pub fn shelter_tick(state: &mut ServerState, x: u8, y: u8, roll: u8) -> (r: Vec<Event>)
    requires
        old(state).wf(),
        on_board(x as int, y as int),
    ensures
        final(state).wf(),
        final(state).wizards@ == old(state).wizards@,
        final(state).arena.alignment == old(state).arena.alignment,
        roll >= 9 ==> final(state).arena.tiles@ == old(state).arena.tiles@.update(
            index_of(x as int, y as int),
            Tile { creation: None, ..old(state).arena.tile(x as int, y as int) },
        ) && r@ == seq![Event::ShelterDisappears { x, y }],
        roll < 9 ==> final(state).arena == old(state).arena && r@.len() == 0,
{
    let mut events: Vec<Event> = Vec::new();
    if roll >= 9 {
        events.push(Event::ShelterDisappears { x, y });
        state.arena.kill_creation(x, y, false);
        assert(events@ =~= seq![Event::ShelterDisappears { x, y }]);
    }
    events
}

/// A wizard sheltering in magic wood at (x, y) finds a new spell for a throw of 9
/// (one chance in ten), unless its hand already holds twenty: the spell joins its
/// hand, it counts one spell more on the board, and the tree is used up.
pub fn magic_wood_tick(state: &mut ServerState, x: u8, y: u8, roll: u8, found: Spell) -> (r: Vec<Event>)
    requires
        old(state).wf(),
        on_board(x as int, y as int),
        old(state).arena.tile(x as int, y as int).wizard.is_some(),
    ensures
        final(state).wf(),
        final(state).arena.alignment == old(state).arena.alignment,
        roll < 9 ==> r@.len() == 0,
        r@.len() == 0 ==> final(state).arena == old(state).arena && final(state).wizards@ == old(state).wizards@,
        ({
            let t = old(state).arena.tile(x as int, y as int);
            let id = t.wizard->0.id;
            let room = exists|j: int|
                0 <= j < old(state).wizards@.len() && #[trigger] old(state).wizards@[j].id == id
                    && old(state).wizards@[j].spells@.len() < 20;
            &&& (roll >= 9 && room) ==> r@.len() == 3
            &&& r@.len() > 0 ==> {
                &&& exists|j: int|
                    0 <= j < old(state).wizards@.len() && old(state).wizards@[j].id == id
                        && old(state).wizards@[j].spells@.len() < 20 && final(state).wizards@ == old(state).wizards@.update(
                        j,
                        Wizard { spells: final(state).wizards@[j].spells, ..old(state).wizards@[j] },
                    ) && final(state).wizards@[j].spells@ == old(state).wizards@[j].spells@.push(found)
                &&& final(state).arena.tile(x as int, y as int).creation.is_none()
                &&& final(state).arena.tile(x as int, y as int).spawn == t.spawn
                &&& final(state).arena.tile(x as int, y as int).corpse == t.corpse
                &&& final(state).arena.tile(x as int, y as int).wizard matches Some(w) && w.id == id
                &&& forall|j: int| 0 <= j < 150 && j != index_of(x as int, y as int) ==> #[trigger] final(state).arena.tiles@[j]
                    == old(state).arena.tiles@[j]
            }
        }),
{
    let mut events: Vec<Event> = Vec::new();
    if roll < 9 {
        return events;
    }
    let id = state.arena.get_wizard(x, y).id;
    let held = match state.wizards.hand_size(id) {
        Some(n) => n,
        None => {
            return events;
        },
    };
    if held >= 20 {
        proof {
            assert forall|j: int| 0 <= j < old(state).wizards@.len() && old(state).wizards@[j].id == id implies old(state).wizards@[j].spells@.len() >= 20 by {
                let i = choose|i: int| 0 <= i < state.wizards@.len() && state.wizards@[i].id == id && held == state.wizards@[i].spells@.len();
                if j < i {
                    assert(state.wizards@[j].id < state.wizards@[i].id);
                } else if j > i {
                    assert(state.wizards@[i].id < state.wizards@[j].id);
                }
            }
        }
        return events;
    }
    let shown = found.duplicate();
    let given = state.wizards.give_spell(id, found);
    proof {
        assert(given);
        let i = choose|i: int| 0 <= i < old(state).wizards@.len() && old(state).wizards@[i].id == id && held == old(state).wizards@[i].spells@.len();
        let j = choose|j: int| 0 <= j < old(state).wizards@.len() && old(state).wizards@[j].id == id && state.wizards@ == old(state).wizards@.update(j, Wizard { spells: state.wizards@[j].spells, ..old(state).wizards@[j] }) && state.wizards@[j].spells@ == old(state).wizards@[j].spells@.push(found);
        if j < i {
            assert(old(state).wizards@[j].id < old(state).wizards@[i].id);
        } else if j > i {
            assert(old(state).wizards@[i].id < old(state).wizards@[j].id);
        }
    }
    let stats = {
        let w = state.arena.get_mut_wizard(x, y);
        if w.stats.number_of_spells < 255 {
            w.stats.number_of_spells = w.stats.number_of_spells + 1;
        }
        w.stats.duplicate()
    };
    events.push(Event::DeBuffWizard { id, stats });
    events.push(Event::SendSpell { id, spell: shown });
    events.push(Event::NewSpell { id, x, y });
    state.arena.set_creation(x, y, None);
    events
}

/// The tile at position `j` is as it was, or was empty, lies within `range` of
/// (x, y), and now holds the tree.
pub open spec fn planted_or_kept(before: Tile, after: Tile, x: u8, y: u8, range: u8, j: int, tree: GameCreation) -> bool {
    after == before || (crate::arena::in_area(
        crate::arena::Area::Spell(range),
        x as int,
        y as int,
        crate::arena::coord_of(j).0 as int,
        crate::arena::coord_of(j).1 as int,
    ) && crate::arena::is_empty_tile(before) && after == Tile { creation: Some(tree), ..before })
}

/// Some empty tile within `range` of (x, y) is in sight from there.
pub open spec fn wood_target_exists(a: crate::arena::Arena, x: u8, y: u8, range: u8) -> bool {
    exists|j: int|
        0 <= j < 150 && crate::arena::in_area(
            crate::arena::Area::Spell(range),
            x as int,
            y as int,
            crate::arena::coord_of(j).0 as int,
            crate::arena::coord_of(j).1 as int,
        ) && crate::arena::is_empty_tile(#[trigger] a.tiles@[j]) && a.in_sight(x, y, crate::arena::coord_of(j).0, crate::arena::coord_of(j).1)
}

/// Magic wood cast by `id`: the caster does not pick the tiles. The empty tiles
/// in range are taken in a random order, and a tree is planted on each one in
/// sight, up to eight; the first needs the throw, and a failed throw ends the
/// spell. Rounds of planting go on while trees can still be planted.
pub fn cast_magic_wood(
    state: &mut ServerState,
    id: u32,
    spell: &Spell,
    stats: &CreationStats,
    world_alignment: i8,
    spell_ability: u8,
    roll: u8,
) -> (r: Vec<Event>)
    requires
        old(state).wf(),
        exists|j: int| 0 <= j < 150 && has_wizard_of(#[trigger] old(state).arena.tiles@[j], id),
    ensures
        final(state).wf(),
        final(state).wizards@ == old(state).wizards@,
        !casts(roll as int, *spell, world_alignment as int, spell_ability as int) ==> final(state).arena == old(
            state,
        ).arena,
        ({
            let c = crate::arena::coord_of(crate::session::first_wizard_index(old(state).arena, id));
            let tree = GameCreation { id, moves_left: 0, stats: *stats, frame_count: 0, current_frame: 0, illusion: false };
            &&& forall|j: int| 0 <= j < 150 ==> planted_or_kept(old(state).arena.tiles@[j], #[trigger] final(state).arena.tiles@[j], c.0, c.1, spell.range, j, tree)
            &&& (casts(roll as int, *spell, world_alignment as int, spell_ability as int) && !stats.shadow_wood
                && wood_target_exists(old(state).arena, c.0, c.1, spell.range)) ==> exists|j: int|
                0 <= j < 150 && (#[trigger] final(state).arena.tiles@[j]).creation == Some(tree)
                    && old(state).arena.tiles@[j].creation.is_none()
        }),
{
    let (sx, sy) = state.arena.find_wizard_pos(id);
    proof {
        crate::session::lemma_first_wizard(state.arena, id, index_of(sx as int, sy as int));
        crate::arena::lemma_tile_index(sx as int, sy as int, sx as int, sy as int);
        assert(crate::arena::coord_of(crate::session::first_wizard_index(old(state).arena, id)) == (sx, sy));
    }
    let ghost tree = GameCreation { id, moves_left: 0, stats: *stats, frame_count: 0, current_frame: 0, illusion: false };
    let mut placement = Placement { cast: false, count: 0 };
    let mut events: Vec<Event> = Vec::new();
    loop
        invariant
            state.wf(),
            state.wizards@ == old(state).wizards@,
            on_board(sx as int, sy as int),
            crate::arena::coord_of(crate::session::first_wizard_index(old(state).arena, id)) == (sx, sy),
            tree == (GameCreation { id, moves_left: 0, stats: *stats, frame_count: 0, current_frame: 0, illusion: false }),
            placement.count < 8,
            !casts(roll as int, *spell, world_alignment as int, spell_ability as int) ==> state.arena == old(state).arena
                && !placement.cast,
            forall|j: int| 0 <= j < 150 ==> planted_or_kept(old(state).arena.tiles@[j], #[trigger] state.arena.tiles@[j], sx, sy, spell.range, j, tree),
            placement.count == 0 ==> state.arena == old(state).arena,
            placement.count > 0 ==> exists|j: int|
                0 <= j < 150 && (#[trigger] state.arena.tiles@[j]).creation == Some(tree) && old(state).arena.tiles@[j].creation.is_none(),
        decreases 8 - placement.count,
    {
        let tiles = state.arena.creation_spell_tiles(sx, sy, spell.range);
        if tiles.len() == 0 {
            events.push(Event::NoPossibleMoves { id });
            proof {
                if placement.count == 0 && wood_target_exists(old(state).arena, sx, sy, spell.range) {
                    let j = choose|j: int| 0 <= j < 150 && crate::arena::in_area(
                        crate::arena::Area::Spell(spell.range),
                        sx as int,
                        sy as int,
                        crate::arena::coord_of(j).0 as int,
                        crate::arena::coord_of(j).1 as int,
                    ) && crate::arena::is_empty_tile(#[trigger] old(state).arena.tiles@[j]) && old(state).arena.in_sight(sx, sy, crate::arena::coord_of(j).0, crate::arena::coord_of(j).1);
                    crate::movement::lemma_select_complete(&state.arena, crate::arena::Area::Spell(spell.range), sx, sy, crate::arena::Query::Empty, 0, 150, j);
                }
            }
            return events;
        }
        proof {
            crate::movement::lemma_selected_on_board(&state.arena, crate::arena::Area::Spell(spell.range), sx, sy, crate::arena::Query::Empty, 0);
        }
        let ghost listed = tiles@;
        let ghost pass_start = state.arena;
        let tiles = crate::dice::shuffled(tiles);
        proof {
            listed.to_multiset_ensures();
            tiles@.to_multiset_ensures();
        }
        let start = placement.count;
        let mut k: usize = 0;
        while k < tiles.len()
            invariant
                state.wf(),
                state.wizards@ == old(state).wizards@,
                on_board(sx as int, sy as int),
                crate::arena::coord_of(crate::session::first_wizard_index(old(state).arena, id)) == (sx, sy),
                tree == (GameCreation { id, moves_left: 0, stats: *stats, frame_count: 0, current_frame: 0, illusion: false }),
                placement.count < 8,
                start <= placement.count,
                k <= tiles@.len(),
                !casts(roll as int, *spell, world_alignment as int, spell_ability as int) ==> state.arena == old(
                    state,
                ).arena && !placement.cast,
                tiles@.to_multiset() == listed.to_multiset(),
                forall|a: (u8, u8)| tiles@.contains(a) <==> #[trigger] tiles@.to_multiset().count(a) > 0,
                forall|a: (u8, u8)| listed.contains(a) <==> #[trigger] listed.to_multiset().count(a) > 0,
                forall|m: int| 0 <= m < listed.len() ==> crate::arena::is_empty_tile(pass_start.tile(#[trigger] listed[m].0 as int, listed[m].1 as int))
                    && crate::arena::in_area(crate::arena::Area::Spell(spell.range), sx as int, sy as int, listed[m].0 as int, listed[m].1 as int)
                    && on_board(listed[m].0 as int, listed[m].1 as int),
                forall|j: int| 0 <= j < 150 ==> planted_or_kept(old(state).arena.tiles@[j], #[trigger] pass_start.tiles@[j], sx, sy, spell.range, j, tree),
                forall|j: int| 0 <= j < 150 ==> planted_or_kept(old(state).arena.tiles@[j], #[trigger] state.arena.tiles@[j], sx, sy, spell.range, j, tree),
                placement.count == 0 ==> state.arena == old(state).arena,
                start == 0 ==> pass_start == old(state).arena,
                listed == pass_start.tiles_where(crate::arena::Area::Spell(spell.range), sx, sy, crate::arena::Query::Empty, 0),
                placement.count > 0 ==> exists|j: int|
                    0 <= j < 150 && (#[trigger] state.arena.tiles@[j]).creation == Some(tree) && old(state).arena.tiles@[j].creation.is_none(),
                (placement.count == 0 && !stats.shadow_wood && casts(roll as int, *spell, world_alignment as int, spell_ability as int))
                    ==> forall|m: int| 0 <= m < k ==> !(on_board(#[trigger] tiles@[m].0 as int, tiles@[m].1 as int)
                    && old(state).arena.in_sight(sx, sy, tiles@[m].0, tiles@[m].1)),
            decreases tiles@.len() - k,
        {
            let (dx, dy) = tiles[k];
            proof {
                assert(tiles@[k as int] == (dx, dy));
                assert(tiles@.contains((dx, dy)));
                assert(tiles@.to_multiset().count((dx, dy)) > 0);
                assert(listed.to_multiset().count((dx, dy)) > 0);
                assert(listed.contains((dx, dy)));
            }
            let ghost m = choose|m: int| 0 <= m < listed.len() && listed[m] == (dx, dy);
            let ghost before = state.arena;
            if state.arena.contains(dx, dy) && state.arena.line_of_sight(sx, sy, dx, dy) {
                let mut step = place_step(
                    state,
                    id,
                    spell,
                    stats,
                    dx,
                    dy,
                    world_alignment,
                    spell_ability,
                    roll,
                    placement,
                    8,
                );
                events.append(&mut step.events);
                proof {
                    let d = index_of(dx as int, dy as int);
                    crate::arena::lemma_tile_index(dx as int, dy as int, dx as int, dy as int);
                    assert(listed[m] == (dx, dy));
                    assert(crate::arena::is_empty_tile(pass_start.tiles@[d]));
                    assert(planted_or_kept(old(state).arena.tiles@[d], pass_start.tiles@[d], sx, sy, spell.range, d, tree));
                    assert(pass_start.tiles@[d] == old(state).arena.tiles@[d]);
                    assert(planted_or_kept(old(state).arena.tiles@[d], before.tiles@[d], sx, sy, spell.range, d, tree));
                    assert forall|j: int| 0 <= j < 150 implies planted_or_kept(old(state).arena.tiles@[j], #[trigger] state.arena.tiles@[j], sx, sy, spell.range, j, tree) by {
                        if j == d && state.arena.tiles@[j] != before.tiles@[j] {
                            let o = old(state).arena.tiles@[j];
                            assert(state.arena.tiles@[j] == Tile { creation: Some(tree), ..o });
                        }
                    }
                    if state.arena.tiles@[d] != before.tiles@[d] {
                        assert(state.arena.tiles@[d].creation == Some(tree));
                        assert(old(state).arena.tiles@[d].creation.is_none());
                    }
                    if placement.count > 0 {
                        let w = choose|w: int| 0 <= w < 150 && (#[trigger] before.tiles@[w]).creation == Some(tree) && old(state).arena.tiles@[w].creation.is_none();
                        if w != d {
                            assert(state.arena.tiles@[w] == before.tiles@[w]);
                        }
                    }
                }
                match step.next {
                    Some(p) => {
                        if p.count > placement.count {
                            placement = p;
                        }
                    },
                    None => {
                        return events;
                    },
                }
            }
            k = k + 1;
        }
        if placement.count == start {
            proof {
                if start == 0 && !stats.shadow_wood && casts(roll as int, *spell, world_alignment as int, spell_ability as int)
                    && wood_target_exists(old(state).arena, sx, sy, spell.range) {
                    let j = choose|j: int| 0 <= j < 150 && crate::arena::in_area(
                        crate::arena::Area::Spell(spell.range),
                        sx as int,
                        sy as int,
                        crate::arena::coord_of(j).0 as int,
                        crate::arena::coord_of(j).1 as int,
                    ) && crate::arena::is_empty_tile(#[trigger] old(state).arena.tiles@[j]) && old(state).arena.in_sight(sx, sy, crate::arena::coord_of(j).0, crate::arena::coord_of(j).1);
                    crate::movement::lemma_select_complete(&old(state).arena, crate::arena::Area::Spell(spell.range), sx, sy, crate::arena::Query::Empty, 0, 150, j);
                    let c = crate::arena::coord_of(j);
                    assert(listed.contains(c));
                    assert(listed.to_multiset().count(c) > 0);
                    assert(tiles@.to_multiset().count(c) > 0);
                    assert(tiles@.contains(c));
                    let m = choose|m: int| 0 <= m < tiles@.len() && tiles@[m] == c;
                    crate::arena::lemma_tile_index(c.0 as int, c.1 as int, c.0 as int, c.1 as int);
                    assert(on_board(tiles@[m].0 as int, tiles@[m].1 as int));
                }
            }
            return events;
        }
    }
}

/// How the engine carries out a spell once it is chosen.
#[derive(Clone, Copy, Debug, PartialEq, Eq, Structural)]
pub enum SpellMode {
    /// The caster picks an enemy creation; an illusion vanishes.
    Disbelieve,
    /// The caster picks an empty tile in sight for one piece.
    Summon(crate::rules::Summon),
    /// The caster picks empty tiles in sight, one at a time, up to the limit.
    Area { limit: u8 },
    /// The engine plants magic wood by itself.
    Wood,
    /// After the throw, the caster picks an enemy in sight for a bolt of this
    /// combat value.
    Bolt { combat: u8, lightning: bool },
    /// After the throw, the caster picks targets this many times.
    Magical { attempts: u8 },
    /// The caster casts it on itself or on the world.
    OnSelf,
    Subversion,
    RaiseDead,
}

pub open spec fn spell_mode_spec(kind: SpellKind) -> SpellMode {
    match kind {
        SpellKind::Disbelieve => SpellMode::Disbelieve,
        SpellKind::Creation(_) | SpellKind::Shelter(_) => SpellMode::Summon(crate::rules::Summon::Creation),
        SpellKind::MagicFire(_) => SpellMode::Summon(crate::rules::Summon::Fire),
        SpellKind::GooeyBlob(_) => SpellMode::Summon(crate::rules::Summon::Blob),
        SpellKind::MagicWood(_) => SpellMode::Wood,
        SpellKind::ShadowWood(_) => SpellMode::Area { limit: 8 },
        SpellKind::Wall(_) => SpellMode::Area { limit: 4 },
        SpellKind::MagicBolt => SpellMode::Bolt { combat: 3, lightning: false },
        SpellKind::Lightning => SpellMode::Bolt { combat: 6, lightning: true },
        SpellKind::MagicalAttack(n) => SpellMode::Magical { attempts: n },
        SpellKind::Subversion => SpellMode::Subversion,
        SpellKind::RaiseDead => SpellMode::RaiseDead,
        _ => SpellMode::OnSelf,
    }
}

pub fn spell_mode(kind: &SpellKind) -> (r: SpellMode)
    ensures
        r == spell_mode_spec(*kind),
{
    match kind {
        SpellKind::Disbelieve => SpellMode::Disbelieve,
        SpellKind::Creation(_) | SpellKind::Shelter(_) => SpellMode::Summon(crate::rules::Summon::Creation),
        SpellKind::MagicFire(_) => SpellMode::Summon(crate::rules::Summon::Fire),
        SpellKind::GooeyBlob(_) => SpellMode::Summon(crate::rules::Summon::Blob),
        SpellKind::MagicWood(_) => SpellMode::Wood,
        SpellKind::ShadowWood(_) => SpellMode::Area { limit: 8 },
        SpellKind::Wall(_) => SpellMode::Area { limit: 4 },
        SpellKind::MagicBolt => SpellMode::Bolt { combat: 3, lightning: false },
        SpellKind::Lightning => SpellMode::Bolt { combat: 6, lightning: true },
        SpellKind::MagicalAttack(n) => SpellMode::Magical { attempts: *n },
        SpellKind::Subversion => SpellMode::Subversion,
        SpellKind::RaiseDead => SpellMode::RaiseDead,
        _ => SpellMode::OnSelf,
    }
}

/// The stats of the piece a summoning spell brings; none for other spells.
pub fn summoned_stats(kind: &SpellKind) -> (r: Option<&CreationStats>)
    ensures
        match *kind {
            SpellKind::Creation(s) | SpellKind::MagicFire(s) | SpellKind::GooeyBlob(s) | SpellKind::MagicWood(s)
            | SpellKind::ShadowWood(s) | SpellKind::Shelter(s) | SpellKind::Wall(s) => r == Some(&s),
            _ => r.is_none(),
        },
{
    match kind {
        SpellKind::Creation(s) | SpellKind::MagicFire(s) | SpellKind::GooeyBlob(s) | SpellKind::MagicWood(s)
        | SpellKind::ShadowWood(s) | SpellKind::Shelter(s) | SpellKind::Wall(s) => Some(s),
        _ => None,
    }
}

/// Whether position `j` holds a spawn of the board `a`, or lies next to one.
pub open spec fn near_spawn(a: crate::arena::Arena, j: int) -> bool {
    exists|k: int|
        0 <= k < 150 && (#[trigger] a.tiles@[k]).spawn.is_some() && near(
            crate::arena::coord_of(k).0 as int,
            crate::arena::coord_of(k).1 as int,
            j,
        )
}

/// The fire and blob phase of a round: each spawn on the board at its start
/// throws the die and dies out or spreads. Away from the spawns, pieces can only
/// disappear (with a wizard the spawns killed). The second result tells whether
/// the spawns left a single player standing where there was not one before.
pub fn do_fire(state: &mut ServerState) -> (r: (Vec<Event>, bool))
    requires
        old(state).wf(),
    ensures
        final(state).wf(),
        final(state).wizards@.len() == old(state).wizards@.len(),
        final(state).arena.alignment == old(state).arena.alignment,
        forall|j: int|
            0 <= j < 150 ==> near_spawn(old(state).arena, j) || removed_only(
                old(state).arena.tiles@[j],
                #[trigger] final(state).arena.tiles@[j],
            ),
        r.1 == (active_count(final(state).wizards@) == 1 && active_count(old(state).wizards@) != 1),
{
    let won_before = state.wizards.check_for_winning_condition();
    let tiles = state.arena.all_spawn_tiles();
    proof {
        crate::movement::lemma_selected_on_board(&state.arena, crate::arena::Area::Everywhere, 0, 0, crate::arena::Query::HasSpawn, 0);
    }
    let ghost start = state.arena;
    let mut events: Vec<Event> = Vec::new();
    let mut k: usize = 0;
    while k < tiles.len()
        invariant
            state.wf(),
            start == old(state).arena,
            state.wizards@.len() == old(state).wizards@.len(),
            state.arena.alignment == old(state).arena.alignment,
            k <= tiles@.len(),
            forall|j: int| 0 <= j < tiles@.len() ==> on_board(#[trigger] tiles@[j].0 as int, tiles@[j].1 as int),
            forall|j: int|
                0 <= j < tiles@.len() ==> crate::arena::tile_matches(
                    crate::arena::Query::HasSpawn,
                    start.tile(#[trigger] tiles@[j].0 as int, tiles@[j].1 as int),
                    0,
                ),
            forall|j: int| 0 <= j < 150 ==> near_spawn(start, j) || removed_only(start.tiles@[j], #[trigger] state.arena.tiles@[j]),
        decreases tiles@.len() - k,
    {
        let (x, y) = tiles[k];
        if state.arena.get(x, y).spawn.is_some() {
            let ghost before = state.arena;
            let roll = crate::dice::roll_d10();
            let mut outcome = spread_spawn(state, x, y, roll, crate::dice::roll_d10(), crate::dice::roll_d10());
            events.append(&mut outcome.events);
            proof {
                let p = index_of(x as int, y as int);
                crate::arena::lemma_tile_index(x as int, y as int, x as int, y as int);
                assert(start.tiles@[p].spawn.is_some());
                assert forall|j: int| 0 <= j < 150 implies near_spawn(start, j) || removed_only(start.tiles@[j], #[trigger] state.arena.tiles@[j]) by {
                    if near(x as int, y as int, j) {
                        assert(near(crate::arena::coord_of(p).0 as int, crate::arena::coord_of(p).1 as int, j));
                    } else {
                        assert(removed_only(before.tiles@[j], state.arena.tiles@[j]));
                    }
                }
            }
        }
        k = k + 1;
    }
    let won_after = state.wizards.check_for_winning_condition();
    (events, won_after && !won_before)
}

/// Whether the tile kept its state, or was a combustible shelter that burned away.
pub open spec fn kept_or_burned(before: Tile, after: Tile) -> bool {
    after == before || (crate::arena::tile_matches(crate::arena::Query::CombustibleShelter, before, 0) && after
        == Tile { creation: None, ..before })
}

/// The shelter phase of a round: each combustible shelter burns away with a
/// throw of 8 or 9; nothing else changes.
pub fn do_shelter_turn(state: &mut ServerState) -> (r: Vec<Event>)
    requires
        old(state).wf(),
    ensures
        final(state).wf(),
        final(state).wizards@ == old(state).wizards@,
        final(state).arena.alignment == old(state).arena.alignment,
        forall|i: int| 0 <= i < 150 ==> kept_or_burned(old(state).arena.tiles@[i], #[trigger] final(state).arena.tiles@[i]),
{
    let tiles = state.arena.all_combustable_shelter_tiles();
    proof {
        crate::movement::lemma_selected_on_board(&state.arena, crate::arena::Area::Everywhere, 0, 0, crate::arena::Query::CombustibleShelter, 0);
    }
    let ghost start = state.arena;
    let mut events: Vec<Event> = Vec::new();
    let mut k: usize = 0;
    while k < tiles.len()
        invariant
            state.wf(),
            state.wizards@ == old(state).wizards@,
            state.arena.alignment == old(state).arena.alignment,
            start == old(state).arena,
            k <= tiles@.len(),
            forall|j: int| 0 <= j < tiles@.len() ==> on_board(#[trigger] tiles@[j].0 as int, tiles@[j].1 as int),
            forall|j: int|
                0 <= j < tiles@.len() ==> crate::arena::tile_matches(
                    crate::arena::Query::CombustibleShelter,
                    start.tile(#[trigger] tiles@[j].0 as int, tiles@[j].1 as int),
                    0,
                ),
            forall|i: int| 0 <= i < 150 ==> kept_or_burned(start.tiles@[i], #[trigger] state.arena.tiles@[i]),
        decreases tiles@.len() - k,
    {
        let (x, y) = tiles[k];
        let ghost before = state.arena;
        let mut burned = shelter_tick(state, x, y, crate::dice::roll_d10());
        proof {
            let i = index_of(x as int, y as int);
            assert forall|m: int| 0 <= m < 150 implies kept_or_burned(start.tiles@[m], #[trigger] state.arena.tiles@[m]) by {
                if m == i {
                    assert(kept_or_burned(start.tiles@[m], before.tiles@[m]));
                }
            }
        }
        events.append(&mut burned);
        k = k + 1;
    }
    events
}

/// The tile kept its pieces, or it held a wizard in magic wood and the tree is gone.
pub open spec fn tree_used_or_kept(before: Tile, after: Tile) -> bool {
    after == before || (crate::arena::tile_matches(crate::arena::Query::WizardInTree, before, 0) && after.creation.is_none()
        && after.spawn == before.spawn && after.corpse == before.corpse && after.wizard.is_some())
}

/// Every hand grows or stays, and none grows past twenty.
pub open spec fn hands_grown_within_cap(before: Seq<Wizard>, after: Seq<Wizard>) -> bool {
    &&& after.len() == before.len()
    &&& forall|i: int|
        0 <= i < before.len() ==> (#[trigger] after[i]).id == before[i].id && after[i].spells@.len() >= before[i].spells@.len()
            && (before[i].spells@.len() <= 20 ==> after[i].spells@.len() <= 20)
}

/// The magic wood phase of a round: each wizard sheltering in magic wood throws
/// the die and, with a 9, finds a spell drawn from the book; its tree is then used
/// up. No hand grows past twenty.
pub fn do_magic_wood(state: &mut ServerState, book: &Vec<Spell>) -> (r: Vec<Event>)
    requires
        old(state).wf(),
        book.len() > 0,
    ensures
        final(state).wf(),
        final(state).arena.alignment == old(state).arena.alignment,
        hands_grown_within_cap(old(state).wizards@, final(state).wizards@),
        forall|j: int| 0 <= j < 150 ==> tree_used_or_kept(old(state).arena.tiles@[j], #[trigger] final(state).arena.tiles@[j]),
{
    let tiles = state.arena.wizards_in_trees();
    proof {
        crate::movement::lemma_selected_on_board(&state.arena, crate::arena::Area::Everywhere, 0, 0, crate::arena::Query::WizardInTree, 0);
    }
    let ghost start = state.arena;
    let mut events: Vec<Event> = Vec::new();
    let mut k: usize = 0;
    while k < tiles.len()
        invariant
            state.wf(),
            start == old(state).arena,
            book.len() > 0,
            k <= tiles@.len(),
            state.arena.alignment == old(state).arena.alignment,
            forall|j: int| 0 <= j < tiles@.len() ==> on_board(#[trigger] tiles@[j].0 as int, tiles@[j].1 as int),
            forall|j: int|
                0 <= j < tiles@.len() ==> crate::arena::tile_matches(
                    crate::arena::Query::WizardInTree,
                    start.tile(#[trigger] tiles@[j].0 as int, tiles@[j].1 as int),
                    0,
                ),
            hands_grown_within_cap(old(state).wizards@, state.wizards@),
            forall|j: int| 0 <= j < 150 ==> tree_used_or_kept(start.tiles@[j], #[trigger] state.arena.tiles@[j]),
        decreases tiles@.len() - k,
    {
        let (x, y) = tiles[k];
        let roll = crate::dice::roll_d10();
        if roll >= 9 && state.arena.get(x, y).wizard.is_some() {
            let found = Spell::random(book);
            let ghost before_arena = state.arena;
            let ghost before_hands = state.wizards@;
            let mut news = magic_wood_tick(state, x, y, roll, found);
            proof {
                let p = index_of(x as int, y as int);
                crate::arena::lemma_tile_index(x as int, y as int, x as int, y as int);
                assert forall|j: int| 0 <= j < 150 implies tree_used_or_kept(start.tiles@[j], #[trigger] state.arena.tiles@[j]) by {
                    if j == p && news@.len() > 0 {
                        assert(tree_used_or_kept(start.tiles@[j], before_arena.tiles@[j]));
                        assert(crate::arena::tile_matches(crate::arena::Query::WizardInTree, start.tiles@[j], 0));
                    }
                }
                assert forall|i: int| 0 <= i < old(state).wizards@.len() implies (#[trigger] state.wizards@[i]).id == old(state).wizards@[i].id
                    && state.wizards@[i].spells@.len() >= old(state).wizards@[i].spells@.len()
                    && (old(state).wizards@[i].spells@.len() <= 20 ==> state.wizards@[i].spells@.len() <= 20) by {
                    assert(before_hands[i].id == old(state).wizards@[i].id);
                }
            }
            events.append(&mut news);
        }
        k = k + 1;
    }
    events
}

} // verus!
