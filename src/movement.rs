use crate::arena::{Arena, Area, Query, Tile, has_wizard_of, index_of, on_board};
use crate::combat::{engaged_by, is_engaged_with};
use crate::rules::{Event, ServerState, sole_wizard};
use vstd::prelude::*;

verus! {

/// What the piece a player picked at (x, y) does.
#[derive(Clone, Copy, Debug, PartialEq, Eq, Structural)]
pub enum PieceAction {
    /// Shadow wood cannot move; it may attack a neighbour.
    ShadowWoodAttack,
    /// A creation held in combat must fight.
    CreationEngaged,
    /// A wizard sheltering in magic wood walks out of it.
    LeaveWood,
    /// A wizard riding a creation is asked whether to dismount.
    AskDismount,
    FlyCreation,
    WalkCreation,
    /// A wizard held in combat must fight.
    WizardEngaged,
    FlyWizard,
    WalkWizard,
}

/// The action of the piece at a tile, given whether a manoeuvre contest held it
/// in combat. A creation that is not a shelter acts before a wizard on its tile.
pub open spec fn piece_action_spec(t: Tile, engaged: bool) -> PieceAction {
    match t.creation {
        Some(c) if !c.stats.shelter => if c.stats.shadow_wood {
            PieceAction::ShadowWoodAttack
        } else if engaged {
            PieceAction::CreationEngaged
        } else if t.wizard.is_some() && c.stats.magic_wood {
            PieceAction::LeaveWood
        } else if t.wizard.is_some() {
            PieceAction::AskDismount
        } else if c.stats.flying {
            PieceAction::FlyCreation
        } else {
            PieceAction::WalkCreation
        },
        _ => if !t.wizard->0.stats.shadow_form && engaged {
            PieceAction::WizardEngaged
        } else if t.wizard->0.stats.magic_wings {
            PieceAction::FlyWizard
        } else {
            PieceAction::WalkWizard
        },
    }
}

pub fn piece_action(arena: &Arena, x: u8, y: u8, engaged: bool) -> (r: PieceAction)
    requires
        arena.wf(),
        on_board(x as int, y as int),
        (arena.tile(x as int, y as int).creation matches Some(c) && !c.stats.shelter) || arena.tile(
            x as int,
            y as int,
        ).wizard.is_some(),
    ensures
        r == piece_action_spec(arena.tile(x as int, y as int), engaged),
{
    let t = arena.get(x, y);
    let walker = match &t.creation {
        Some(c) => !c.stats.shelter,
        None => false,
    };
    if walker {
        let c = t.creation.as_ref().unwrap();
        if c.stats.shadow_wood {
            PieceAction::ShadowWoodAttack
        } else if engaged {
            PieceAction::CreationEngaged
        } else if t.wizard.is_some() && c.stats.magic_wood {
            PieceAction::LeaveWood
        } else if t.wizard.is_some() {
            PieceAction::AskDismount
        } else if c.stats.flying {
            PieceAction::FlyCreation
        } else {
            PieceAction::WalkCreation
        }
    } else {
        let w = t.wizard.as_ref().unwrap();
        if !w.stats.shadow_form && engaged {
            PieceAction::WizardEngaged
        } else if w.stats.magic_wings {
            PieceAction::FlyWizard
        } else {
            PieceAction::WalkWizard
        }
    }
}

/// The manoeuvre rating of the piece that a player picked: its creation if that
/// is not a shelter, else its wizard.
pub open spec fn mover_manoeuvre(t: Tile) -> int {
    match t.creation {
        Some(c) if !c.stats.shelter => c.stats.base.manoeuvre as int,
        _ => t.wizard->0.stats.base.manoeuvre as int,
    }
}

/// The manoeuvre rating of a neighbouring foe: its creation, else its wizard.
pub open spec fn foe_manoeuvre(t: Tile) -> int {
    match t.creation {
        Some(c) => c.stats.base.manoeuvre as int,
        None => t.wizard->0.stats.base.manoeuvre as int,
    }
}

/// Whether some neighbouring foe, tried in order with its pair of throws, wins
/// its manoeuvre contest against a piece of rating `manoeuvre` at (x, y).
pub open spec fn held_in_combat(arena: Arena, id: u32, x: u8, y: u8, manoeuvre: u8, rolls: Seq<(u8, u8)>) -> bool {
    let foes = arena.tiles_where(Area::Spell(3), x, y, Query::NeighbouringFoe, id);
    exists|k: int|
        0 <= k < foes.len() && #[trigger] engaged_by(
            foe_manoeuvre(arena.tile(foes[k].0 as int, foes[k].1 as int)),
            manoeuvre as int,
            rolls[k].0 as int,
            rolls[k].1 as int,
        )
}

/// Whether a piece with manoeuvre rating `manoeuvre` at (x, y) is held in combat:
/// the neighbouring foes are tried in order, each with its pair of throws, and the
/// first that wins its contest holds it.
pub fn check_engaged(arena: &Arena, id: u32, x: u8, y: u8, manoeuvre: u8, rolls: &Vec<(u8, u8)>) -> (r: bool)
    requires
        arena.wf(),
        rolls@.len() >= arena.tiles_where(Area::Spell(3), x, y, Query::NeighbouringFoe, id).len(),
    ensures
        r == held_in_combat(*arena, id, x, y, manoeuvre, rolls@),
{
    let foes = arena.neighbouring_foes(x, y, id);
    proof {
        lemma_selected_on_board(arena, Area::Spell(3), x, y, Query::NeighbouringFoe, id);
    }
    let mut k: usize = 0;
    while k < foes.len()
        invariant
            arena.wf(),
            foes@ == arena.tiles_where(Area::Spell(3), x, y, Query::NeighbouringFoe, id),
            rolls@.len() >= foes@.len(),
            k <= foes@.len(),
            forall|j: int| 0 <= j < foes@.len() ==> on_board(#[trigger] foes@[j].0 as int, foes@[j].1 as int),
            forall|j: int| 0 <= j < foes@.len() ==> crate::arena::tile_matches(Query::NeighbouringFoe, arena.tile(#[trigger] foes@[j].0 as int, foes@[j].1 as int), id),
            forall|j: int|
                0 <= j < k ==> !#[trigger] engaged_by(
                    foe_manoeuvre(arena.tile(foes@[j].0 as int, foes@[j].1 as int)),
                    manoeuvre as int,
                    rolls@[j].0 as int,
                    rolls@[j].1 as int,
                ),
        decreases foes@.len() - k,
    {
        let (fx, fy) = foes[k];
        let t = arena.get(fx, fy);
        let foe = match &t.creation {
            Some(c) => c.stats.base.manoeuvre,
            None => t.wizard.as_ref().unwrap().stats.base.manoeuvre,
        };
        let (a, b) = rolls[k];
        if is_engaged_with(foe, manoeuvre, a, b) {
            assert(foe as int == foe_manoeuvre(arena.tile(foes@[k as int].0 as int, foes@[k as int].1 as int)));
            assert(engaged_by(
                foe_manoeuvre(arena.tile(foes@[k as int].0 as int, foes@[k as int].1 as int)),
                manoeuvre as int,
                rolls@[k as int].0 as int,
                rolls@[k as int].1 as int,
            ));
            return true;
        }
        k = k + 1;
    }
    false
}

/// Every tile a query selects lies on the board and satisfies it.
pub proof fn lemma_selected_on_board(arena: &Arena, area: Area, x: u8, y: u8, q: Query, id: u32)
    requires
        arena.wf(),
    ensures
        forall|j: int|
            0 <= j < arena.tiles_where(area, x, y, q, id).len() ==> on_board(
                #[trigger] arena.tiles_where(area, x, y, q, id)[j].0 as int,
                arena.tiles_where(area, x, y, q, id)[j].1 as int,
            ),
        forall|j: int|
            0 <= j < arena.tiles_where(area, x, y, q, id).len() ==> crate::arena::in_area(
                area,
                x as int,
                y as int,
                #[trigger] arena.tiles_where(area, x, y, q, id)[j].0 as int,
                arena.tiles_where(area, x, y, q, id)[j].1 as int,
            ),
        forall|j: int|
            0 <= j < arena.tiles_where(area, x, y, q, id).len() ==> crate::arena::tile_matches(
                q,
                arena.tile(
                    #[trigger] arena.tiles_where(area, x, y, q, id)[j].0 as int,
                    arena.tiles_where(area, x, y, q, id)[j].1 as int,
                ),
                id,
            ),
{
    lemma_select_on_board(arena, area, x, y, q, id, 150);
}

/// Every tile of the area that satisfies the query is selected.
pub proof fn lemma_select_complete(arena: &Arena, area: Area, x: u8, y: u8, q: Query, id: u32, n: nat, j: int)
    requires
        arena.wf(),
        n <= 150,
        0 <= j < n,
        crate::arena::in_area(area, x as int, y as int, crate::arena::coord_of(j).0 as int, crate::arena::coord_of(j).1 as int),
        crate::arena::tile_matches(q, arena.tiles@[j], id),
    ensures
        arena.select(area, x, y, q, id, n).contains(crate::arena::coord_of(j)),
    decreases n,
{
    let c = crate::arena::coord_of(j);
    let prev = arena.select(area, x, y, q, id, (n - 1) as nat);
    let cur = arena.select(area, x, y, q, id, n);
    if j == n - 1 {
        assert(cur == prev.push(c));
        assert(cur[cur.len() - 1] == c);
    } else {
        lemma_select_complete(arena, area, x, y, q, id, (n - 1) as nat, j);
        let m = choose|m: int| 0 <= m < prev.len() && prev[m] == c;
        assert(cur[m] == c);
    }
}

proof fn lemma_select_on_board(arena: &Arena, area: Area, x: u8, y: u8, q: Query, id: u32, n: nat)
    requires
        arena.wf(),
        n <= 150,
    ensures
        forall|j: int|
            0 <= j < arena.select(area, x, y, q, id, n).len() ==> on_board(
                #[trigger] arena.select(area, x, y, q, id, n)[j].0 as int,
                arena.select(area, x, y, q, id, n)[j].1 as int,
            ) && crate::arena::tile_matches(
                q,
                arena.tile(arena.select(area, x, y, q, id, n)[j].0 as int, arena.select(area, x, y, q, id, n)[j].1 as int),
                id,
            ) && crate::arena::in_area(
                area,
                x as int,
                y as int,
                arena.select(area, x, y, q, id, n)[j].0 as int,
                arena.select(area, x, y, q, id, n)[j].1 as int,
            ),
    decreases n,
{
    if n > 0 {
        lemma_select_on_board(arena, area, x, y, q, id, (n - 1) as nat);
        let k = n - 1;
        let c = crate::arena::coord_of(k);
        assert(index_of(c.0 as int, c.1 as int) == k);
    }
}

/// What moving onto a picked tile means.
#[derive(Clone, Copy, Debug, PartialEq, Eq, Structural)]
pub enum Destination {
    /// The mover attacks what stands there.
    Attack,
    /// An undead creation stands there, which the mover cannot harm; it picks again.
    UndeadImmune,
    /// The mover steps onto the tile.
    Move,
}

/// For a walking wizard: a spawn is attacked; undead are immune unless it bears a
/// magic weapon; a wizard, or an enemy creation other than magic wood, is
/// attacked; anything else is entered.
pub open spec fn wizard_walk_spec(t: Tile, id: u32, armed: bool) -> Destination {
    if t.spawn.is_some() {
        Destination::Attack
    } else if (t.creation matches Some(c) && c.stats.undead) && !armed {
        Destination::UndeadImmune
    } else if t.wizard.is_some() || (t.creation matches Some(c) && c.id != id && !c.stats.magic_wood) {
        Destination::Attack
    } else {
        Destination::Move
    }
}

/// For a flying wizard: undead are immune unless it is armed; a spawn, a wizard or
/// an enemy creation is attacked; anything else is a landing place.
pub open spec fn wizard_fly_spec(t: Tile, id: u32, armed: bool) -> Destination {
    if (t.creation matches Some(c) && c.stats.undead) && !armed {
        Destination::UndeadImmune
    } else if t.spawn.is_some() || t.wizard.is_some() || (t.creation matches Some(c) && c.id != id) {
        Destination::Attack
    } else {
        Destination::Move
    }
}

/// For a creation, walking or flying: only undead harm undead; any other piece
/// on the tile is attacked.
pub open spec fn creation_dest_spec(t: Tile, undead: bool, flying: bool) -> Destination {
    if !flying && t.spawn.is_some() {
        Destination::Attack
    } else if (t.creation matches Some(c) && c.stats.undead) && !undead {
        Destination::UndeadImmune
    } else if t.spawn.is_some() || t.wizard.is_some() || t.creation.is_some() {
        Destination::Attack
    } else {
        Destination::Move
    }
}

pub fn wizard_destination(arena: &Arena, id: u32, sx: u8, sy: u8, dx: u8, dy: u8, flying: bool) -> (r: Destination)
    requires
        arena.wf(),
        on_board(sx as int, sy as int),
        on_board(dx as int, dy as int),
        arena.tile(sx as int, sy as int).wizard.is_some(),
    ensures
        ({
            let armed = arena.tile(sx as int, sy as int).wizard->0.stats.attack_buff.is_some();
            let t = arena.tile(dx as int, dy as int);
            r == if flying { wizard_fly_spec(t, id, armed) } else { wizard_walk_spec(t, id, armed) }
        }),
{
    let armed = arena.get_wizard(sx, sy).stats.attack_buff.is_some();
    let t = arena.get(dx, dy);
    let undead = match &t.creation {
        Some(c) => c.stats.undead,
        None => false,
    };
    if !flying && t.spawn.is_some() {
        return Destination::Attack;
    }
    if undead && !armed {
        return Destination::UndeadImmune;
    }
    let enemy = match &t.creation {
        Some(c) => c.id != id && (flying || !c.stats.magic_wood),
        None => false,
    };
    if t.spawn.is_some() || t.wizard.is_some() || enemy {
        Destination::Attack
    } else {
        Destination::Move
    }
}

pub fn creation_destination(arena: &Arena, sx: u8, sy: u8, dx: u8, dy: u8, flying: bool) -> (r: Destination)
    requires
        arena.wf(),
        on_board(sx as int, sy as int),
        on_board(dx as int, dy as int),
        arena.tile(sx as int, sy as int).creation.is_some(),
    ensures
        r == creation_dest_spec(
            arena.tile(dx as int, dy as int),
            arena.tile(sx as int, sy as int).creation->0.stats.undead,
            flying,
        ),
{
    let undead = arena.get_creation(sx, sy).stats.undead;
    let t = arena.get(dx, dy);
    if !flying && t.spawn.is_some() {
        return Destination::Attack;
    }
    let target_undead = match &t.creation {
        Some(c) => c.stats.undead,
        None => false,
    };
    if target_undead && !undead {
        return Destination::UndeadImmune;
    }
    if t.spawn.is_some() || t.wizard.is_some() || t.creation.is_some() {
        Destination::Attack
    } else {
        Destination::Move
    }
}

/// How a walk goes on after one step.
#[derive(Clone, Copy, Debug, PartialEq, Eq, Structural)]
pub enum Walk {
    /// The mover may step again from where it stands now.
    Continue,
    /// Enemies next to the new tile hold the mover in combat.
    Engaged,
    /// The walk is over; with `ranged`, the mover may then shoot.
    Stop { ranged: bool },
}

/// The creation at (sx, sy) steps onto the free tile (dx, dy), with any rider. Next
/// to an enemy it is held in combat; otherwise it spends one movement point and
/// stops when none is left.
pub fn creation_step(state: &mut ServerState, id: u32, sx: u8, sy: u8, dx: u8, dy: u8) -> (r: (Vec<Event>, Walk))
    requires
        old(state).wf(),
        on_board(sx as int, sy as int),
        on_board(dx as int, dy as int),
        sx != dx || sy != dy,
        old(state).arena.tile(sx as int, sy as int).creation.is_some(),
        old(state).arena.tile(sx as int, sy as int).creation->0.moves_left > 0,
    ensures
        final(state).wf(),
        final(state).wizards@ == old(state).wizards@,
        final(state).arena.tile(dx as int, dy as int).creation.is_some(),
        final(state).arena.tile(sx as int, sy as int).creation.is_none(),
        r.1 != Walk::Engaged ==> final(state).arena.tile(dx as int, dy as int).creation->0.moves_left
            == old(state).arena.tile(sx as int, sy as int).creation->0.moves_left - 1,
        r.1 == Walk::Continue ==> final(state).arena.tile(dx as int, dy as int).creation->0.moves_left > 0,
        (r.1 == Walk::Engaged) == (final(state).arena.tiles_where(Area::Spell(3), dx, dy, Query::NeighbouringFoe, id).len() > 0),
        r.1 == Walk::Engaged || r.1 == Walk::Continue || r.1 == (Walk::Stop { ranged: true }),
{
    let mut events: Vec<Event> = Vec::new();
    events.push(Event::MoveCreation { id, sx, sy, dx, dy });
    state.arena.move_creation(sx, sy, dx, dy);
    if state.arena.has_neighbouring_foes(dx, dy, id) {
        return (events, Walk::Engaged);
    }
    let ghost mid = state.arena;
    let c = state.arena.get_mut_creation(dx, dy);
    let left = c.moves_left - 1;
    c.moves_left = left;
    proof {
        lemma_step_keeps_foes(mid, state.arena, dx, dy, id);
    }
    if left == 0 {
        (events, Walk::Stop { ranged: true })
    } else {
        (events, Walk::Continue)
    }
}

/// A change to the tile (x, y) alone leaves the foes next to it as they were.
proof fn lemma_step_keeps_foes(a: Arena, b: Arena, x: u8, y: u8, id: u32)
    requires
        a.wf(),
        b.wf(),
        on_board(x as int, y as int),
        forall|j: int| 0 <= j < 150 && j != index_of(x as int, y as int) ==> #[trigger] b.tiles@[j] == a.tiles@[j],
    ensures
        a.tiles_where(Area::Spell(3), x, y, Query::NeighbouringFoe, id) == b.tiles_where(Area::Spell(3), x, y, Query::NeighbouringFoe, id),
{
    crate::arena::lemma_tile_index(x as int, y as int, x as int, y as int);
    assert forall|j: int| 0 <= j < 150 implies a.tiles@[j] == b.tiles@[j] || !crate::arena::in_area(
        Area::Spell(3),
        x as int,
        y as int,
        #[trigger] crate::arena::coord_of(j).0 as int,
        crate::arena::coord_of(j).1 as int,
    ) by {
        if j == index_of(x as int, y as int) {
            assert(crate::arena::coord_of(j) == (x, y));
        }
    }
    crate::arena::lemma_select_agree(a, b, Area::Spell(3), x, y, Query::NeighbouringFoe, id, 150);
}

/// The wizard of `id` at (sx, sy) steps onto (dx, dy). Next to an enemy, and not in
/// shadow form, it is held in combat; mounting a creation ends the move of both;
/// otherwise it spends one movement point and stops when none is left.
pub fn wizard_step(state: &mut ServerState, id: u32, sx: u8, sy: u8, dx: u8, dy: u8) -> (r: (Vec<Event>, Walk))
    requires
        old(state).wf(),
        on_board(sx as int, sy as int),
        on_board(dx as int, dy as int),
        sx != dx || sy != dy,
        has_wizard_of(old(state).arena.tile(sx as int, sy as int), id),
        sole_wizard(old(state).arena, id, index_of(sx as int, sy as int)),
        old(state).arena.tile(sx as int, sy as int).wizard->0.moves_left > 0,
        old(state).arena.tile(dx as int, dy as int).wizard.is_none(),
    ensures
        final(state).wf(),
        final(state).wizards@ == old(state).wizards@,
        has_wizard_of(final(state).arena.tile(dx as int, dy as int), id),
        final(state).arena.tile(sx as int, sy as int).wizard.is_none(),
        r.1 == Walk::Continue ==> final(state).arena.tile(dx as int, dy as int).wizard->0.moves_left > 0,
        ({
            let w = old(state).arena.tile(sx as int, sy as int).wizard->0;
            let t = old(state).arena.tile(dx as int, dy as int);
            let mount = t.creation matches Some(c) && c.stats.mount;
            &&& (r.1 == Walk::Engaged) == (!w.stats.shadow_form && final(state).arena.tiles_where(Area::Spell(3), dx, dy, Query::NeighbouringFoe, id).len() > 0)
            &&& (r.1 != Walk::Engaged && mount) ==> r.1 == (Walk::Stop { ranged: false })
                && final(state).arena.tile(dx as int, dy as int).wizard->0.moves_left == 0
                && final(state).arena.tile(dx as int, dy as int).creation->0.moves_left == 0
            &&& (r.1 != Walk::Engaged && !mount) ==> final(state).arena.tile(dx as int, dy as int).wizard->0.moves_left
                == w.moves_left - 1
        }),
{
    let shadow_form = state.arena.get_wizard(sx, sy).stats.shadow_form;
    let mut events: Vec<Event> = Vec::new();
    events.push(Event::MoveWizard { id, x: dx, y: dy });
    state.arena.move_wizard(id, dx, dy);
    if !shadow_form && state.arena.has_neighbouring_foes(dx, dy, id) {
        return (events, Walk::Engaged);
    }
    let ghost mid = state.arena;
    let mount = match &state.arena.get(dx, dy).creation {
        Some(c) => c.stats.mount,
        None => false,
    };
    if mount {
        state.arena.get_mut_creation(dx, dy).moves_left = 0;
        state.arena.get_mut_wizard(dx, dy).moves_left = 0;
        proof {
            lemma_step_keeps_foes(mid, state.arena, dx, dy, id);
        }
        return (events, Walk::Stop { ranged: false });
    }
    let w = state.arena.get_mut_wizard(dx, dy);
    let left = w.moves_left - 1;
    w.moves_left = left;
    proof {
        lemma_step_keeps_foes(mid, state.arena, dx, dy, id);
    }
    if left == 0 {
        (events, Walk::Stop { ranged: true })
    } else {
        (events, Walk::Continue)
    }
}

/// Throws the dice of the manoeuvre contests for the piece of rating `manoeuvre`
/// at (x, y), one pair per neighbouring foe.
pub fn is_engaged_now(arena: &Arena, id: u32, x: u8, y: u8, manoeuvre: u8) -> (r: bool)
    requires
        arena.wf(),
    ensures
        r ==> arena.tiles_where(Area::Spell(3), x, y, Query::NeighbouringFoe, id).len() > 0,
        exists|rolls: Seq<(u8, u8)>|
            rolls.len() == arena.tiles_where(Area::Spell(3), x, y, Query::NeighbouringFoe, id).len() && (forall|i: int|
                0 <= i < rolls.len() ==> #[trigger] rolls[i].0 <= 9 && rolls[i].1 <= 9) && r == held_in_combat(
                *arena,
                id,
                x,
                y,
                manoeuvre,
                rolls,
            ),
{
    let foes = arena.neighbouring_foes(x, y, id);
    let mut rolls: Vec<(u8, u8)> = Vec::new();
    let mut k: usize = 0;
    while k < foes.len()
        invariant
            k <= foes@.len(),
            rolls@.len() == k,
            forall|i: int| 0 <= i < k ==> #[trigger] rolls@[i].0 <= 9 && rolls@[i].1 <= 9,
        decreases foes@.len() - k,
    {
        rolls.push((crate::dice::roll_d10(), crate::dice::roll_d10()));
        k = k + 1;
    }
    let r = check_engaged(arena, id, x, y, manoeuvre, &rolls);
    assert(rolls@.len() == foes@.len());
    r
}

/// Takes off: the flying piece at (x, y) spends all its movement now, and may
/// land as far as its range allows: a creation's own movement, six for a wizard.
pub fn take_off(state: &mut ServerState, x: u8, y: u8, creation: bool) -> (r: u8)
    requires
        old(state).wf(),
        on_board(x as int, y as int),
        creation ==> old(state).arena.tile(x as int, y as int).creation.is_some(),
        !creation ==> old(state).arena.tile(x as int, y as int).wizard.is_some(),
    ensures
        final(state).wf(),
        final(state).wizards@ == old(state).wizards@,
        creation ==> r == old(state).arena.tile(x as int, y as int).creation->0.stats.base.movement && final(state).arena.tiles@
            == old(state).arena.tiles@.update(
            index_of(x as int, y as int),
            Tile {
                creation: Some(
                    crate::creation::GameCreation { moves_left: 0, ..old(state).arena.tile(x as int, y as int).creation->0 },
                ),
                ..old(state).arena.tile(x as int, y as int)
            },
        ),
        !creation ==> r == 6 && final(state).arena.tiles@ == old(state).arena.tiles@.update(
            index_of(x as int, y as int),
            Tile {
                wizard: Some(
                    crate::wizard::GameWizard { moves_left: 0, ..old(state).arena.tile(x as int, y as int).wizard->0 },
                ),
                ..old(state).arena.tile(x as int, y as int)
            },
        ),
{
    if creation {
        let c = state.arena.get_mut_creation(x, y);
        c.moves_left = 0;
        let m = c.stats.base.movement;
        m
    } else {
        let w = state.arena.get_mut_wizard(x, y);
        w.moves_left = 0;
        6
    }
}

/// Lands a flying creation at (sx, sy) on the free tile (dx, dy). Next to an
/// enemy it is held in combat; otherwise it may then shoot.
pub fn creation_landing(state: &mut ServerState, id: u32, sx: u8, sy: u8, dx: u8, dy: u8) -> (r: (Vec<Event>, Walk))
    requires
        old(state).wf(),
        on_board(sx as int, sy as int),
        on_board(dx as int, dy as int),
        sx != dx || sy != dy,
        old(state).arena.tile(sx as int, sy as int).creation.is_some(),
    ensures
        final(state).wf(),
        final(state).wizards@ == old(state).wizards@,
        final(state).arena.tile(dx as int, dy as int).creation == old(state).arena.tile(sx as int, sy as int).creation,
        final(state).arena.tile(sx as int, sy as int).creation.is_none(),
        (r.1 == Walk::Engaged) == (final(state).arena.tiles_where(Area::Spell(3), dx, dy, Query::NeighbouringFoe, id).len() > 0),
        r.1 != Walk::Engaged ==> r.1 == (Walk::Stop { ranged: true }),
{
    let mut events: Vec<Event> = Vec::new();
    events.push(Event::MoveCreation { id, sx, sy, dx, dy });
    state.arena.move_creation(sx, sy, dx, dy);
    if state.arena.has_neighbouring_foes(dx, dy, id) {
        (events, Walk::Engaged)
    } else {
        (events, Walk::Stop { ranged: true })
    }
}

/// Lands the flying wizard of `id` at (sx, sy) on (dx, dy). Landing on a creation
/// ends the flight there, and an own creation spends its movement; otherwise, next
/// to an enemy and not in shadow form, it is held in combat; else it may shoot.
pub fn wizard_landing(state: &mut ServerState, id: u32, sx: u8, sy: u8, dx: u8, dy: u8) -> (r: (Vec<Event>, Walk))
    requires
        old(state).wf(),
        on_board(sx as int, sy as int),
        on_board(dx as int, dy as int),
        sx != dx || sy != dy,
        has_wizard_of(old(state).arena.tile(sx as int, sy as int), id),
        sole_wizard(old(state).arena, id, index_of(sx as int, sy as int)),
        old(state).arena.tile(dx as int, dy as int).wizard.is_none(),
    ensures
        final(state).wf(),
        final(state).wizards@ == old(state).wizards@,
        has_wizard_of(final(state).arena.tile(dx as int, dy as int), id),
        final(state).arena.tile(sx as int, sy as int).wizard.is_none(),
        ({
            let w = old(state).arena.tile(sx as int, sy as int).wizard->0;
            let t = old(state).arena.tile(dx as int, dy as int);
            &&& t.creation.is_some() ==> r.1 == (Walk::Stop { ranged: false })
            &&& (t.creation matches Some(c) && c.id == id) ==> final(state).arena.tile(dx as int, dy as int).creation->0.moves_left == 0
            &&& t.creation.is_none() ==> (r.1 == Walk::Engaged) == (!w.stats.shadow_form && final(state).arena.tiles_where(
                Area::Spell(3),
                dx,
                dy,
                Query::NeighbouringFoe,
                id,
            ).len() > 0)
            &&& (t.creation.is_none() && r.1 != Walk::Engaged) ==> r.1 == (Walk::Stop { ranged: true })
        }),
{
    let shadow_form = state.arena.get_wizard(sx, sy).stats.shadow_form;
    let mut events: Vec<Event> = Vec::new();
    events.push(Event::MoveWizard { id, x: dx, y: dy });
    state.arena.move_wizard(id, dx, dy);
    let landed_on = match &state.arena.get(dx, dy).creation {
        Some(c) => Some(c.id),
        None => None,
    };
    match landed_on {
        Some(owner) => {
            if owner == id {
                state.arena.get_mut_creation(dx, dy).moves_left = 0;
            }
            (events, Walk::Stop { ranged: false })
        },
        None => {
            if !shadow_form && state.arena.has_neighbouring_foes(dx, dy, id) {
                (events, Walk::Engaged)
            } else {
                (events, Walk::Stop { ranged: true })
            }
        },
    }
}

/// The answer to the dismount question for the rider at (x, y): dismounting spends
/// the mount's movement and the wizard walks; staying spends the wizard's, and the
/// mount moves, flying if it can.
pub fn dismount_choice(state: &mut ServerState, x: u8, y: u8, dismount: bool) -> (r: PieceAction)
    requires
        old(state).wf(),
        on_board(x as int, y as int),
        old(state).arena.tile(x as int, y as int).creation.is_some(),
        old(state).arena.tile(x as int, y as int).wizard.is_some(),
    ensures
        final(state).wf(),
        final(state).wizards@ == old(state).wizards@,
        ({
            let t = old(state).arena.tile(x as int, y as int);
            let c = t.creation->0;
            let w = t.wizard->0;
            if dismount {
                r == PieceAction::WalkWizard && final(state).arena.tiles@ == old(state).arena.tiles@.update(
                    index_of(x as int, y as int),
                    Tile { creation: Some(crate::creation::GameCreation { moves_left: 0, ..c }), ..t },
                )
            } else {
                r == (if c.stats.flying { PieceAction::FlyCreation } else { PieceAction::WalkCreation })
                    && final(state).arena.tiles@ == old(state).arena.tiles@.update(
                    index_of(x as int, y as int),
                    Tile { wizard: Some(crate::wizard::GameWizard { moves_left: 0, ..w }), ..t },
                )
            }
        }),
{
    if dismount {
        state.arena.get_mut_creation(x, y).moves_left = 0;
        PieceAction::WalkWizard
    } else {
        state.arena.get_mut_wizard(x, y).moves_left = 0;
        if state.arena.get_creation(x, y).stats.flying {
            PieceAction::FlyCreation
        } else {
            PieceAction::WalkCreation
        }
    }
}

/// Whether the wizard of `id` stands at (x, y) and nowhere else on the board.
pub fn sole_wizard_at(arena: &Arena, id: u32, x: u8, y: u8) -> (r: bool)
    requires
        arena.wf(),
        on_board(x as int, y as int),
    ensures
        r == (has_wizard_of(arena.tile(x as int, y as int), id) && sole_wizard(*arena, id, index_of(x as int, y as int))),
{
    let p = (y as usize) * 15 + (x as usize);
    let mut i: usize = 0;
    while i < 150
        invariant
            arena.wf(),
            p == index_of(x as int, y as int),
            i <= 150,
            forall|j: int| 0 <= j < i && j != p ==> !has_wizard_of(#[trigger] arena.tiles@[j], id),
        decreases 150 - i,
    {
        if i != p {
            let other = match &arena.tiles[i].wizard {
                Some(w) => w.id == id,
                None => false,
            };
            if other {
                return false;
            }
        }
        i = i + 1;
    }
    match &arena.get(x, y).wizard {
        Some(w) => w.id == id,
        None => false,
    }
}

} // verus!
