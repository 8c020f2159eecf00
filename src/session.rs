use crate::error::ChaosError;
use crate::rules::{Event, ServerState};
use crate::arena::{Arena, Tile, has_wizard_of, index_of};
use crate::spells::{Spell, is_disbelieve};
use crate::stats::WizardStats;
use crate::wizard::{GameWizard, LobbyWizard, LobbyWizards, Player, ServerWizards, Wizard, active_ids, hand_has, ids_increasing};
use vstd::prelude::*;

verus! {

/// What reaches the engine from the connections.
#[derive(Clone, Debug)]
pub enum Inbound {
    Connected { id: u32 },
    Disconnected { id: u32 },
    Join { id: u32, player: Player },
    Ready { id: u32, ready: bool },
    /// A spell picked by its place in the hand (0 is disbelieve), with the
    /// illusion flag; none to cast nothing.
    ChosenSpell { id: u32, choice: Option<(u32, bool)> },
    /// A tile picked by its place in the list last offered; none to pick nothing.
    ChosenTile { id: u32, tile: Option<u32> },
    Dismount { id: u32, dismount: Option<bool> },
}

/// The lobby after `join`: the new player, not ready, in its place by id,
/// replacing any entry of the same id.
pub open spec fn joined(old: Seq<LobbyWizard>, new: Seq<LobbyWizard>, id: u32, player: Player) -> bool {
    exists|i: int|
        0 <= i <= old.len() && (if i < old.len() && old[i].id == id {
            new == old.update(i, LobbyWizard { player, id, ready: false })
        } else {
            new == old.insert(i, LobbyWizard { player, id, ready: false })
        })
}

/// The lobby after `ready`: the player's flag set, or nothing for an unknown id.
pub open spec fn readied(old: Seq<LobbyWizard>, new: Seq<LobbyWizard>, id: u32, ready: bool) -> bool {
    if exists|i: int| 0 <= i < old.len() && #[trigger] old[i].id == id {
        exists|i: int| 0 <= i < old.len() && old[i].id == id && new == old.update(i, LobbyWizard { ready, ..old[i] })
    } else {
        new == old
    }
}

/// One message handled by the lobby. A join, leave or ready that changes the
/// lobby is announced; a newcomer is sent the lobby. The second result is true
/// once at least two players are in and all of them are ready.
pub fn lobby_step(lobby: &mut LobbyWizards, msg: Inbound) -> (r: (Vec<Event>, bool))
    requires
        old(lobby).wf(),
    ensures
        final(lobby).wf(),
        match msg {
            Inbound::Join { id, player } => (r.1 == false) && (old(lobby)@.len() >= 8 ==> final(lobby)@ == old(lobby)@ && r.0@.len() == 0)
                && (old(lobby)@.len() < 8 ==> r.0@ == seq![Event::Join { id, player }] && joined(old(lobby)@, final(lobby)@, id, player)),
            Inbound::Ready { id, ready } => r.1 == ((exists|i: int| 0 <= i < old(lobby)@.len() && #[trigger] old(lobby)@[i].id == id)
                && final(lobby)@.len() >= 2 && forall|i: int| 0 <= i < final(lobby)@.len() ==> #[trigger] final(lobby)@[i].ready)
                && readied(old(lobby)@, final(lobby)@, id, ready),
            Inbound::Connected { id } => final(lobby)@ == old(lobby)@ && !r.1 && r.0@ == seq![Event::Welcome { to: id }],
            Inbound::Disconnected { id } => !r.1 && if exists|i: int| 0 <= i < old(lobby)@.len() && #[trigger] old(lobby)@[i].id == id {
                r.0@ == seq![Event::Leave { id }] && exists|i: int|
                    0 <= i < old(lobby)@.len() && old(lobby)@[i].id == id && final(lobby)@ == old(lobby)@.remove(i)
            } else {
                final(lobby)@ == old(lobby)@ && r.0@.len() == 0
            },
            _ => final(lobby)@ == old(lobby)@ && !r.1 && r.0@.len() == 0,
        },
{
    let mut events: Vec<Event> = Vec::new();
    match msg {
        Inbound::Connected { id } => {
            events.push(Event::Welcome { to: id });
            (events, false)
        },
        Inbound::Disconnected { id } => {
            match lobby.leave(id) {
                Some(_) => {
                    events.push(Event::Leave { id });
                    assert(events@ =~= seq![Event::Leave { id }]);
                },
                None => {},
            }
            (events, false)
        },
        Inbound::Join { id, player } => {
            let announced = player.duplicate();
            if lobby.join(id, player) {
                events.push(Event::Join { id, player: announced });
                assert(events@ =~= seq![Event::Join { id, player: announced }]);
            }
            (events, false)
        },
        Inbound::Ready { id, ready } => {
            if lobby.ready(id, ready) {
                events.push(Event::Ready { id, ready });
                let start = lobby.is_ready();
                (events, start)
            } else {
                (events, false)
            }
        },
        _ => (events, false),
    }
}

/// The ids in a sorted list strictly increase.
pub open spec fn strictly_increasing(s: Seq<u32>) -> bool {
    forall|i: int, j: int| 0 <= i < j < s.len() ==> #[trigger] s[i] < #[trigger] s[j]
}

pub open spec fn choice_ids(s: Seq<(u32, Spell, bool)>) -> Seq<u32> {
    s.map_values(|c: (u32, Spell, bool)| c.0)
}


/// `new` is `old` without the id `id`, which `old` held once.
pub open spec fn left_without(old: Seq<u32>, new: Seq<u32>, id: u32) -> bool {
    &&& new.len() + 1 == old.len()
    &&& !new.contains(id)
    &&& forall|v: u32| #[trigger] new.contains(v) <==> (old.contains(v) && v != id)
}

/// `new` is `old` with one more answer, from `id`, at some place.
pub open spec fn answer_added(old: Seq<(u32, Spell, bool)>, new: Seq<(u32, Spell, bool)>, id: u32) -> bool {
    exists|i: int| 0 <= i <= old.len() && new == old.insert(i, new[i]) && new[i].0 == id
}

/// The roster after `set_disconnected(id)`: that wizard marked, if it is there.
pub open spec fn marked_disconnected(old: Seq<Wizard>, new: Seq<Wizard>, id: u32) -> bool {
    if exists|i: int| 0 <= i < old.len() && #[trigger] old[i].id == id {
        exists|i: int| 0 <= i < old.len() && old[i].id == id && new == old.update(i, Wizard { disconnected: true, ..old[i] })
    } else {
        new == old
    }
}

/// The board position of the first wizard of `id`.
pub open spec fn first_wizard_index(a: Arena, id: u32) -> int {
    choose|p: int| 0 <= p < 150 && has_wizard_of(a.tiles@[p], id) && forall|j: int| 0 <= j < p ==> !has_wizard_of(#[trigger] a.tiles@[j], id)
}

/// A tile whose wizard counts one spell less, not going below none.
pub open spec fn spent_tile(t: Tile) -> Tile {
    let w = t.wizard->0;
    let n = w.stats.number_of_spells;
    Tile {
        wizard: Some(GameWizard { stats: WizardStats { number_of_spells: if n > 0 { (n - 1) as u8 } else { 0 }, ..w.stats }, ..w }),
        ..t
    }
}

/// The board after a spell left the hand of `id`: the first wizard of `id` on it,
/// if any, counts one spell less; nothing else changes.
pub open spec fn one_spell_spent(before: Arena, after: Arena, id: u32) -> bool {
    &&& after.wf()
    &&& after.alignment == before.alignment
    &&& forall|j: int| 0 <= j < 150 ==> #[trigger] after.tiles@[j] == before.tiles@[j] || (j == first_wizard_index(before, id)
        && after.tiles@[j] == spent_tile(before.tiles@[j]))
}

pub proof fn lemma_first_wizard(a: Arena, id: u32, p: int)
    requires
        0 <= p < 150,
        has_wizard_of(a.tiles@[p], id),
        forall|j: int| 0 <= j < p ==> !has_wizard_of(#[trigger] a.tiles@[j], id),
    ensures
        first_wizard_index(a, id) == p,
{
    let q = first_wizard_index(a, id);
    assert(0 <= q < 150 && has_wizard_of(a.tiles@[q], id) && forall|j: int| 0 <= j < q ==> !has_wizard_of(#[trigger] a.tiles@[j], id));
    if q < p {
        assert(!has_wizard_of(a.tiles@[q], id));
    } else if q > p {
        assert(!has_wizard_of(a.tiles@[p], id));
    }
}

proof fn lemma_only_answer(old: Seq<(u32, Spell, bool)>, new: Seq<(u32, Spell, bool)>, id: u32, spell: Spell, illusion: bool)
    requires
        !choice_ids(old).contains(id),
        exists|i: int| 0 <= i <= old.len() && new == old.insert(i, (id, spell, illusion)),
    ensures
        answer_added(old, new, id),
        forall|m: int| 0 <= m < new.len() && (#[trigger] new[m]).0 == id ==> new[m].1 == spell && new[m].2 == illusion,
{
    let i = choose|i: int| 0 <= i <= old.len() && new == old.insert(i, (id, spell, illusion));
    assert(new[i] == (id, spell, illusion));
    assert(new == old.insert(i, new[i]));
    assert forall|m: int| 0 <= m < new.len() && (#[trigger] new[m]).0 == id implies new[m].1 == spell && new[m].2 == illusion by {
        if m < i {
            assert(new[m] == old[m]);
            assert(choice_ids(old)[m] == id);
        } else if m > i {
            assert(new[m] == old[m - 1]);
            assert(choice_ids(old)[m - 1] == id);
        }
    }
}

/// The spell-selection phase of a round: every player still in the match picks a
/// spell at the same time; the phase is over once each has answered or left.
pub struct SpellSelection {
    /// The players who have not answered yet, in increasing order.
    pub left: Vec<u32>,
    /// The answers so far, in increasing order of player.
    pub chosen: Vec<(u32, Spell, bool)>,
}

impl SpellSelection {
    pub open spec fn wf(&self) -> bool {
        strictly_increasing(self.left@) && strictly_increasing(choice_ids(self.chosen@))
    }

    /// Opens the phase: every player alive and connected is asked for a spell.
    pub fn new(wizards: &ServerWizards) -> (r: (SpellSelection, Vec<Event>))
        requires
            wizards.wf(),
        ensures
            r.0.wf(),
            r.0.left@ == active_ids(wizards@),
            r.0.chosen@.len() == 0,
            r.1@.len() == r.0.left@.len() + 1,
            r.1@[0] == (Event::WaitingForOtherPlayers { count: r.0.left@.len() as u32 }),
            forall|i: int| 0 <= i < r.0.left@.len() ==> #[trigger] r.1@[i + 1] == (Event::ChooseSpell { id: r.0.left@[i] }),
    {
        let left = wizards.all_active_ids();
        proof {
            lemma_active_ids_increasing(wizards@);
            crate::wizard::lemma_winners_count(wizards@);
        }
        let mut events: Vec<Event> = Vec::new();
        events.push(Event::WaitingForOtherPlayers { count: left.len() as u32 });
        let mut i: usize = 0;
        while i < left.len()
            invariant
                i <= left@.len(),
                events@.len() == i + 1,
                events@[0] == (Event::WaitingForOtherPlayers { count: left@.len() as u32 }),
                forall|j: int| 0 <= j < i ==> #[trigger] events@[j + 1] == (Event::ChooseSpell { id: left@[j] }),
            decreases left@.len() - i,
        {
            events.push(Event::ChooseSpell { id: left[i] });
            i = i + 1;
        }
        let chosen: Vec<(u32, Spell, bool)> = Vec::new();
        assert(choice_ids(chosen@) =~= Seq::<u32>::empty());
        (SpellSelection { left, chosen }, events)
    }

    /// The phase is over: nobody is left to answer.
    pub fn done(&self) -> (r: bool)
        ensures
            r == (self.left@.len() == 0),
    {
        self.left.len() == 0
    }

    fn find_left(&self, id: u32) -> (r: Option<usize>)
        ensures
            match r {
                Some(i) => i < self.left@.len() && self.left@[i as int] == id,
                None => !self.left@.contains(id),
            },
    {
        let mut i: usize = 0;
        while i < self.left.len()
            invariant
                i <= self.left@.len(),
                forall|j: int| 0 <= j < i ==> #[trigger] self.left@[j] != id,
            decreases self.left@.len() - i,
        {
            if self.left[i] == id {
                return Some(i);
            }
            i = i + 1;
        }
        None
    }

    fn record(&mut self, id: u32, spell: Spell, illusion: bool)
        requires
            old(self).wf(),
            !choice_ids(old(self).chosen@).contains(id),
        ensures
            final(self).wf(),
            final(self).left@ == old(self).left@,
            forall|v: u32|
                #[trigger] choice_ids(final(self).chosen@).contains(v) <==> (choice_ids(old(self).chosen@).contains(v)
                    || v == id),
            final(self).chosen@.len() == old(self).chosen@.len() + 1,
            exists|i: int|
                0 <= i <= old(self).chosen@.len() && final(self).chosen@ == old(self).chosen@.insert(i, (id, spell, illusion)),
    {
        let mut i: usize = 0;
        while i < self.chosen.len() && self.chosen[i].0 < id
            invariant
                i <= self.chosen@.len(),
                self.chosen@ == old(self).chosen@,
                forall|j: int| 0 <= j < i ==> #[trigger] self.chosen@[j].0 < id,
            decreases self.chosen@.len() - i,
        {
            i = i + 1;
        }
        let ghost before = self.chosen@;
        self.chosen.insert(i, (id, spell, illusion));
        proof {
            let ids = choice_ids(self.chosen@);
            let old_ids = choice_ids(before);
            assert(ids =~= old_ids.insert(i as int, id));
            if i < before.len() {
                assert(before[i as int].0 != id) by {
                    assert(old_ids[i as int] == before[i as int].0);
                }
                assert(before[i as int].0 > id);
            }
            assert forall|a: int, b: int| 0 <= a < b < ids.len() implies #[trigger] ids[a] < #[trigger] ids[b] by {
                if b < i {
                    assert(ids[a] == old_ids[a] && ids[b] == old_ids[b]);
                } else if b == i {
                    assert(ids[a] == old_ids[a]);
                    assert(before[a].0 < id);
                } else if a == i {
                    assert(ids[b] == old_ids[b - 1]);
                    assert(old_ids[i as int] <= old_ids[b - 1]);
                } else if a < i {
                    assert(ids[a] == old_ids[a] && ids[b] == old_ids[b - 1]);
                } else {
                    assert(ids[a] == old_ids[a - 1] && ids[b] == old_ids[b - 1]);
                }
            }
            assert(ids.to_set() =~= old_ids.to_set().insert(id)) by {
                assert forall|v: u32| ids.to_set().contains(v) <==> old_ids.to_set().insert(id).contains(v) by {
                    if ids.contains(v) {
                        let k = choose|k: int| 0 <= k < ids.len() && ids[k] == v;
                        if k < i {
                            assert(old_ids[k] == v);
                        } else if k > i {
                            assert(old_ids[k - 1] == v);
                        }
                    }
                    if old_ids.contains(v) {
                        let k = choose|k: int| 0 <= k < old_ids.len() && old_ids[k] == v;
                        if k < i {
                            assert(ids[k] == v);
                        } else {
                            assert(ids[k + 1] == v);
                        }
                    }
                    if v == id {
                        assert(ids[i as int] == id);
                    }
                }
            }
            assert forall|v: u32| #[trigger] ids.contains(v) <==> (old_ids.contains(v) || v == id) by {
                assert(ids.to_set().contains(v) == ids.contains(v));
                assert(old_ids.to_set().contains(v) == old_ids.contains(v));
            }
        }
    }

    /// Handles one message during the phase. Only a player still to answer is
    /// heard: a disconnection counts as an answer without a spell and marks the
    /// player disconnected; picking disbelieve (place 0) keeps it in the hand;
    /// picking another spell takes it out of the hand and counts one spell less on
    /// the board. Anything from a player who already answered or left is ignored.
    /// A place past the hand is an error of the game, and changes nothing.
    pub fn step(&mut self, state: &mut ServerState, msg: Inbound) -> (r: Result<Vec<Event>, ChaosError>)
        requires
            old(self).wf(),
            old(state).wf(),
            forall|i: int| 0 <= i < old(self).left@.len() ==> !choice_ids(old(self).chosen@).contains(#[trigger] old(self).left@[i]),
        ensures
            final(self).wf(),
            final(state).wf(),
            forall|i: int| 0 <= i < final(self).left@.len() ==> !choice_ids(final(self).chosen@).contains(#[trigger] final(self).left@[i]),
            forall|v: u32| #[trigger] final(self).left@.contains(v) ==> old(self).left@.contains(v),
            match msg {
                Inbound::Disconnected { id } => if old(self).left@.contains(id) {
                    &&& r is Ok
                    &&& left_without(old(self).left@, final(self).left@, id)
                    &&& final(self).chosen@ == old(self).chosen@
                    &&& final(state).arena == old(state).arena
                    &&& marked_disconnected(old(state).wizards@, final(state).wizards@, id)
                } else {
                    r is Ok && r->Ok_0@.len() == 0 && *final(self) == *old(self) && final(state).arena == old(state).arena
                        && final(state).wizards@ == old(state).wizards@
                },
                Inbound::ChosenSpell { id, choice } => if !old(self).left@.contains(id) {
                    r is Ok && r->Ok_0@.len() == 0 && *final(self) == *old(self) && final(state).arena == old(state).arena
                        && final(state).wizards@ == old(state).wizards@
                } else {
                    match choice {
                        None => {
                            &&& r is Ok
                            &&& left_without(old(self).left@, final(self).left@, id)
                            &&& final(self).chosen@ == old(self).chosen@
                            &&& final(state).arena == old(state).arena
                            &&& final(state).wizards@ == old(state).wizards@
                        },
                        Some((k, illusion)) => if k == 0 {
                            &&& r is Ok
                            &&& left_without(old(self).left@, final(self).left@, id)
                            &&& answer_added(old(self).chosen@, final(self).chosen@, id)
                            &&& forall|m: int| 0 <= m < final(self).chosen@.len() && (#[trigger] final(self).chosen@[m]).0 == id
                                ==> is_disbelieve(final(self).chosen@[m].1) && !final(self).chosen@[m].2
                            &&& final(state).arena == old(state).arena
                            &&& final(state).wizards@ == old(state).wizards@
                        } else if hand_has(old(state).wizards@, id, k as int) {
                            &&& r is Ok
                            &&& left_without(old(self).left@, final(self).left@, id)
                            &&& answer_added(old(self).chosen@, final(self).chosen@, id)
                            &&& exists|j: int| 0 <= j < old(state).wizards@.len() && old(state).wizards@[j].id == id && ({
                                let hand = old(state).wizards@[j].spells@;
                                &&& final(state).wizards@ == old(state).wizards@.update(j, Wizard { spells: final(state).wizards@[j].spells, ..old(state).wizards@[j] })
                                &&& final(state).wizards@[j].spells@ == hand.remove(k as int)
                                &&& forall|m: int| 0 <= m < final(self).chosen@.len() && (#[trigger] final(self).chosen@[m]).0 == id
                                    ==> final(self).chosen@[m].1 == hand[k as int] && final(self).chosen@[m].2 == illusion
                            })
                            &&& one_spell_spent(old(state).arena, final(state).arena, id)
                        } else {
                            r == Err::<Vec<Event>, ChaosError>(ChaosError::GameError) && *final(self) == *old(self)
                                && final(state).arena == old(state).arena && final(state).wizards@ == old(state).wizards@
                        },
                    }
                },
                _ => r is Ok && r->Ok_0@.len() == 0 && *final(self) == *old(self) && final(state).arena == old(state).arena
                    && final(state).wizards@ == old(state).wizards@,
            },
    {
        let mut events: Vec<Event> = Vec::new();
        match msg {
            Inbound::Disconnected { id } => {
                match self.find_left(id) {
                    Some(i) => {
                        self.remove_left(i);
                        events.push(Event::WaitingForOtherPlayers { count: self.left.len() as u32 });
                        let marked = state.wizards.set_disconnected(id);
                        proof {
                            if marked is Err {
                                assert(!exists|j: int| 0 <= j < old(state).wizards@.len() && #[trigger] old(state).wizards@[j].id == id);
                            }
                        }
                        Ok(events)
                    },
                    None => Ok(events),
                }
            },
            Inbound::ChosenSpell { id, choice } => {
                let i = match self.find_left(id) {
                    Some(i) => i,
                    None => {
                        return Ok(events);
                    },
                };
                match choice {
                    None => {
                        self.remove_left(i);
                        events.push(Event::WaitingForOtherPlayers { count: self.left.len() as u32 });
                        Ok(events)
                    },
                    Some((index, illusion)) => {
                        let spell = if index == 0 {
                            Spell::disbelieve()
                        } else {
                            match state.wizards.take_spell(id, index as usize) {
                                Some(sp) => sp,
                                None => {
                                    return Err(ChaosError::GameError);
                                },
                            }
                        };
                        let illusion = if index == 0 { false } else { illusion };
                        if index != 0 {
                            match state.arena.maybe_find_wizard_pos(id) {
                                Some((x, y)) => {
                                    let ghost before = state.arena;
                                    let w = state.arena.get_mut_wizard(x, y);
                                    if w.stats.number_of_spells > 0 {
                                        w.stats.number_of_spells = w.stats.number_of_spells - 1;
                                    }
                                    let stats = w.stats.duplicate();
                                    events.push(Event::DeBuffWizard { id, stats });
                                    proof {
                                        let p = index_of(x as int, y as int);
                                        assert forall|j: int| 0 <= j < 150 implies #[trigger] state.arena.tiles@[j] == before.tiles@[j]
                                            || (j == first_wizard_index(before, id) && state.arena.tiles@[j] == spent_tile(before.tiles@[j])) by {
                                            if j == p {
                                                lemma_first_wizard(before, id, p);
                                            }
                                        }
                                    }
                                },
                                None => {},
                            }
                        }
                        self.remove_left(i);
                        events.push(Event::WaitingForOtherPlayers { count: self.left.len() as u32 });
                        let ghost mid = self.chosen@;
                        self.record(id, spell, illusion);
                        assert forall|k: int| 0 <= k < self.left@.len() implies !choice_ids(self.chosen@).contains(
                            #[trigger] self.left@[k],
                        ) by {
                            assert(!choice_ids(mid).contains(self.left@[k]));
                            assert(self.left@[k] != id);
                        }
                        proof {
                            lemma_only_answer(mid, self.chosen@, id, spell, illusion);
                        }
                        Ok(events)
                    },
                }
            },
            _ => Ok(events),
        }
    }

    fn remove_left(&mut self, i: usize)
        requires
            old(self).wf(),
            i < old(self).left@.len(),
            forall|k: int| 0 <= k < old(self).left@.len() ==> !choice_ids(old(self).chosen@).contains(#[trigger] old(self).left@[k]),
        ensures
            final(self).wf(),
            final(self).chosen@ == old(self).chosen@,
            final(self).left@ == old(self).left@.remove(i as int),
            !final(self).left@.contains(old(self).left@[i as int]),
            left_without(old(self).left@, final(self).left@, old(self).left@[i as int]),
            !choice_ids(final(self).chosen@).contains(old(self).left@[i as int]),
            forall|k: int| 0 <= k < final(self).left@.len() ==> !choice_ids(final(self).chosen@).contains(#[trigger] final(self).left@[k]),
            forall|v: u32| #[trigger] final(self).left@.contains(v) ==> old(self).left@.contains(v),
    {
        let ghost before = self.left@;
        let id = self.left.remove(i);
        proof {
            assert forall|a: int, b: int| 0 <= a < b < self.left@.len() implies #[trigger] self.left@[a] < #[trigger] self.left@[b] by {
                if b < i {
                } else if a < i {
                    assert(self.left@[b] == before[b + 1]);
                } else {
                    assert(self.left@[a] == before[a + 1] && self.left@[b] == before[b + 1]);
                }
            }
            assert forall|k: int| 0 <= k < self.left@.len() implies self.left@[k] != id by {
                if k < i {
                    assert(before[k] < before[i as int]);
                } else {
                    assert(self.left@[k] == before[k + 1]);
                    assert(before[i as int] < before[k + 1]);
                }
            }
            assert forall|v: u32| #[trigger] self.left@.contains(v) <==> (before.contains(v) && v != id) by {
                if before.contains(v) && v != id {
                    let k = choose|k: int| 0 <= k < before.len() && before[k] == v;
                    if k < i {
                        assert(self.left@[k] == v);
                    } else {
                        assert(k != i);
                        assert(self.left@[k - 1] == v);
                    }
                }
            }
            assert forall|v: u32| #[trigger] self.left@.contains(v) implies before.contains(v) by {
                let k = choose|k: int| 0 <= k < self.left@.len() && self.left@[k] == v;
                if k < i {
                    assert(before[k] == v);
                } else {
                    assert(before[k + 1] == v);
                }
            }
            assert forall|k: int| 0 <= k < self.left@.len() implies !choice_ids(self.chosen@).contains(#[trigger] self.left@[k]) by {
                if k < i {
                    assert(self.left@[k] == before[k]);
                } else {
                    assert(self.left@[k] == before[k + 1]);
                }
            }
        }
    }

    /// The answers, in increasing order of player, ready to be resolved.
    pub fn finish(self) -> (r: Vec<(u32, Spell, bool)>)
        requires
            self.wf(),
        ensures
            strictly_increasing(choice_ids(r@)),
            r@ == self.chosen@,
    {
        self.chosen
    }
}

/// The ids of a roster's active wizards increase with the roster's ids.
pub proof fn lemma_active_ids_increasing(s: Seq<crate::wizard::Wizard>)
    requires
        ids_increasing(s),
    ensures
        strictly_increasing(active_ids(s)),
        forall|k: int| 0 <= k < active_ids(s).len() ==> exists|i: int| 0 <= i < s.len() && #[trigger] active_ids(s)[k] == s[i].id,
    decreases s.len(),
{
    if s.len() > 0 {
        let t = s.drop_last();
        assert(ids_increasing(t)) by {
            assert forall|i: int, j: int| 0 <= i < j < t.len() implies #[trigger] t[i].id < #[trigger] t[j].id by {
                assert(t[i] == s[i] && t[j] == s[j]);
            }
        }
        lemma_active_ids_increasing(t);
        let ids = active_ids(s);
        let tids = active_ids(t);
        assert forall|k: int| 0 <= k < ids.len() implies exists|i: int| 0 <= i < s.len() && #[trigger] ids[k] == s[i].id by {
            if k < tids.len() {
                let i = choose|i: int| 0 <= i < t.len() && tids[k] == t[i].id;
                assert(s[i] == t[i]);
            } else {
                assert(ids[k] == s[s.len() - 1].id);
            }
        }
        if crate::wizard::is_active(s.last()) {
            assert forall|a: int, b: int| 0 <= a < b < ids.len() implies #[trigger] ids[a] < #[trigger] ids[b] by {
                if b < tids.len() {
                } else {
                    let i = choose|i: int| 0 <= i < t.len() && tids[a] == t[i].id;
                    assert(s[i] == t[i]);
                    assert(s[i].id < s[s.len() - 1].id);
                }
            }
        }
    }
}

/// What came of waiting for one player's choice.
#[derive(Clone, Copy, Debug)]
pub enum Choice {
    /// Still waiting.
    Waiting,
    /// The player picked a tile, or none (also when it left).
    Chosen(Option<(u8, u8)>),
}

/// One message while waiting for the player `waiting` to pick one of `tiles`.
/// Any player's disconnection is recorded; the awaited player's ends the wait
/// with no choice. A pick by the awaited player of a listed tile, or of none,
/// ends the wait; a place past the list, and everything else, is ignored.
pub fn await_choice_step(wizards: &mut ServerWizards, waiting: u32, tiles: &Vec<(u8, u8)>, msg: &Inbound) -> (r: Choice)
    requires
        old(wizards).wf(),
    ensures
        final(wizards).wf(),
        match *msg {
            Inbound::Disconnected { id } => marked_disconnected(old(wizards)@, final(wizards)@, id) && r == (if id == waiting {
                Choice::Chosen(None)
            } else {
                Choice::Waiting
            }),
            Inbound::ChosenTile { id, tile } => final(wizards)@ == old(wizards)@ && r == (if id != waiting {
                Choice::Waiting
            } else {
                match tile {
                    None => Choice::Chosen(None),
                    Some(k) => if (k as int) < tiles@.len() { Choice::Chosen(Some(tiles@[k as int])) } else { Choice::Waiting },
                }
            }),
            _ => final(wizards)@ == old(wizards)@ && r == Choice::Waiting,
        },
{
    match msg {
        Inbound::Disconnected { id } => {
            let marked = wizards.set_disconnected(*id);
            proof {
                if marked is Err {
                    assert(!exists|j: int| 0 <= j < old(wizards)@.len() && #[trigger] old(wizards)@[j].id == *id);
                }
            }
            if *id == waiting {
                Choice::Chosen(None)
            } else {
                Choice::Waiting
            }
        },
        Inbound::ChosenTile { id, tile } => {
            if *id != waiting {
                return Choice::Waiting;
            }
            match tile {
                None => Choice::Chosen(None),
                Some(k) => {
                    if (*k as usize) < tiles.len() {
                        Choice::Chosen(Some(tiles[*k as usize]))
                    } else {
                        Choice::Waiting
                    }
                },
            }
        },
        _ => Choice::Waiting,
    }
}

/// What came of asking a player whether to dismount.
#[derive(Clone, Copy, Debug, PartialEq, Eq, Structural)]
pub enum DismountAnswer {
    Waiting,
    Answered(Option<bool>),
}

/// One message while waiting for the player `waiting` to say whether it dismounts.
pub fn dismount_step(wizards: &mut ServerWizards, waiting: u32, msg: &Inbound) -> (r: DismountAnswer)
    requires
        old(wizards).wf(),
    ensures
        final(wizards).wf(),
        match *msg {
            Inbound::Disconnected { id } => marked_disconnected(old(wizards)@, final(wizards)@, id) && r == (if id == waiting {
                DismountAnswer::Answered(None)
            } else {
                DismountAnswer::Waiting
            }),
            Inbound::Dismount { id, dismount } => final(wizards)@ == old(wizards)@ && r == (if id == waiting {
                DismountAnswer::Answered(dismount)
            } else {
                DismountAnswer::Waiting
            }),
            _ => final(wizards)@ == old(wizards)@ && r == DismountAnswer::Waiting,
        },
{
    match msg {
        Inbound::Disconnected { id } => {
            let marked = wizards.set_disconnected(*id);
            proof {
                if marked is Err {
                    assert(!exists|j: int| 0 <= j < old(wizards)@.len() && #[trigger] old(wizards)@[j].id == *id);
                }
            }
            if *id == waiting {
                DismountAnswer::Answered(None)
            } else {
                DismountAnswer::Waiting
            }
        },
        Inbound::Dismount { id, dismount } => {
            if *id == waiting {
                DismountAnswer::Answered(*dismount)
            } else {
                DismountAnswer::Waiting
            }
        },
        _ => DismountAnswer::Waiting,
    }
}

} // verus!
