use crate::color::Color;
use crate::error::NetworkError;
use crate::spells::{Spell, create_spells};
use crate::stats::{Frame, WizardStats, defence_of};
use vstd::prelude::*;

verus! {

#[derive(Clone, Copy, Debug, PartialEq, Eq, Structural)]
pub enum WizardCharacter {
    Jevarell,
    LargeFart,
    GreatFogey,
    Dyerarti,
    Gowin,
    Merlin,
    IlianRane,
    AsimonoZark,
}

#[derive(Clone, Copy, Debug, PartialEq, Eq, Structural)]
pub enum WizardColor {
    BrightRed,
    BrightMagenta,
    BrightGreen,
    BrightCyan,
    Yellow,
    BrightYellow,
    White,
    BrightWhite,
}

#[derive(Clone, Copy, Debug, PartialEq, Eq, Structural)]
pub enum WizardError {
    InvalidWizardCharacterValue,
    InvalidWizardColorValue,
}

/// The position of a character in the sprite sheet of characters.
pub open spec fn character_index(c: WizardCharacter) -> int {
    match c {
        WizardCharacter::Jevarell => 0,
        WizardCharacter::LargeFart => 1,
        WizardCharacter::GreatFogey => 2,
        WizardCharacter::Dyerarti => 3,
        WizardCharacter::Gowin => 4,
        WizardCharacter::Merlin => 5,
        WizardCharacter::IlianRane => 6,
        WizardCharacter::AsimonoZark => 7,
    }
}

pub open spec fn wizard_color_index(c: WizardColor) -> int {
    match c {
        WizardColor::BrightRed => 0,
        WizardColor::BrightMagenta => 1,
        WizardColor::BrightGreen => 2,
        WizardColor::BrightCyan => 3,
        WizardColor::Yellow => 4,
        WizardColor::BrightYellow => 5,
        WizardColor::White => 6,
        WizardColor::BrightWhite => 7,
    }
}

pub open spec fn palette_color(c: WizardColor) -> Color {
    match c {
        WizardColor::BrightRed => Color::BrightRed,
        WizardColor::BrightMagenta => Color::BrightMagenta,
        WizardColor::BrightGreen => Color::BrightGreen,
        WizardColor::BrightCyan => Color::BrightCyan,
        WizardColor::Yellow => Color::Yellow,
        WizardColor::BrightYellow => Color::BrightYellow,
        WizardColor::White => Color::White,
        WizardColor::BrightWhite => Color::BrightWhite,
    }
}

impl WizardCharacter {
    /// The character at a position of the sheet; other positions are rejected.
    pub fn try_from(value: isize) -> (r: Result<WizardCharacter, WizardError>)
        ensures
            0 <= value < 8 ==> r.is_ok() && character_index(r->Ok_0) == value,
            !(0 <= value < 8) ==> r == Err::<WizardCharacter, WizardError>(WizardError::InvalidWizardCharacterValue),
    {
        match value {
            0 => Ok(WizardCharacter::Jevarell),
            1 => Ok(WizardCharacter::LargeFart),
            2 => Ok(WizardCharacter::GreatFogey),
            3 => Ok(WizardCharacter::Dyerarti),
            4 => Ok(WizardCharacter::Gowin),
            5 => Ok(WizardCharacter::Merlin),
            6 => Ok(WizardCharacter::IlianRane),
            7 => Ok(WizardCharacter::AsimonoZark),
            _ => Err(WizardError::InvalidWizardCharacterValue),
        }
    }

    pub fn index(self) -> (r: usize)
        ensures
            r == character_index(self),
    {
        match self {
            WizardCharacter::Jevarell => 0,
            WizardCharacter::LargeFart => 1,
            WizardCharacter::GreatFogey => 2,
            WizardCharacter::Dyerarti => 3,
            WizardCharacter::Gowin => 4,
            WizardCharacter::Merlin => 5,
            WizardCharacter::IlianRane => 6,
            WizardCharacter::AsimonoZark => 7,
        }
    }

    /// The character's sprite, cut from a sheet of eight.
    pub fn as_bytes(self, sheet: &[[u8; 32]; 8]) -> (r: [u8; 32])
        ensures
            r == sheet@[character_index(self)],
    {
        sheet[self.index()]
    }
}

impl WizardColor {
    pub fn try_from(value: isize) -> (r: Result<WizardColor, WizardError>)
        ensures
            0 <= value < 8 ==> r.is_ok() && wizard_color_index(r->Ok_0) == value,
            !(0 <= value < 8) ==> r == Err::<WizardColor, WizardError>(WizardError::InvalidWizardColorValue),
    {
        match value {
            0 => Ok(WizardColor::BrightRed),
            1 => Ok(WizardColor::BrightMagenta),
            2 => Ok(WizardColor::BrightGreen),
            3 => Ok(WizardColor::BrightCyan),
            4 => Ok(WizardColor::Yellow),
            5 => Ok(WizardColor::BrightYellow),
            6 => Ok(WizardColor::White),
            7 => Ok(WizardColor::BrightWhite),
            _ => Err(WizardError::InvalidWizardColorValue),
        }
    }

    pub fn to_color(self) -> (r: Color)
        ensures
            r == palette_color(self),
    {
        match self {
            WizardColor::BrightRed => Color::BrightRed,
            WizardColor::BrightMagenta => Color::BrightMagenta,
            WizardColor::BrightGreen => Color::BrightGreen,
            WizardColor::BrightCyan => Color::BrightCyan,
            WizardColor::Yellow => Color::Yellow,
            WizardColor::BrightYellow => Color::BrightYellow,
            WizardColor::White => Color::White,
            WizardColor::BrightWhite => Color::BrightWhite,
        }
    }
}

/// A player's profile: a name, a character and a colour.
#[derive(Clone, Debug)]
pub struct Player {
    pub name: String,
    pub character: WizardCharacter,
    pub color: WizardColor,
}

impl Player {
    /// A field-for-field copy.
    pub fn duplicate(&self) -> (r: Player)
        ensures
            r == *self,
    {
        Player { name: self.name.clone(), character: self.character, color: self.color }
    }

    /// The player's sprite: its character drawn in its colour on no background.
    pub fn frame(&self, sheet: &[[u8; 32]; 8]) -> (r: Frame)
        ensures
            r.bytes == sheet@[character_index(self.character)],
            r.fg == palette_color(self.color),
            r.bg.is_none(),
    {
        Frame { bytes: self.character.as_bytes(sheet), fg: self.color.to_color(), bg: None }
    }
}

#[derive(Clone, Debug)]
pub struct LobbyWizard {
    pub player: Player,
    pub id: u32,
    pub ready: bool,
}

impl LobbyWizard {
    /// A field-for-field copy.
    pub fn duplicate(&self) -> (r: LobbyWizard)
        ensures
            r == *self,
    {
        LobbyWizard { player: self.player.duplicate(), id: self.id, ready: self.ready }
    }
}

/// A player in a running match, as the session keeps it.
#[derive(Clone, Debug)]
pub struct Wizard {
    pub player: Player,
    pub id: u32,
    pub alive: bool,
    pub disconnected: bool,
    pub spells: Vec<Spell>,
    pub stats: WizardStats,
}

impl Wizard {
    /// A new wizard for a player of the lobby: random stats of level 0 and a hand
    /// drawn from the book.
    pub fn from_lobby(wizard: LobbyWizard, sheet: &[[u8; 32]; 8], book: &Vec<Spell>) -> (r: Wizard)
        requires
            book.len() > 0,
        ensures
            r.player == wizard.player,
            r.id == wizard.id,
            r.alive,
            !r.disconnected,
            r.spells@.len() >= 1,
    {
        let frame = wizard.player.frame(sheet);
        let stats = WizardStats::new(wizard.player.name.clone(), frame, 0);
        let spells = create_spells(book, stats.number_of_spells);
        Wizard { player: wizard.player, id: wizard.id, alive: true, disconnected: false, spells, stats }
    }
}

/// Alive and still connected: a player who can still win.
pub open spec fn is_active(w: Wizard) -> bool {
    w.alive && !w.disconnected
}

/// The ids of a roster strictly increase.
pub open spec fn ids_increasing(s: Seq<Wizard>) -> bool {
    forall|i: int, j: int| 0 <= i < j < s.len() ==> #[trigger] s[i].id < #[trigger] s[j].id
}

pub open spec fn active_count(s: Seq<Wizard>) -> nat
    decreases s.len(),
{
    if s.len() == 0 {
        0
    } else {
        active_count(s.drop_last()) + if is_active(s.last()) { 1nat } else { 0nat }
    }
}

pub open spec fn active_ids(s: Seq<Wizard>) -> Seq<u32>
    decreases s.len(),
{
    if s.len() == 0 {
        seq![]
    } else if is_active(s.last()) {
        active_ids(s.drop_last()).push(s.last().id)
    } else {
        active_ids(s.drop_last())
    }
}

pub open spec fn active_players(s: Seq<Wizard>) -> Seq<Player>
    decreases s.len(),
{
    if s.len() == 0 {
        seq![]
    } else if is_active(s.last()) {
        active_players(s.drop_last()).push(s.last().player)
    } else {
        active_players(s.drop_last())
    }
}

/// Where the wizards of a match of `n` players start, in the order of their ids.
pub open spec fn starting_table(n: int) -> Seq<(u8, u8)> {
    if n == 2 {
        seq![(1u8, 4u8), (13u8, 4u8)]
    } else if n == 3 {
        seq![(7u8, 1u8), (1u8, 8u8), (13u8, 8u8)]
    } else if n == 4 {
        seq![(1u8, 1u8), (13u8, 1u8), (1u8, 8u8), (13u8, 8u8)]
    } else if n == 5 {
        seq![(7u8, 0u8), (0u8, 3u8), (14u8, 3u8), (3u8, 9u8), (11u8, 9u8)]
    } else if n == 6 {
        seq![(7u8, 0u8), (0u8, 1u8), (14u8, 1u8), (0u8, 8u8), (7u8, 9u8), (14u8, 8u8)]
    } else if n == 7 {
        seq![(7u8, 0u8), (1u8, 1u8), (13u8, 1u8), (0u8, 6u8), (14u8, 6u8), (4u8, 9u8), (10u8, 9u8)]
    } else {
        seq![(0u8, 0u8), (7u8, 0u8), (14u8, 0u8), (0u8, 4u8), (14u8, 4u8), (0u8, 9u8), (7u8, 9u8), (14u8, 9u8)]
    }
}

fn starting_table_exec(n: usize) -> (r: Vec<(u8, u8)>)
    requires
        2 <= n <= 8,
    ensures
        r@ == starting_table(n as int),
{
    let r = if n == 2 {
        vec![(1u8, 4u8), (13u8, 4u8)]
    } else if n == 3 {
        vec![(7u8, 1u8), (1u8, 8u8), (13u8, 8u8)]
    } else if n == 4 {
        vec![(1u8, 1u8), (13u8, 1u8), (1u8, 8u8), (13u8, 8u8)]
    } else if n == 5 {
        vec![(7u8, 0u8), (0u8, 3u8), (14u8, 3u8), (3u8, 9u8), (11u8, 9u8)]
    } else if n == 6 {
        vec![(7u8, 0u8), (0u8, 1u8), (14u8, 1u8), (0u8, 8u8), (7u8, 9u8), (14u8, 8u8)]
    } else if n == 7 {
        vec![(7u8, 0u8), (1u8, 1u8), (13u8, 1u8), (0u8, 6u8), (14u8, 6u8), (4u8, 9u8), (10u8, 9u8)]
    } else {
        vec![(0u8, 0u8), (7u8, 0u8), (14u8, 0u8), (0u8, 4u8), (14u8, 4u8), (0u8, 9u8), (7u8, 9u8), (14u8, 9u8)]
    };
    assert(r@ =~= starting_table(n as int));
    r
}

#[derive(Clone, Copy, Debug, PartialEq, Eq, Structural)]
pub enum ArenaError {
    InvalidNumPlayers,
}

/// The players of a running match, in increasing order of id.
pub struct ServerWizards {
    wizards: Vec<Wizard>,
}

impl View for ServerWizards {
    type V = Seq<Wizard>;

    closed spec fn view(&self) -> Seq<Wizard> {
        self.wizards@
    }
}

impl ServerWizards {
    pub open spec fn wf(&self) -> bool {
        ids_increasing(self@)
    }

    /// A roster of wizards given in increasing order of id.
    pub fn new(wizards: Vec<Wizard>) -> (r: ServerWizards)
        requires
            ids_increasing(wizards@),
        ensures
            r@ == wizards@,
            r.wf(),
    {
        ServerWizards { wizards }
    }

    fn position(&self, id: u32) -> (r: Option<usize>)
        ensures
            match r {
                Some(i) => i < self@.len() && self@[i as int].id == id,
                None => forall|j: int| 0 <= j < self@.len() ==> #[trigger] self@[j].id != id,
            },
    {
        let mut i: usize = 0;
        while i < self.wizards.len()
            invariant
                i <= self.wizards@.len(),
                forall|j: int| 0 <= j < i ==> #[trigger] self.wizards@[j].id != id,
            decreases self.wizards@.len() - i,
        {
            if self.wizards[i].id == id {
                return Some(i);
            }
            i = i + 1;
        }
        None
    }

    /// The wizard of the given id; an unknown id is an error.
    pub fn get(&self, id: u32) -> (r: Result<&Wizard, NetworkError>)
        ensures
            match r {
                Ok(w) => exists|i: int| 0 <= i < self@.len() && self@[i] == *w && w.id == id,
                Err(e) => e == NetworkError::GenericError && forall|i: int|
                    0 <= i < self@.len() ==> #[trigger] self@[i].id != id,
            },
    {
        match self.position(id) {
            Some(i) => Ok(&self.wizards[i]),
            None => Err(NetworkError::GenericError),
        }
    }

    pub fn has_disconnected(&self, id: u32) -> (r: Result<bool, NetworkError>)
        requires
            self.wf(),
        ensures
            match r {
                Ok(b) => exists|i: int| 0 <= i < self@.len() && self@[i].id == id && b == self@[i].disconnected,
                Err(e) => e == NetworkError::GenericError && forall|i: int|
                    0 <= i < self@.len() ==> #[trigger] self@[i].id != id,
            },
    {
        match self.get(id) {
            Ok(w) => Ok(w.disconnected),
            Err(e) => Err(e),
        }
    }

    pub fn is_alive(&self, id: u32) -> (r: Result<bool, NetworkError>)
        ensures
            match r {
                Ok(b) => exists|i: int| 0 <= i < self@.len() && self@[i].id == id && b == self@[i].alive,
                Err(e) => e == NetworkError::GenericError && forall|i: int|
                    0 <= i < self@.len() ==> #[trigger] self@[i].id != id,
            },
    {
        match self.get(id) {
            Ok(w) => Ok(w.alive),
            Err(e) => Err(e),
        }
    }

    /// Marks the wizard of the given id as disconnected.
    pub fn set_disconnected(&mut self, id: u32) -> (r: Result<(), NetworkError>)
        ensures
            match r {
                Ok(_) => exists|i: int|
                    0 <= i < old(self)@.len() && old(self)@[i].id == id && final(self)@ == old(self)@.update(
                        i,
                        Wizard { disconnected: true, ..old(self)@[i] },
                    ),
                Err(e) => e == NetworkError::GenericError && final(self)@ == old(self)@ && forall|i: int|
                    0 <= i < old(self)@.len() ==> #[trigger] old(self)@[i].id != id,
            },
    {
        match self.position(id) {
            Some(i) => {
                let w = &mut self.wizards[i];
                w.disconnected = true;
                Ok(())
            },
            None => Err(NetworkError::GenericError),
        }
    }

    /// Marks the wizard of the given id as dead.
    pub fn set_dead(&mut self, id: u32) -> (r: Result<(), NetworkError>)
        ensures
            match r {
                Ok(_) => exists|i: int|
                    0 <= i < old(self)@.len() && old(self)@[i].id == id && final(self)@ == old(self)@.update(
                        i,
                        Wizard { alive: false, ..old(self)@[i] },
                    ),
                Err(e) => e == NetworkError::GenericError && final(self)@ == old(self)@ && forall|i: int|
                    0 <= i < old(self)@.len() ==> #[trigger] old(self)@[i].id != id,
            },
    {
        match self.position(id) {
            Some(i) => {
                let w = &mut self.wizards[i];
                w.alive = false;
                Ok(())
            },
            None => Err(NetworkError::GenericError),
        }
    }

    /// Where each wizard starts: one place of the table for the number of players,
    /// taken in order of id. Matches of fewer than two or more than eight players
    /// are rejected.
    pub fn starting_positions(&self) -> (r: Result<Vec<(u8, u8, u32)>, ArenaError>)
        ensures
            match r {
                Ok(v) => 2 <= self@.len() <= 8 && v@.len() == self@.len() && forall|i: int|
                    0 <= i < v@.len() ==> #[trigger] v@[i] == (
                        starting_table(self@.len() as int)[i].0,
                        starting_table(self@.len() as int)[i].1,
                        self@[i].id,
                    ),
                Err(e) => e == ArenaError::InvalidNumPlayers && !(2 <= self@.len() <= 8),
            },
    {
        let n = self.wizards.len();
        if n < 2 || n > 8 {
            return Err(ArenaError::InvalidNumPlayers);
        }
        let table = starting_table_exec(n);
        let mut out: Vec<(u8, u8, u32)> = Vec::new();
        let mut i: usize = 0;
        while i < n
            invariant
                n == self.wizards@.len(),
                table@ == starting_table(n as int),
                table@.len() == n,
                i <= n,
                out@.len() == i,
                forall|j: int|
                    0 <= j < i ==> #[trigger] out@[j] == (table@[j].0, table@[j].1, self.wizards@[j].id),
            decreases n - i,
        {
            let (x, y) = table[i];
            out.push((x, y, self.wizards[i].id));
            i = i + 1;
        }
        Ok(out)
    }

    /// The ids of the wizards still alive and connected, in increasing order.
    pub fn all_active_ids(&self) -> (r: Vec<u32>)
        ensures
            r@ == active_ids(self@),
    {
        let mut out: Vec<u32> = Vec::new();
        let mut i: usize = 0;
        while i < self.wizards.len()
            invariant
                i <= self.wizards@.len(),
                out@ == active_ids(self.wizards@.subrange(0, i as int)),
            decreases self.wizards@.len() - i,
        {
            assert(self.wizards@.subrange(0, i + 1).drop_last() =~= self.wizards@.subrange(0, i as int));
            if self.wizards[i].alive && !self.wizards[i].disconnected {
                out.push(self.wizards[i].id);
            }
            i = i + 1;
        }
        assert(self.wizards@.subrange(0, self.wizards@.len() as int) =~= self.wizards@);
        out
    }

    /// The wizards, in increasing order of id.
    pub fn iter(&self) -> (r: &Vec<Wizard>)
        ensures
            r@ == self@,
    {
        &self.wizards
    }

    /// True when exactly one wizard is still alive and connected.
    pub fn check_for_winning_condition(&self) -> (r: bool)
        ensures
            r == (active_count(self@) == 1),
    {
        let mut count: usize = 0;
        let mut i: usize = 0;
        while i < self.wizards.len()
            invariant
                i <= self.wizards@.len(),
                count == active_count(self.wizards@.subrange(0, i as int)),
                count <= i,
            decreases self.wizards@.len() - i,
        {
            assert(self.wizards@.subrange(0, i + 1).drop_last() =~= self.wizards@.subrange(0, i as int));
            if self.wizards[i].alive && !self.wizards[i].disconnected {
                count = count + 1;
            }
            i = i + 1;
        }
        assert(self.wizards@.subrange(0, self.wizards@.len() as int) =~= self.wizards@);
        count == 1
    }

    /// The profiles of the wizards still alive and connected, in increasing order of id.
    pub fn winners(self) -> (r: Vec<Player>)
        ensures
            r@ == active_players(self@),
    {
        let mut out: Vec<Player> = Vec::new();
        let mut i: usize = 0;
        while i < self.wizards.len()
            invariant
                i <= self.wizards@.len(),
                out@ == active_players(self.wizards@.subrange(0, i as int)),
            decreases self.wizards@.len() - i,
        {
            assert(self.wizards@.subrange(0, i + 1).drop_last() =~= self.wizards@.subrange(0, i as int));
            if self.wizards[i].alive && !self.wizards[i].disconnected {
                out.push(self.wizards[i].player.duplicate());
            }
            i = i + 1;
        }
        assert(self.wizards@.subrange(0, self.wizards@.len() as int) =~= self.wizards@);
        out
    }

    pub fn len(&self) -> (r: usize)
        ensures
            r == self@.len(),
    {
        self.wizards.len()
    }
}

/// With exactly one wizard alive and connected, the winners are that wizard's
/// player alone.
pub proof fn lemma_single_winner(s: Seq<Wizard>)
    requires
        active_count(s) == 1,
    ensures
        active_players(s).len() == 1,
        exists|i: int| 0 <= i < s.len() && is_active(s[i]) && active_players(s)[0] == s[i].player,
    decreases s.len(),
{
    if s.len() > 0 {
        let t = s.drop_last();
        if is_active(s.last()) {
            lemma_no_active_players(t);
            assert(s[s.len() - 1] == s.last());
        } else {
            lemma_single_winner(t);
            let i = choose|i: int| 0 <= i < t.len() && is_active(t[i]) && active_players(t)[0] == t[i].player;
            assert(s[i] == t[i]);
        }
    }
}

/// Without an active wizard the winner list is empty.
pub proof fn lemma_no_active_players(s: Seq<Wizard>)
    requires
        active_count(s) == 0,
    ensures
        active_players(s).len() == 0,
    decreases s.len(),
{
    if s.len() > 0 {
        lemma_no_active_players(s.drop_last());
    }
}

/// The winner list holds one profile for each wizard alive and connected.
pub proof fn lemma_winners_count(s: Seq<Wizard>)
    ensures
        active_players(s).len() == active_count(s),
        active_ids(s).len() == active_count(s),
    decreases s.len(),
{
    if s.len() > 0 {
        lemma_winners_count(s.drop_last());
    }
}

/// The ids of a lobby strictly increase.
pub open spec fn lobby_ids_increasing(s: Seq<LobbyWizard>) -> bool {
    forall|i: int, j: int| 0 <= i < j < s.len() ==> #[trigger] s[i].id < #[trigger] s[j].id
}

/// The players gathering before a match: at most eight, one entry per connection id.
pub struct LobbyWizards {
    players: Vec<LobbyWizard>,
}

impl View for LobbyWizards {
    type V = Seq<LobbyWizard>;

    closed spec fn view(&self) -> Seq<LobbyWizard> {
        self.players@
    }
}

impl LobbyWizards {
    pub open spec fn wf(&self) -> bool {
        lobby_ids_increasing(self@)
    }

    pub fn new() -> (r: LobbyWizards)
        ensures
            r@ == Seq::<LobbyWizard>::empty(),
            r.wf(),
    {
        LobbyWizards { players: Vec::new() }
    }

    /// The first place whose id is not below `id`.
    fn lower_bound(&self, id: u32) -> (r: usize)
        requires
            self.wf(),
        ensures
            r <= self@.len(),
            forall|j: int| 0 <= j < r ==> #[trigger] self@[j].id < id,
            r < self@.len() ==> self@[r as int].id >= id,
    {
        let mut i: usize = 0;
        while i < self.players.len() && self.players[i].id < id
            invariant
                i <= self.players@.len(),
                forall|j: int| 0 <= j < i ==> #[trigger] self.players@[j].id < id,
            decreases self.players@.len() - i,
        {
            i = i + 1;
        }
        i
    }

    /// Takes a player into the lobby, not yet ready, unless it is full (eight
    /// players). A player who joins again under the same id is replaced.
    pub fn join(&mut self, id: u32, player: Player) -> (r: bool)
        requires
            old(self).wf(),
        ensures
            final(self).wf(),
            r == (old(self)@.len() < 8),
            !r ==> final(self)@ == old(self)@,
            r ==> exists|i: int|
                0 <= i <= old(self)@.len() && (if i < old(self)@.len() && old(self)@[i].id == id {
                    final(self)@ == old(self)@.update(i, LobbyWizard { player, id, ready: false })
                } else {
                    final(self)@ == old(self)@.insert(i, LobbyWizard { player, id, ready: false })
                }),
    {
        if self.players.len() >= 8 {
            return false;
        }
        let i = self.lower_bound(id);
        let w = LobbyWizard { player, id, ready: false };
        if i < self.players.len() && self.players[i].id == id {
            self.players.set(i, w);
        } else {
            self.players.insert(i, w);
            assert forall|a: int, b: int| 0 <= a < b < self.players@.len() implies #[trigger] self.players@[a].id
                < #[trigger] self.players@[b].id by {
                if b < i {
                } else if a < i && b == i {
                } else if a < i {
                    assert(self.players@[b] == old(self)@[b - 1]);
                } else if a == i {
                    assert(self.players@[b] == old(self)@[b - 1]);
                } else {
                    assert(self.players@[b] == old(self)@[b - 1]);
                    assert(self.players@[a] == old(self)@[a - 1]);
                }
            }
        }
        true
    }

    /// Takes a player out of the lobby, handing back its entry.
    pub fn leave(&mut self, id: u32) -> (r: Option<LobbyWizard>)
        requires
            old(self).wf(),
        ensures
            final(self).wf(),
            match r {
                Some(w) => exists|i: int|
                    0 <= i < old(self)@.len() && old(self)@[i] == w && w.id == id && final(self)@ == old(
                        self,
                    )@.remove(i),
                None => final(self)@ == old(self)@ && forall|i: int|
                    0 <= i < old(self)@.len() ==> #[trigger] old(self)@[i].id != id,
            },
    {
        let i = self.lower_bound(id);
        if i < self.players.len() && self.players[i].id == id {
            let w = self.players.remove(i);
            assert forall|a: int, b: int| 0 <= a < b < self.players@.len() implies #[trigger] self.players@[a].id
                < #[trigger] self.players@[b].id by {
                if b < i {
                } else if a < i {
                    assert(self.players@[b] == old(self)@[b + 1]);
                } else {
                    assert(self.players@[b] == old(self)@[b + 1]);
                    assert(self.players@[a] == old(self)@[a + 1]);
                }
            }
            Some(w)
        } else {
            assert forall|j: int| 0 <= j < old(self)@.len() implies #[trigger] old(self)@[j].id != id by {
                if j > i {
                    assert(old(self)@[i as int].id < old(self)@[j].id);
                }
            }
            None
        }
    }

    /// Sets the ready flag of a player; false when no player has that id.
    pub fn ready(&mut self, id: u32, ready: bool) -> (r: bool)
        requires
            old(self).wf(),
        ensures
            final(self).wf(),
            r == exists|i: int| 0 <= i < old(self)@.len() && #[trigger] old(self)@[i].id == id,
            r ==> exists|i: int|
                0 <= i < old(self)@.len() && old(self)@[i].id == id && final(self)@ == old(self)@.update(
                    i,
                    LobbyWizard { ready, ..old(self)@[i] },
                ),
            !r ==> final(self)@ == old(self)@,
    {
        let i = self.lower_bound(id);
        if i < self.players.len() && self.players[i].id == id {
            let w = &mut self.players[i];
            w.ready = ready;
            true
        } else {
            assert forall|j: int| 0 <= j < old(self)@.len() implies #[trigger] old(self)@[j].id != id by {
                if j > i {
                    assert(old(self)@[i as int].id < old(self)@[j].id);
                }
            }
            false
        }
    }

    /// The players, in increasing order of id.
    pub fn players(&self) -> (r: Vec<LobbyWizard>)
        ensures
            r@ == self@,
    {
        let mut out: Vec<LobbyWizard> = Vec::new();
        let mut i: usize = 0;
        while i < self.players.len()
            invariant
                i <= self.players@.len(),
                out@ == self.players@.subrange(0, i as int),
            decreases self.players@.len() - i,
        {
            out.push(self.players[i].duplicate());
            i = i + 1;
            assert(out@ =~= self.players@.subrange(0, i as int));
        }
        assert(out@ =~= self.players@);
        out
    }

    pub fn len(&self) -> (r: usize)
        ensures
            r == self@.len(),
    {
        self.players.len()
    }

    /// The match can start: at least two players, all of them ready.
    pub fn is_ready(&self) -> (r: bool)
        ensures
            r == (self@.len() >= 2 && forall|i: int| 0 <= i < self@.len() ==> #[trigger] self@[i].ready),
    {
        if self.players.len() < 2 {
            return false;
        }
        let mut i: usize = 0;
        while i < self.players.len()
            invariant
                i <= self.players@.len(),
                forall|j: int| 0 <= j < i ==> #[trigger] self.players@[j].ready,
            decreases self.players@.len() - i,
        {
            if !self.players[i].ready {
                return false;
            }
            i = i + 1;
        }
        true
    }
}

impl ServerWizards {
    /// The roster of a match, made from the lobby: one new wizard per player, in
    /// increasing order of id.
    pub fn from_lobby(lobby: &LobbyWizards, sheet: &[[u8; 32]; 8], book: &Vec<Spell>) -> (r: ServerWizards)
        requires
            lobby.wf(),
            book.len() > 0,
        ensures
            r.wf(),
            r@.len() == lobby@.len(),
            forall|i: int|
                0 <= i < r@.len() ==> (#[trigger] r@[i]).id == lobby@[i].id && r@[i].player == lobby@[i].player
                    && is_active(r@[i]),
    {
        let players = lobby.players();
        let mut wizards: Vec<Wizard> = Vec::new();
        let mut i: usize = 0;
        while i < players.len()
            invariant
                players@ == lobby@,
                lobby_ids_increasing(lobby@),
                book.len() > 0,
                i <= players@.len(),
                wizards@.len() == i,
                forall|j: int|
                    0 <= j < i ==> (#[trigger] wizards@[j]).id == lobby@[j].id && wizards@[j].player
                        == lobby@[j].player && is_active(wizards@[j]),
            decreases players@.len() - i,
        {
            let w = Wizard::from_lobby(players[i].duplicate(), sheet, book);
            wizards.push(w);
            i = i + 1;
        }
        assert(ids_increasing(wizards@)) by {
            assert forall|a: int, b: int| 0 <= a < b < wizards@.len() implies #[trigger] wizards@[a].id
                < #[trigger] wizards@[b].id by {
                assert(lobby@[a].id < lobby@[b].id);
            }
        }
        ServerWizards { wizards }
    }
}

/// A wizard on the board.
#[derive(Clone, Debug)]
pub struct GameWizard {
    pub id: u32,
    pub name: String,
    pub moves_left: u8,
    pub stats: WizardStats,
    pub frame_count: u8,
    pub current_frame: u8,
}

impl GameWizard {
    /// The board piece of a wizard of the roster.
    pub fn from_wizard(wizard: &Wizard) -> (r: GameWizard)
        ensures
            r.id == wizard.id,
            r.name == wizard.player.name,
            r.moves_left == 0,
            r.stats == wizard.stats,
            r.frame_count == 0,
            r.current_frame == 0,
    {
        GameWizard {
            id: wizard.id,
            name: wizard.player.name.clone(),
            moves_left: 0,
            stats: wizard.stats.duplicate(),
            frame_count: 0,
            current_frame: 0,
        }
    }

    pub fn update_stats(&mut self, stats: WizardStats)
        ensures
            *final(self) == (GameWizard { stats, ..*old(self) }),
    {
        self.stats = stats;
    }

    /// Whether this wizard holds a piece of the given manoeuvre rating in combat.
    pub fn is_engaged(&self, manoeuvre: u8) -> (r: bool)
        ensures
            exists|a: int, b: int|
                0 <= a <= 9 && 0 <= b <= 9 && r == crate::combat::engaged_by(
                    self.stats.base.manoeuvre as int,
                    manoeuvre as int,
                    a,
                    b,
                ),
    {
        crate::combat::manoeuvre_contest(self.stats.base.manoeuvre, manoeuvre)
    }

    /// Whether an attack of the given combat value kills this wizard, against its
    /// buffed defence.
    pub fn defend_against_attack(&self, combat: u8) -> (r: bool)
        ensures
            exists|a: int, d: int|
                0 <= a <= 9 && 0 <= d <= 9 && r == crate::combat::attack_beats(
                    combat as int,
                    defence_of(self.stats),
                    a,
                    d,
                ),
    {
        let defence = self.stats.get_defence();
        crate::combat::opposed_attack(combat, defence)
    }

    pub fn defend_against_magical_attack(&self, spell_ability: u8) -> (r: bool)
        ensures
            exists|a: int, d: int|
                0 <= a <= 9 && 0 <= d <= 9 && r == crate::combat::attack_beats(
                    spell_ability as int,
                    self.stats.base.magical_resistance as int,
                    a,
                    d,
                ),
    {
        crate::combat::opposed_attack(spell_ability, self.stats.base.magical_resistance)
    }

    pub fn current_frame(&self) -> (r: Frame)
        ensures
            r == self.stats.gfx.frames@[(self.current_frame % 4) as int],
    {
        self.stats.gfx.frames[(self.current_frame % 4) as usize]
    }

    pub fn current_bytes(&self) -> (r: [u8; 32])
        ensures
            r == self.stats.gfx.frames@[(self.current_frame % 4) as int].bytes,
    {
        self.stats.gfx.frames[(self.current_frame % 4) as usize].bytes
    }

    /// Advances the animation by one tick; false while a wizard in shadow form
    /// is on one of its hidden (even) frames.
    pub fn tic(&mut self) -> (r: bool)
        ensures
            (final(self).frame_count, final(self).current_frame) == crate::creation::ticked(
                old(self).frame_count,
                old(self).current_frame,
                old(self).stats.gfx.timing,
            ),
            *final(self) == (GameWizard {
                frame_count: final(self).frame_count,
                current_frame: final(self).current_frame,
                ..*old(self)
            }),
            r == !(old(self).stats.shadow_form && final(self).current_frame % 2 == 0),
    {
        if self.frame_count == self.stats.gfx.timing {
            self.frame_count = 0;
            if self.current_frame >= 3 {
                self.current_frame = 0;
            } else {
                self.current_frame = self.current_frame + 1;
            }
        } else {
            self.frame_count = self.frame_count.wrapping_add(1);
        }
        !(self.stats.shadow_form && self.current_frame % 2 == 0)
    }
}

/// The wizard `id` is in the roster and its hand has a place `k`.
pub open spec fn hand_has(s: Seq<Wizard>, id: u32, k: int) -> bool {
    exists|j: int| 0 <= j < s.len() && #[trigger] s[j].id == id && 0 <= k < s[j].spells@.len()
}

impl ServerWizards {
    /// The spell at `index` in the hand of the wizard `id`, taken out of the hand;
    /// none for an index past the hand or an unknown id.
    pub fn take_spell(&mut self, id: u32, index: usize) -> (r: Option<Spell>)
        requires
            old(self).wf(),
        ensures
            final(self).wf(),
            final(self)@.len() == old(self)@.len(),
            match r {
                Some(sp) => exists|i: int|
                    0 <= i < old(self)@.len() && old(self)@[i].id == id && index < old(self)@[i].spells@.len()
                        && sp == old(self)@[i].spells@[index as int] && final(self)@ == old(self)@.update(
                        i,
                        Wizard { spells: final(self)@[i].spells, ..old(self)@[i] },
                    ) && final(self)@[i].spells@ == old(self)@[i].spells@.remove(index as int),
                None => final(self)@ == old(self)@ && !hand_has(old(self)@, id, index as int),
            },
            r.is_some() == hand_has(old(self)@, id, index as int),
    {
        match self.position(id) {
            Some(i) => {
                proof {
                    assert forall|j: int| 0 <= j < self.wizards@.len() && self.wizards@[j].id == id implies j == i by {
                        if j < i {
                            assert(self.wizards@[j].id < self.wizards@[i as int].id);
                        } else if j > i {
                            assert(self.wizards@[i as int].id < self.wizards@[j].id);
                        }
                    }
                }
                if index < self.wizards[i].spells.len() {
                    let w = &mut self.wizards[i];
                    let sp = w.spells.remove(index);
                    proof {
                        assert forall|a: int, b: int| 0 <= a < b < self.wizards@.len() implies #[trigger] self.wizards@[a].id
                            < #[trigger] self.wizards@[b].id by {
                            assert(self.wizards@[a].id == old(self).wizards@[a].id);
                            assert(self.wizards@[b].id == old(self).wizards@[b].id);
                        }
                    }
                    Some(sp)
                } else {
                    None
                }
            },
            None => None,
        }
    }

    /// Adds a spell to the hand of the wizard `id`; false for an unknown id.
    pub fn give_spell(&mut self, id: u32, spell: Spell) -> (r: bool)
        requires
            old(self).wf(),
        ensures
            final(self).wf(),
            final(self)@.len() == old(self)@.len(),
            r ==> exists|i: int|
                0 <= i < old(self)@.len() && old(self)@[i].id == id && final(self)@ == old(self)@.update(
                    i,
                    Wizard { spells: final(self)@[i].spells, ..old(self)@[i] },
                ) && final(self)@[i].spells@ == old(self)@[i].spells@.push(spell),
            !r ==> final(self)@ == old(self)@,
            r == exists|i: int| 0 <= i < old(self)@.len() && #[trigger] old(self)@[i].id == id,
    {
        match self.position(id) {
            Some(i) => {
                let w = &mut self.wizards[i];
                w.spells.push(spell);
                proof {
                    assert forall|a: int, b: int| 0 <= a < b < self.wizards@.len() implies #[trigger] self.wizards@[a].id
                        < #[trigger] self.wizards@[b].id by {
                        assert(self.wizards@[a].id == old(self).wizards@[a].id);
                        assert(self.wizards@[b].id == old(self).wizards@[b].id);
                    }
                }
                true
            },
            None => false,
        }
    }

    /// The number of spells in the hand of the wizard `id`.
    pub fn hand_size(&self, id: u32) -> (r: Option<usize>)
        ensures
            match r {
                Some(n) => exists|i: int| 0 <= i < self@.len() && self@[i].id == id && n == self@[i].spells@.len(),
                None => forall|i: int| 0 <= i < self@.len() ==> #[trigger] self@[i].id != id,
            },
    {
        match self.position(id) {
            Some(i) => Some(self.wizards[i].spells.len()),
            None => None,
        }
    }
}

} // verus!
