use crate::color::{Color, background_rgb, rgb_of};
use crate::creation::GameCreation;
use crate::stats::Frame;
use crate::wizard::GameWizard;
use vstd::prelude::*;

verus! {

pub const WIDTH: u8 = 15;

pub const HEIGHT: u8 = 10;

/// A self-propagating hazard.
#[derive(Clone, Debug)]
pub enum Spawn {
    Blob(GameCreation),
    Fire(GameCreation),
}

pub open spec fn spawn_body(s: Spawn) -> GameCreation {
    match s {
        Spawn::Blob(c) => c,
        Spawn::Fire(c) => c,
    }
}

impl Spawn {
    /// The creation that the hazard is.
    pub fn body(&self) -> (r: &GameCreation)
        ensures
            *r == spawn_body(*self),
    {
        match self {
            Spawn::Blob(c) => c,
            Spawn::Fire(c) => c,
        }
    }
}

/// One cell of the board: at most one spawn, one creation, one wizard and one corpse.
#[derive(Clone, Debug)]
pub struct Tile {
    pub spawn: Option<Spawn>,
    pub corpse: Option<GameCreation>,
    pub creation: Option<GameCreation>,
    pub wizard: Option<GameWizard>,
}

impl Tile {
    pub fn empty() -> (r: Tile)
        ensures
            r == empty_tile(),
    {
        Tile { spawn: None, corpse: None, creation: None, wizard: None }
    }
}

pub open spec fn empty_tile() -> Tile {
    Tile { spawn: None, corpse: None, creation: None, wizard: None }
}

/// The board: 15 × 10 tiles in row-major order, and the world's alignment.
#[derive(Clone, Debug)]
pub struct Arena {
    pub alignment: i8,
    pub tiles: Vec<Tile>,
    pub width: u8,
    pub height: u8,
}

/// Which tiles a query looks at, measured from a centre tile.
#[derive(Clone, Copy, Debug, PartialEq, Eq, Structural)]
pub enum Area {
    /// Every tile of the board.
    Everywhere,
    /// Squared distance at most the range, the centre excluded.
    Spell(u8),
    /// Squared distance at most the square of the range, the centre excluded.
    Combat(u8),
    /// Squared distance less one at most the square of the movement, the centre excluded.
    Flying(u8),
}

/// What a query asks of a tile, on behalf of the player `id`.
#[derive(Clone, Copy, Debug, PartialEq, Eq, Structural)]
pub enum Query {
    Any,
    AttackableOpposition,
    SubvertableOpposition,
    Empty,
    CreationMove,
    WizardMove,
    Attack,
    NeighbouringFoe,
    VisibleCorpse,
    HasSpawn,
    HasWizard,
    CombustibleShelter,
    WizardInTree,
    MovesLeft,
    TopmostOwned,
    ShadowWood,
}

pub open spec fn dist2(x: int, y: int, tx: int, ty: int) -> int {
    (tx - x) * (tx - x) + (ty - y) * (ty - y)
}

pub open spec fn in_area(area: Area, x: int, y: int, tx: int, ty: int) -> bool {
    let d = dist2(x, y, tx, ty);
    match area {
        Area::Everywhere => true,
        Area::Spell(range) => d <= range && d > 0,
        Area::Combat(range) => d <= range * range && d > 0,
        Area::Flying(movement) => d - 1 <= movement * movement && d - 1 >= 0,
    }
}

/// A hostile piece that attacks and spells can target: an enemy blob, else an
/// enemy wizard, else an enemy attackable creation; never fire.
pub open spec fn attackable_opposition(t: Tile, id: u32) -> bool {
    match t.spawn {
        Some(Spawn::Blob(b)) => b.id != id,
        Some(Spawn::Fire(_)) => false,
        None => match t.wizard {
            Some(w) => w.id != id,
            None => match t.creation {
                Some(c) => c.id != id && c.stats.attackable,
                None => false,
            },
        },
    }
}

pub open spec fn subvertable_opposition(t: Tile, id: u32) -> bool {
    attackable_opposition(t, id) && t.spawn.is_none() && t.wizard.is_none() && match t.creation {
        Some(c) => c.stats.subvertable,
        None => false,
    }
}

pub open spec fn is_empty_tile(t: Tile) -> bool {
    t.spawn.is_none() && t.wizard.is_none() && t.creation.is_none()
}

/// An enemy attackable creation, or a magic wood sheltering an enemy wizard.
pub open spec fn hostile_creation(c: GameCreation, t: Tile, id: u32) -> bool {
    (c.id != id && c.stats.attackable) || (c.stats.magic_wood && match t.wizard {
        Some(w) => w.id != id,
        None => false,
    })
}

/// Where a creation may move to, attacking what stands there.
pub open spec fn creation_may_enter(t: Tile, id: u32) -> bool {
    match t.spawn {
        Some(Spawn::Blob(b)) => b.id != id,
        Some(Spawn::Fire(_)) => false,
        None => match t.creation {
            Some(c) => hostile_creation(c, t, id),
            None => match t.wizard {
                Some(w) => w.id != id,
                None => true,
            },
        },
    }
}

/// Where a wizard may move to: as a creation may, and also onto its own mounts and
/// shelters, and into any magic wood.
pub open spec fn wizard_may_enter(t: Tile, id: u32) -> bool {
    match t.spawn {
        Some(Spawn::Blob(b)) => b.id != id,
        Some(Spawn::Fire(_)) => false,
        None => match t.creation {
            Some(c) => (c.id != id && c.stats.attackable) || (c.id == id && (c.stats.mount || c.stats.shelter))
                || c.stats.magic_wood,
            None => match t.wizard {
                Some(w) => w.id != id,
                None => true,
            },
        },
    }
}

/// A piece that can be attacked in melee, whatever spawn covers it.
pub open spec fn may_attack(t: Tile, id: u32) -> bool {
    match t.creation {
        Some(c) => hostile_creation(c, t, id),
        None => match t.wizard {
            Some(w) => w.id != id,
            None => false,
        },
    }
}

pub open spec fn owned_spawn(t: Tile, id: u32) -> bool {
    match t.spawn {
        Some(s) => spawn_body(s).id == id,
        None => false,
    }
}

pub open spec fn tile_matches(q: Query, t: Tile, id: u32) -> bool {
    match q {
        Query::Any => true,
        Query::AttackableOpposition => attackable_opposition(t, id),
        Query::SubvertableOpposition => subvertable_opposition(t, id),
        Query::Empty => is_empty_tile(t),
        Query::CreationMove => creation_may_enter(t, id),
        Query::WizardMove => wizard_may_enter(t, id),
        Query::Attack => may_attack(t, id),
        Query::NeighbouringFoe => t.spawn.is_none() && may_attack(t, id),
        Query::VisibleCorpse => is_empty_tile(t) && t.corpse.is_some(),
        Query::HasSpawn => t.spawn.is_some(),
        Query::HasWizard => t.wizard.is_some(),
        Query::CombustibleShelter => match t.creation {
            Some(c) => c.stats.shelter && !c.stats.magic_wood,
            None => false,
        },
        Query::WizardInTree => match t.creation {
            Some(c) => c.stats.magic_wood && t.wizard.is_some(),
            None => false,
        },
        Query::MovesLeft => match t.creation {
            Some(c) if !c.stats.shelter => c.id == id && c.moves_left > 0,
            _ => match t.wizard {
                Some(w) => w.id == id && w.moves_left > 0,
                None => false,
            },
        },
        Query::TopmostOwned => owned_spawn(t, id) || match t.creation {
            Some(c) => c.id == id,
            None => match t.corpse {
                Some(c) => c.id == id,
                None => false,
            },
        },
        Query::ShadowWood => match t.creation {
            Some(c) => c.stats.shadow_wood,
            None => false,
        },
    }
}

/// The coordinates of the tile at a row-major position.
pub open spec fn coord_of(i: int) -> (u8, u8) {
    ((i % 15) as u8, (i / 15) as u8)
}

pub open spec fn index_of(x: int, y: int) -> int {
    y * 15 + x
}

/// Whether (x, y) is a tile of the board.
pub open spec fn on_board(x: int, y: int) -> bool {
    0 <= x < 15 && 0 <= y < 10
}

/// Two boards that agree on every tile of an area select the same tiles there.
pub proof fn lemma_select_agree(a: Arena, b: Arena, area: Area, x: u8, y: u8, q: Query, id: u32, n: nat)
    requires
        n <= a.tiles@.len(),
        n <= b.tiles@.len(),
        forall|j: int|
            0 <= j < n ==> a.tiles@[j] == b.tiles@[j] || !in_area(
                area,
                x as int,
                y as int,
                #[trigger] coord_of(j).0 as int,
                coord_of(j).1 as int,
            ),
    ensures
        a.select(area, x, y, q, id, n) == b.select(area, x, y, q, id, n),
    decreases n,
{
    if n > 0 {
        lemma_select_agree(a, b, area, x, y, q, id, (n - 1) as nat);
        let c = coord_of(n - 1);
        assert(a.tiles@[n - 1] == b.tiles@[n - 1] || !in_area(area, x as int, y as int, c.0 as int, c.1 as int));
    }
}

/// Each tile of the board has its own place among the 150: the row-major
/// position of an on-board coordinate is in range, and distinct coordinates have
/// distinct positions.
pub proof fn lemma_tile_index(x: int, y: int, x2: int, y2: int)
    requires
        on_board(x, y),
        on_board(x2, y2),
    ensures
        0 <= index_of(x, y) < 150,
        coord_of(index_of(x, y)) == ((x as u8), (y as u8)),
        (x != x2 || y != y2) ==> index_of(x, y) != index_of(x2, y2),
{
}

/// The pieces owned by `id` removed from a tile; with `wizards`, its wizard too.
pub open spec fn purge(t: Tile, id: u32, wizards: bool) -> Tile {
    Tile {
        spawn: if owned_spawn(t, id) { None } else { t.spawn },
        wizard: match t.wizard {
            Some(w) => if wizards && w.id == id { None } else { t.wizard },
            None => None,
        },
        creation: match t.creation {
            Some(c) => if c.id == id { None } else { t.creation },
            None => None,
        },
        corpse: match t.corpse {
            Some(c) => if c.id == id { None } else { t.corpse },
            None => None,
        },
    }
}

/// Whether any piece on the tile, the wizard aside, belongs to `id`.
pub open spec fn owns_piece_on(t: Tile, id: u32) -> bool {
    owned_spawn(t, id) || (t.creation is Some && t.creation->0.id == id) || (t.corpse is Some && t.corpse->0.id
        == id)
}

/// The movement points of the pieces of `id` on a tile at the start of its turn:
/// none under a spawn, one for shadow wood, else the full allowance.
pub open spec fn reset_tile(t: Tile, id: u32) -> Tile {
    let blob = t.spawn.is_some();
    Tile {
        wizard: match t.wizard {
            Some(w) => if w.id == id {
                Some(
                    GameWizard {
                        moves_left: if blob { 0 } else { crate::stats::movement_of(w.stats) as u8 },
                        ..w
                    },
                )
            } else {
                t.wizard
            },
            None => None,
        },
        creation: match t.creation {
            Some(c) => if c.id == id {
                Some(
                    GameCreation {
                        moves_left: if blob {
                            0
                        } else if c.stats.shadow_wood {
                            1
                        } else {
                            c.stats.base.movement
                        },
                        ..c
                    },
                )
            } else {
                t.creation
            },
            None => None,
        },
        ..t
    }
}

pub open spec fn has_wizard_of(t: Tile, id: u32) -> bool {
    t.wizard is Some && t.wizard->0.id == id
}

impl Arena {
    pub open spec fn wf(&self) -> bool {
        self.width == 15 && self.height == 10 && self.tiles@.len() == 150
    }

    pub open spec fn tile(&self, x: int, y: int) -> Tile {
        self.tiles@[index_of(x, y)]
    }

    /// The coordinates, in row-major order among the first `n` tiles, that lie in
    /// the area around (x, y) and satisfy the query.
    pub open spec fn select(&self, area: Area, x: u8, y: u8, q: Query, id: u32, n: nat) -> Seq<(u8, u8)>
        decreases n,
    {
        if n == 0 {
            seq![]
        } else {
            let prev = self.select(area, x, y, q, id, (n - 1) as nat);
            let c = coord_of(n - 1);
            if in_area(area, x as int, y as int, c.0 as int, c.1 as int) && tile_matches(
                q,
                self.tiles@[n - 1],
                id,
            ) {
                prev.push(c)
            } else {
                prev
            }
        }
    }

    /// All the board's coordinates in the area around (x, y) that satisfy the query.
    pub open spec fn tiles_where(&self, area: Area, x: u8, y: u8, q: Query, id: u32) -> Seq<(u8, u8)> {
        self.select(area, x, y, q, id, self.tiles@.len())
    }

    pub fn new() -> (r: Arena)
        ensures
            r.wf(),
            r.alignment == 0,
            forall|i: int| 0 <= i < 150 ==> #[trigger] r.tiles@[i] == empty_tile(),
    {
        let mut tiles: Vec<Tile> = Vec::new();
        let mut i: usize = 0;
        while i < 150
            invariant
                i <= 150,
                tiles@.len() == i,
                forall|j: int| 0 <= j < i ==> #[trigger] tiles@[j] == empty_tile(),
            decreases 150 - i,
        {
            tiles.push(Tile::empty());
            i = i + 1;
        }
        Arena { alignment: 0, tiles, width: WIDTH, height: HEIGHT }
    }

    /// Shifts the world's alignment, saturating at the bounds of `i8`.
    pub fn adjust_alignment(&mut self, alignment: i8)
        ensures
            final(self).alignment as int == if old(self).alignment + alignment > 127 {
                127
            } else if old(self).alignment + alignment < -128 {
                -128
            } else {
                old(self).alignment + alignment
            },
            final(self).tiles@ == old(self).tiles@,
            final(self).width == old(self).width,
            final(self).height == old(self).height,
    {
        let sum: i16 = self.alignment as i16 + alignment as i16;
        self.alignment = if sum > 127 {
            127
        } else if sum < -128 {
            -128
        } else {
            sum as i8
        };
    }

    /// Whether (x, y) lies on the board.
    pub fn contains(&self, x: u8, y: u8) -> (r: bool)
        requires
            self.wf(),
        ensures
            r == on_board(x as int, y as int),
    {
        x < self.width && y < self.height
    }

    pub fn get(&self, x: u8, y: u8) -> (r: &Tile)
        requires
            self.wf(),
            on_board(x as int, y as int),
        ensures
            *r == self.tile(x as int, y as int),
    {
        &self.tiles[(y as usize) * 15 + (x as usize)]
    }

    pub fn get_mut(&mut self, x: u8, y: u8) -> (r: &mut Tile)
        requires
            old(self).wf(),
            on_board(x as int, y as int),
        ensures
            *r == old(self).tile(x as int, y as int),
            final(self).tiles@ == old(self).tiles@.update(index_of(x as int, y as int), *final(r)),
            final(self).alignment == old(self).alignment,
            final(self).width == old(self).width,
            final(self).height == old(self).height,
    {
        &mut self.tiles[(y as usize) * 15 + (x as usize)]
    }

    pub fn get_creation(&self, x: u8, y: u8) -> (r: &GameCreation)
        requires
            self.wf(),
            on_board(x as int, y as int),
            self.tile(x as int, y as int).creation is Some,
        ensures
            *r == self.tile(x as int, y as int).creation->0,
    {
        self.get(x, y).creation.as_ref().unwrap()
    }

    pub fn get_wizard(&self, x: u8, y: u8) -> (r: &GameWizard)
        requires
            self.wf(),
            on_board(x as int, y as int),
            self.tile(x as int, y as int).wizard is Some,
        ensures
            *r == self.tile(x as int, y as int).wizard->0,
    {
        self.get(x, y).wizard.as_ref().unwrap()
    }

    pub fn get_corpse(&self, x: u8, y: u8) -> (r: &GameCreation)
        requires
            self.wf(),
            on_board(x as int, y as int),
            self.tile(x as int, y as int).corpse is Some,
        ensures
            *r == self.tile(x as int, y as int).corpse->0,
    {
        self.get(x, y).corpse.as_ref().unwrap()
    }

    pub fn get_blob(&self, x: u8, y: u8) -> (r: &GameCreation)
        requires
            self.wf(),
            on_board(x as int, y as int),
            self.tile(x as int, y as int).spawn matches Some(Spawn::Blob(_)),
        ensures
            *r == spawn_body(self.tile(x as int, y as int).spawn->0),
    {
        self.get(x, y).spawn.as_ref().unwrap().body()
    }

    pub fn get_mut_creation(&mut self, x: u8, y: u8) -> (r: &mut GameCreation)
        requires
            old(self).wf(),
            on_board(x as int, y as int),
            old(self).tile(x as int, y as int).creation is Some,
        ensures
            *r == old(self).tile(x as int, y as int).creation->0,
            final(self).tiles@ == old(self).tiles@.update(
                index_of(x as int, y as int),
                Tile { creation: Some(*final(r)), ..old(self).tile(x as int, y as int) },
            ),
            final(self).alignment == old(self).alignment,
            final(self).width == old(self).width,
            final(self).height == old(self).height,
    {
        let tile = self.get_mut(x, y);
        tile.creation.as_mut().unwrap()
    }

    pub fn get_mut_wizard(&mut self, x: u8, y: u8) -> (r: &mut GameWizard)
        requires
            old(self).wf(),
            on_board(x as int, y as int),
            old(self).tile(x as int, y as int).wizard is Some,
        ensures
            *r == old(self).tile(x as int, y as int).wizard->0,
            final(self).tiles@ == old(self).tiles@.update(
                index_of(x as int, y as int),
                Tile { wizard: Some(*final(r)), ..old(self).tile(x as int, y as int) },
            ),
            final(self).alignment == old(self).alignment,
            final(self).width == old(self).width,
            final(self).height == old(self).height,
    {
        let tile = self.get_mut(x, y);
        tile.wizard.as_mut().unwrap()
    }
}

fn in_area_exec(area: Area, x: u8, y: u8, tx: u8, ty: u8) -> (r: bool)
    ensures
        r == in_area(area, x as int, y as int, tx as int, ty as int),
{
    let ddx: i64 = tx as i64 - x as i64;
    let ddy: i64 = ty as i64 - y as i64;
    assert(0 <= ddx * ddx <= 65025) by (nonlinear_arith)
        requires
            -255 <= ddx <= 255,
    ;
    assert(0 <= ddy * ddy <= 65025) by (nonlinear_arith)
        requires
            -255 <= ddy <= 255,
    ;
    let d: i64 = ddx * ddx + ddy * ddy;
    match area {
        Area::Everywhere => true,
        Area::Spell(range) => d <= range as i64 && d > 0,
        Area::Combat(range) => {
            assert(0 <= (range as i64) * (range as i64) <= 65025) by (nonlinear_arith)
                requires
                    0 <= range <= 255,
            ;
            d <= (range as i64) * (range as i64) && d > 0
        },
        Area::Flying(movement) => {
            assert(0 <= (movement as i64) * (movement as i64) <= 65025) by (nonlinear_arith)
                requires
                    0 <= movement <= 255,
            ;
            d - 1 <= (movement as i64) * (movement as i64) && d - 1 >= 0
        },
    }
}

fn hostile_creation_exec(c: &GameCreation, t: &Tile, id: u32) -> (r: bool)
    ensures
        r == hostile_creation(*c, *t, id),
{
    (c.id != id && c.stats.attackable) || (c.stats.magic_wood && match &t.wizard {
        Some(w) => w.id != id,
        None => false,
    })
}

fn may_attack_exec(t: &Tile, id: u32) -> (r: bool)
    ensures
        r == may_attack(*t, id),
{
    match &t.creation {
        Some(c) => hostile_creation_exec(c, t, id),
        None => match &t.wizard {
            Some(w) => w.id != id,
            None => false,
        },
    }
}

fn attackable_opposition_exec(t: &Tile, id: u32) -> (r: bool)
    ensures
        r == attackable_opposition(*t, id),
{
    match &t.spawn {
        Some(Spawn::Blob(b)) => b.id != id,
        Some(Spawn::Fire(_)) => false,
        None => match &t.wizard {
            Some(w) => w.id != id,
            None => match &t.creation {
                Some(c) => c.id != id && c.stats.attackable,
                None => false,
            },
        },
    }
}

fn tile_matches_exec(q: Query, t: &Tile, id: u32) -> (r: bool)
    ensures
        r == tile_matches(q, *t, id),
{
    match q {
        Query::Any => true,
        Query::AttackableOpposition => attackable_opposition_exec(t, id),
        Query::SubvertableOpposition => attackable_opposition_exec(t, id) && t.spawn.is_none()
            && t.wizard.is_none() && match &t.creation {
            Some(c) => c.stats.subvertable,
            None => false,
        },
        Query::Empty => t.spawn.is_none() && t.wizard.is_none() && t.creation.is_none(),
        Query::CreationMove => match &t.spawn {
            Some(Spawn::Blob(b)) => b.id != id,
            Some(Spawn::Fire(_)) => false,
            None => match &t.creation {
                Some(c) => hostile_creation_exec(c, t, id),
                None => match &t.wizard {
                    Some(w) => w.id != id,
                    None => true,
                },
            },
        },
        Query::WizardMove => match &t.spawn {
            Some(Spawn::Blob(b)) => b.id != id,
            Some(Spawn::Fire(_)) => false,
            None => match &t.creation {
                Some(c) => (c.id != id && c.stats.attackable) || (c.id == id && (c.stats.mount
                    || c.stats.shelter)) || c.stats.magic_wood,
                None => match &t.wizard {
                    Some(w) => w.id != id,
                    None => true,
                },
            },
        },
        Query::Attack => may_attack_exec(t, id),
        Query::NeighbouringFoe => t.spawn.is_none() && may_attack_exec(t, id),
        Query::VisibleCorpse => t.spawn.is_none() && t.wizard.is_none() && t.creation.is_none()
            && t.corpse.is_some(),
        Query::HasSpawn => t.spawn.is_some(),
        Query::HasWizard => t.wizard.is_some(),
        Query::CombustibleShelter => match &t.creation {
            Some(c) => c.stats.shelter && !c.stats.magic_wood,
            None => false,
        },
        Query::WizardInTree => match &t.creation {
            Some(c) => c.stats.magic_wood && t.wizard.is_some(),
            None => false,
        },
        Query::MovesLeft => {
            let walker = match &t.creation {
                Some(c) => !c.stats.shelter,
                None => false,
            };
            if walker {
                let c = t.creation.as_ref().unwrap();
                c.id == id && c.moves_left > 0
            } else {
                match &t.wizard {
                    Some(w) => w.id == id && w.moves_left > 0,
                    None => false,
                }
            }
        },
        Query::TopmostOwned => {
            let spawn_owned = match &t.spawn {
                Some(s) => s.body().id == id,
                None => false,
            };
            spawn_owned || match &t.creation {
                Some(c) => c.id == id,
                None => match &t.corpse {
                    Some(c) => c.id == id,
                    None => false,
                },
            }
        },
        Query::ShadowWood => match &t.creation {
            Some(c) => c.stats.shadow_wood,
            None => false,
        },
    }
}

impl Arena {
    /// The coordinates, in row-major order, of the tiles in the area around (x, y)
    /// that satisfy the query.
    pub fn collect_tiles(&self, area: Area, x: u8, y: u8, q: Query, id: u32) -> (r: Vec<(u8, u8)>)
        requires
            self.wf(),
        ensures
            r@ == self.tiles_where(area, x, y, q, id),
    {
        let mut out: Vec<(u8, u8)> = Vec::new();
        let mut i: usize = 0;
        while i < self.tiles.len()
            invariant
                self.wf(),
                i <= self.tiles@.len(),
                out@ == self.select(area, x, y, q, id, i as nat),
            decreases self.tiles@.len() - i,
        {
            let tx = (i % 15) as u8;
            let ty = (i / 15) as u8;
            if in_area_exec(area, x, y, tx, ty) && tile_matches_exec(q, &self.tiles[i], id) {
                out.push((tx, ty));
            }
            i = i + 1;
        }
        out
    }

    /// Whether some tile in the area around (x, y) satisfies the query.
    pub fn any_tile(&self, area: Area, x: u8, y: u8, q: Query, id: u32) -> (r: bool)
        requires
            self.wf(),
        ensures
            r == (self.tiles_where(area, x, y, q, id).len() > 0),
    {
        self.collect_tiles(area, x, y, q, id).len() > 0
    }

    /// Enemy pieces within spell range that a spell of the given range can target.
    pub fn cast_spell_on_attackable_tiles(&self, x: u8, y: u8, range: u8, id: u32) -> (r: Vec<(u8, u8)>)
        requires
            self.wf(),
        ensures
            r@ == self.tiles_where(Area::Spell(range), x, y, Query::AttackableOpposition, id),
    {
        self.collect_tiles(Area::Spell(range), x, y, Query::AttackableOpposition, id)
    }

    /// Enemy creations within spell range that subversion can take over.
    pub fn all_subvertable_opposition_tiles(&self, x: u8, y: u8, range: u8, id: u32) -> (r: Vec<(u8, u8)>)
        requires
            self.wf(),
        ensures
            r@ == self.tiles_where(Area::Spell(range), x, y, Query::SubvertableOpposition, id),
    {
        self.collect_tiles(Area::Spell(range), x, y, Query::SubvertableOpposition, id)
    }

    /// Every tile that holds a spawn.
    pub fn all_spawn_tiles(&self) -> (r: Vec<(u8, u8)>)
        requires
            self.wf(),
        ensures
            r@ == self.tiles_where(Area::Everywhere, 0, 0, Query::HasSpawn, 0),
    {
        self.collect_tiles(Area::Everywhere, 0, 0, Query::HasSpawn, 0)
    }

    /// Empty tiles within spell range, where a creation can be summoned.
    pub fn creation_spell_tiles(&self, x: u8, y: u8, range: u8) -> (r: Vec<(u8, u8)>)
        requires
            self.wf(),
        ensures
            r@ == self.tiles_where(Area::Spell(range), x, y, Query::Empty, 0),
    {
        self.collect_tiles(Area::Spell(range), x, y, Query::Empty, 0)
    }

    /// Every tile within combat range, whatever it holds.
    pub fn ranged_combat_tiles(&self, x: u8, y: u8, range: u8) -> (r: Vec<(u8, u8)>)
        requires
            self.wf(),
        ensures
            r@ == self.tiles_where(Area::Combat(range), x, y, Query::Any, 0),
    {
        self.collect_tiles(Area::Combat(range), x, y, Query::Any, 0)
    }

    /// The tiles of pieces of `id` that can still move this turn.
    pub fn tiles_with_moves_left(&self, id: u32) -> (r: Vec<(u8, u8)>)
        requires
            self.wf(),
        ensures
            r@ == self.tiles_where(Area::Everywhere, 0, 0, Query::MovesLeft, id),
    {
        self.collect_tiles(Area::Everywhere, 0, 0, Query::MovesLeft, id)
    }

    /// Neighbouring tiles a walking wizard may step onto.
    pub fn wizard_movement_tiles(&self, x: u8, y: u8, id: u32) -> (r: Vec<(u8, u8)>)
        requires
            self.wf(),
        ensures
            r@ == self.tiles_where(Area::Spell(3), x, y, Query::WizardMove, id),
    {
        self.collect_tiles(Area::Spell(3), x, y, Query::WizardMove, id)
    }

    /// Tiles a flying wizard may land on.
    pub fn wizard_flying_tiles(&self, x: u8, y: u8, movement: u8, id: u32) -> (r: Vec<(u8, u8)>)
        requires
            self.wf(),
        ensures
            r@ == self.tiles_where(Area::Flying(movement), x, y, Query::WizardMove, id),
    {
        self.collect_tiles(Area::Flying(movement), x, y, Query::WizardMove, id)
    }

    /// Neighbouring tiles a walking creation may step onto.
    pub fn creation_movement_tiles(&self, x: u8, y: u8, id: u32) -> (r: Vec<(u8, u8)>)
        requires
            self.wf(),
        ensures
            r@ == self.tiles_where(Area::Spell(3), x, y, Query::CreationMove, id),
    {
        self.collect_tiles(Area::Spell(3), x, y, Query::CreationMove, id)
    }

    /// Tiles a flying creation may land on.
    pub fn creation_flying_tiles(&self, x: u8, y: u8, movement: u8, id: u32) -> (r: Vec<(u8, u8)>)
        requires
            self.wf(),
        ensures
            r@ == self.tiles_where(Area::Flying(movement), x, y, Query::CreationMove, id),
    {
        self.collect_tiles(Area::Flying(movement), x, y, Query::CreationMove, id)
    }

    /// Neighbouring pieces a creation may attack in melee.
    pub fn creation_combat_tiles(&self, x: u8, y: u8, id: u32) -> (r: Vec<(u8, u8)>)
        requires
            self.wf(),
        ensures
            r@ == self.tiles_where(Area::Spell(3), x, y, Query::Attack, id),
    {
        self.collect_tiles(Area::Spell(3), x, y, Query::Attack, id)
    }

    /// Neighbouring pieces a wizard may attack in melee.
    pub fn wizard_combat_tiles(&self, x: u8, y: u8, id: u32) -> (r: Vec<(u8, u8)>)
        requires
            self.wf(),
        ensures
            r@ == self.tiles_where(Area::Spell(3), x, y, Query::Attack, id),
    {
        self.collect_tiles(Area::Spell(3), x, y, Query::Attack, id)
    }

    /// Neighbouring enemies not covered by a spawn.
    pub fn neighbouring_foes(&self, x: u8, y: u8, id: u32) -> (r: Vec<(u8, u8)>)
        requires
            self.wf(),
        ensures
            r@ == self.tiles_where(Area::Spell(3), x, y, Query::NeighbouringFoe, id),
    {
        self.collect_tiles(Area::Spell(3), x, y, Query::NeighbouringFoe, id)
    }

    pub fn has_neighbouring_foes(&self, x: u8, y: u8, id: u32) -> (r: bool)
        requires
            self.wf(),
        ensures
            r == (self.tiles_where(Area::Spell(3), x, y, Query::NeighbouringFoe, id).len() > 0),
    {
        self.any_tile(Area::Spell(3), x, y, Query::NeighbouringFoe, id)
    }

    /// The topmost pieces owned by `id` apart from its wizard: spawns, else
    /// creations, else corpses.
    pub fn get_topmost_creations_and_corpses_coords(&self, id: u32) -> (r: Vec<(u8, u8)>)
        requires
            self.wf(),
        ensures
            r@ == self.tiles_where(Area::Everywhere, 0, 0, Query::TopmostOwned, id),
    {
        self.collect_tiles(Area::Everywhere, 0, 0, Query::TopmostOwned, id)
    }

    /// Uncovered corpses within spell range, which raise dead can target.
    pub fn visible_corpse_tiles(&self, x: u8, y: u8, range: u8) -> (r: Vec<(u8, u8)>)
        requires
            self.wf(),
        ensures
            r@ == self.tiles_where(Area::Spell(range), x, y, Query::VisibleCorpse, 0),
    {
        self.collect_tiles(Area::Spell(range), x, y, Query::VisibleCorpse, 0)
    }

    /// Shelters that can burn down: every shelter but magic wood.
    pub fn all_combustable_shelter_tiles(&self) -> (r: Vec<(u8, u8)>)
        requires
            self.wf(),
        ensures
            r@ == self.tiles_where(Area::Everywhere, 0, 0, Query::CombustibleShelter, 0),
    {
        self.collect_tiles(Area::Everywhere, 0, 0, Query::CombustibleShelter, 0)
    }

    /// Wizards sheltering in magic wood.
    pub fn wizards_in_trees(&self) -> (r: Vec<(u8, u8)>)
        requires
            self.wf(),
        ensures
            r@ == self.tiles_where(Area::Everywhere, 0, 0, Query::WizardInTree, 0),
    {
        self.collect_tiles(Area::Everywhere, 0, 0, Query::WizardInTree, 0)
    }

    /// Whether shadow wood stands next to (x, y).
    pub fn is_next_to_shadow_wood(&self, x: u8, y: u8) -> (r: bool)
        requires
            self.wf(),
        ensures
            r == (self.tiles_where(Area::Spell(3), x, y, Query::ShadowWood, 0).len() > 0),
    {
        self.any_tile(Area::Spell(3), x, y, Query::ShadowWood, 0)
    }

    pub fn number_of_wizards(&self) -> (r: usize)
        requires
            self.wf(),
        ensures
            r == self.tiles_where(Area::Everywhere, 0, 0, Query::HasWizard, 0).len(),
    {
        self.collect_tiles(Area::Everywhere, 0, 0, Query::HasWizard, 0).len()
    }
}

impl Arena {
    /// Sets fire on a tile, burning any corpse there.
    pub fn spawn_fire(&mut self, x: u8, y: u8, fire: GameCreation)
        requires
            old(self).wf(),
            on_board(x as int, y as int),
        ensures
            final(self).wf(),
            final(self).alignment == old(self).alignment,
            final(self).tiles@ == old(self).tiles@.update(
                index_of(x as int, y as int),
                Tile { corpse: None, spawn: Some(Spawn::Fire(fire)), ..old(self).tile(x as int, y as int) },
            ),
    {
        let tile = self.get_mut(x, y);
        tile.corpse = None;
        tile.spawn = Some(Spawn::Fire(fire));
    }

    /// Puts a gooey blob on a tile.
    pub fn spawn_blob(&mut self, x: u8, y: u8, blob: GameCreation)
        requires
            old(self).wf(),
            on_board(x as int, y as int),
        ensures
            final(self).wf(),
            final(self).alignment == old(self).alignment,
            final(self).tiles@ == old(self).tiles@.update(
                index_of(x as int, y as int),
                Tile { spawn: Some(Spawn::Blob(blob)), ..old(self).tile(x as int, y as int) },
            ),
    {
        let tile = self.get_mut(x, y);
        tile.spawn = Some(Spawn::Blob(blob));
    }

    pub fn remove_spawn(&mut self, x: u8, y: u8)
        requires
            old(self).wf(),
            on_board(x as int, y as int),
        ensures
            final(self).wf(),
            final(self).alignment == old(self).alignment,
            final(self).tiles@ == old(self).tiles@.update(
                index_of(x as int, y as int),
                Tile { spawn: None, ..old(self).tile(x as int, y as int) },
            ),
    {
        let tile = self.get_mut(x, y);
        tile.spawn = None;
    }

    /// Places a creation on a tile, replacing any there.
    pub fn set_creation(&mut self, x: u8, y: u8, creation: Option<GameCreation>)
        requires
            old(self).wf(),
            on_board(x as int, y as int),
        ensures
            final(self).wf(),
            final(self).alignment == old(self).alignment,
            final(self).tiles@ == old(self).tiles@.update(
                index_of(x as int, y as int),
                Tile { creation, ..old(self).tile(x as int, y as int) },
            ),
    {
        let tile = self.get_mut(x, y);
        tile.creation = creation;
    }

    /// Places a wizard on a tile, replacing any there.
    pub fn set_wizard(&mut self, x: u8, y: u8, wizard: Option<GameWizard>)
        requires
            old(self).wf(),
            on_board(x as int, y as int),
        ensures
            final(self).wf(),
            final(self).alignment == old(self).alignment,
            final(self).tiles@ == old(self).tiles@.update(
                index_of(x as int, y as int),
                Tile { wizard, ..old(self).tile(x as int, y as int) },
            ),
    {
        let tile = self.get_mut(x, y);
        tile.wizard = wizard;
    }

    /// Removes the creation of a tile; with `corpse` it stays there as a corpse.
    pub fn kill_creation(&mut self, x: u8, y: u8, corpse: bool)
        requires
            old(self).wf(),
            on_board(x as int, y as int),
        ensures
            final(self).wf(),
            final(self).alignment == old(self).alignment,
            final(self).tiles@ == old(self).tiles@.update(
                index_of(x as int, y as int),
                Tile {
                    creation: None,
                    corpse: if corpse {
                        old(self).tile(x as int, y as int).creation
                    } else {
                        old(self).tile(x as int, y as int).corpse
                    },
                    ..old(self).tile(x as int, y as int)
                },
            ),
    {
        let tile = self.get_mut(x, y);
        let creation = tile.creation.take();
        if corpse {
            tile.corpse = creation;
        }
    }

    /// Hands the creation of a tile to the player `id`.
    pub fn subvert(&mut self, x: u8, y: u8, id: u32)
        requires
            old(self).wf(),
            on_board(x as int, y as int),
            old(self).tile(x as int, y as int).creation is Some,
        ensures
            final(self).wf(),
            final(self).alignment == old(self).alignment,
            final(self).tiles@ == old(self).tiles@.update(
                index_of(x as int, y as int),
                Tile {
                    creation: Some(GameCreation { id, ..old(self).tile(x as int, y as int).creation->0 }),
                    ..old(self).tile(x as int, y as int)
                },
            ),
    {
        let c = self.get_mut_creation(x, y);
        c.id = id;
    }

    /// Raises the corpse of a tile as an undead creation of the player `id`.
    pub fn raise_dead(&mut self, x: u8, y: u8, id: u32)
        requires
            old(self).wf(),
            on_board(x as int, y as int),
            old(self).tile(x as int, y as int).corpse is Some,
        ensures
            final(self).wf(),
            final(self).alignment == old(self).alignment,
            ({
                let t = old(self).tile(x as int, y as int);
                let c = t.corpse->0;
                final(self).tiles@ == old(self).tiles@.update(
                    index_of(x as int, y as int),
                    Tile {
                        corpse: None,
                        creation: Some(
                            GameCreation { id, stats: crate::stats::CreationStats { undead: true, ..c.stats }, ..c },
                        ),
                        ..t
                    },
                )
            }),
    {
        let tile = self.get_mut(x, y);
        let mut creation = tile.corpse.take().unwrap();
        creation.id = id;
        creation.stats.undead = true;
        tile.creation = Some(creation);
    }

    /// Moves the creation at (sx, sy) to (dx, dy); a wizard riding it moves along.
    /// No other tile changes.
    pub fn move_creation(&mut self, sx: u8, sy: u8, dx: u8, dy: u8)
        requires
            old(self).wf(),
            on_board(sx as int, sy as int),
            on_board(dx as int, dy as int),
        ensures
            final(self).wf(),
            final(self).alignment == old(self).alignment,
            ({
                let s = index_of(sx as int, sy as int);
                let d = index_of(dx as int, dy as int);
                let src = old(self).tiles@[s];
                let rider = src.wizard.is_some();
                let t1 = old(self).tiles@.update(
                    s,
                    Tile { wizard: if rider { None } else { src.wizard }, creation: None, ..src },
                );
                final(self).tiles@ == t1.update(
                    d,
                    Tile {
                        wizard: if rider { src.wizard } else { t1[d].wizard },
                        creation: src.creation,
                        ..t1[d]
                    },
                )
            }),
    {
        let s = (sy as usize) * 15 + (sx as usize);
        let d = (dy as usize) * 15 + (dx as usize);
        let rider = self.tiles[s].wizard.is_some();
        let wizard = if rider {
            let src = self.get_mut(sx, sy);
            src.wizard.take()
        } else {
            None
        };
        let creation = {
            let src = self.get_mut(sx, sy);
            src.creation.take()
        };
        let dst = self.get_mut(dx, dy);
        if rider {
            dst.wizard = wizard;
        }
        dst.creation = creation;
    }

    fn wizard_index(&self, id: u32) -> (r: Option<usize>)
        requires
            self.wf(),
        ensures
            match r {
                Some(i) => i < 150 && has_wizard_of(self.tiles@[i as int], id) && forall|j: int|
                    0 <= j < i ==> !has_wizard_of(#[trigger] self.tiles@[j], id),
                None => forall|j: int| 0 <= j < 150 ==> !has_wizard_of(#[trigger] self.tiles@[j], id),
            },
    {
        let mut i: usize = 0;
        while i < self.tiles.len()
            invariant
                self.wf(),
                i <= 150,
                forall|j: int| 0 <= j < i ==> !has_wizard_of(#[trigger] self.tiles@[j], id),
            decreases 150 - i,
        {
            match &self.tiles[i].wizard {
                Some(w) => {
                    if w.id == id {
                        return Some(i);
                    }
                },
                None => {},
            }
            i = i + 1;
        }
        None
    }

    /// Where the wizard of `id` stands, if it is on the board.
    pub fn maybe_find_wizard_pos(&self, id: u32) -> (r: Option<(u8, u8)>)
        requires
            self.wf(),
        ensures
            match r {
                Some((x, y)) => on_board(x as int, y as int) && has_wizard_of(self.tile(x as int, y as int), id)
                    && forall|j: int|
                    0 <= j < index_of(x as int, y as int) ==> !has_wizard_of(#[trigger] self.tiles@[j], id),
                None => forall|j: int| 0 <= j < 150 ==> !has_wizard_of(#[trigger] self.tiles@[j], id),
            },
    {
        match self.wizard_index(id) {
            Some(i) => {
                let x = (i % 15) as u8;
                let y = (i / 15) as u8;
                assert(index_of(x as int, y as int) == i);
                Some((x, y))
            },
            None => None,
        }
    }

    /// Where the wizard of `id` stands; it must be on the board.
    pub fn find_wizard_pos(&self, id: u32) -> (r: (u8, u8))
        requires
            self.wf(),
            exists|j: int| 0 <= j < 150 && has_wizard_of(#[trigger] self.tiles@[j], id),
        ensures
            on_board(r.0 as int, r.1 as int),
            has_wizard_of(self.tile(r.0 as int, r.1 as int), id),
            forall|j: int| 0 <= j < index_of(r.0 as int, r.1 as int) ==> !has_wizard_of(#[trigger] self.tiles@[j], id),
    {
        self.maybe_find_wizard_pos(id).unwrap()
    }

    /// The wizard of `id`; it must be on the board.
    pub fn find_wizard(&self, id: u32) -> (r: &GameWizard)
        requires
            self.wf(),
            exists|j: int| 0 <= j < 150 && has_wizard_of(#[trigger] self.tiles@[j], id),
        ensures
            r.id == id,
            exists|j: int| 0 <= j < 150 && self.tiles@[j].wizard == Some(*r),
    {
        let (x, y) = self.find_wizard_pos(id);
        self.get_wizard(x, y)
    }

    /// The wizard of `id`, to change; it must be on the board.
    pub fn find_wizard_mut(&mut self, id: u32) -> (r: &mut GameWizard)
        requires
            old(self).wf(),
            exists|j: int| 0 <= j < 150 && has_wizard_of(#[trigger] old(self).tiles@[j], id),
        ensures
            r.id == id,
            exists|j: int|
                0 <= j < 150 && old(self).tiles@[j].wizard == Some(*r) && final(self).tiles@ == old(
                    self,
                ).tiles@.update(j, Tile { wizard: Some(*final(r)), ..old(self).tiles@[j] }),
            final(self).alignment == old(self).alignment,
            final(self).width == old(self).width,
            final(self).height == old(self).height,
    {
        let (x, y) = self.find_wizard_pos(id);
        self.get_mut_wizard(x, y)
    }

    /// Moves the wizard of `id` to (x, y).
    pub fn move_wizard(&mut self, id: u32, x: u8, y: u8)
        requires
            old(self).wf(),
            on_board(x as int, y as int),
            exists|j: int| 0 <= j < 150 && has_wizard_of(#[trigger] old(self).tiles@[j], id),
        ensures
            final(self).wf(),
            final(self).alignment == old(self).alignment,
            exists|s: int|
                0 <= s < 150 && has_wizard_of(old(self).tiles@[s], id) && (forall|j: int|
                    0 <= j < s ==> !has_wizard_of(#[trigger] old(self).tiles@[j], id)) && ({
                    let t1 = old(self).tiles@.update(s, Tile { wizard: None, ..old(self).tiles@[s] });
                    let d = index_of(x as int, y as int);
                    final(self).tiles@ == t1.update(d, Tile { wizard: old(self).tiles@[s].wizard, ..t1[d] })
                }),
    {
        let (sx, sy) = self.find_wizard_pos(id);
        let w = {
            let src = self.get_mut(sx, sy);
            src.wizard.take()
        };
        let dst = self.get_mut(x, y);
        dst.wizard = w;
    }

    /// Removes every piece of the player `id` from the board: its wizard, and all
    /// its spawns, creations and corpses.
    pub fn kill_wizard_and_creations(&mut self, id: u32)
        requires
            old(self).wf(),
        ensures
            final(self).wf(),
            final(self).alignment == old(self).alignment,
            forall|i: int| 0 <= i < 150 ==> #[trigger] final(self).tiles@[i] == purge(old(self).tiles@[i], id, true),
            forall|i: int|
                0 <= i < 150 ==> !owns_piece_on(#[trigger] final(self).tiles@[i], id) && !has_wizard_of(
                    final(self).tiles@[i],
                    id,
                ),
    {
        self.purge_all(id, true);
    }

    /// Removes the spawns, creations and corpses of the player `id`, sparing its wizard.
    pub fn destroy_all_wizard_creations(&mut self, id: u32)
        requires
            old(self).wf(),
        ensures
            final(self).wf(),
            final(self).alignment == old(self).alignment,
            forall|i: int| 0 <= i < 150 ==> #[trigger] final(self).tiles@[i] == purge(old(self).tiles@[i], id, false),
            forall|i: int| 0 <= i < 150 ==> !owns_piece_on(#[trigger] final(self).tiles@[i], id),
    {
        self.purge_all(id, false);
    }

    fn purge_all(&mut self, id: u32, wizards: bool)
        requires
            old(self).wf(),
        ensures
            final(self).wf(),
            final(self).alignment == old(self).alignment,
            forall|i: int| 0 <= i < 150 ==> #[trigger] final(self).tiles@[i] == purge(old(self).tiles@[i], id, wizards),
    {
        let mut i: usize = 0;
        while i < self.tiles.len()
            invariant
                self.wf(),
                self.alignment == old(self).alignment,
                i <= 150,
                forall|j: int| 0 <= j < i ==> #[trigger] self.tiles@[j] == purge(old(self).tiles@[j], id, wizards),
                forall|j: int| i <= j < 150 ==> #[trigger] self.tiles@[j] == old(self).tiles@[j],
            decreases 150 - i,
        {
            let tile = &mut self.tiles[i];
            let spawn_owned = match &tile.spawn {
                Some(s) => s.body().id == id,
                None => false,
            };
            if spawn_owned {
                tile.spawn = None;
            }
            let wizard_owned = match &tile.wizard {
                Some(w) => w.id == id,
                None => false,
            };
            if wizards && wizard_owned {
                tile.wizard = None;
            }
            let creation_owned = match &tile.creation {
                Some(c) => c.id == id,
                None => false,
            };
            if creation_owned {
                tile.creation = None;
            }
            let corpse_owned = match &tile.corpse {
                Some(c) => c.id == id,
                None => false,
            };
            if corpse_owned {
                tile.corpse = None;
            }
            i = i + 1;
        }
    }

    /// Gives every piece of the player `id` its movement points for the turn.
    pub fn reset_moves(&mut self, id: u32)
        requires
            old(self).wf(),
        ensures
            final(self).wf(),
            final(self).alignment == old(self).alignment,
            forall|i: int| 0 <= i < 150 ==> #[trigger] final(self).tiles@[i] == reset_tile(old(self).tiles@[i], id),
    {
        let mut i: usize = 0;
        while i < self.tiles.len()
            invariant
                self.wf(),
                self.alignment == old(self).alignment,
                i <= 150,
                forall|j: int| 0 <= j < i ==> #[trigger] self.tiles@[j] == reset_tile(old(self).tiles@[j], id),
                forall|j: int| i <= j < 150 ==> #[trigger] self.tiles@[j] == old(self).tiles@[j],
            decreases 150 - i,
        {
            let tile = &mut self.tiles[i];
            let blob = tile.spawn.is_some();
            match tile.wizard.as_mut() {
                Some(w) => {
                    if w.id == id {
                        w.moves_left = if blob { 0 } else { w.stats.get_movement() };
                    }
                },
                None => {},
            }
            match tile.creation.as_mut() {
                Some(c) => {
                    if c.id == id {
                        c.moves_left = if blob {
                            0
                        } else if c.stats.shadow_wood {
                            1
                        } else {
                            c.stats.base.movement
                        };
                    }
                },
                None => {},
            }
            i = i + 1;
        }
    }
}

/// The rest of a Bresenham line from (x, y) to (ex, ey), at most `fuel` points.
pub open spec fn line_trace(
    x: int,
    y: int,
    ex: int,
    ey: int,
    err: int,
    ddx: int,
    ddy: int,
    step_x: int,
    step_y: int,
    fuel: nat,
) -> Seq<(int, int)>
    decreases fuel,
{
    if fuel == 0 {
        seq![]
    } else if x == ex && y == ey {
        seq![(x, y)]
    } else {
        let e2 = 2 * err;
        let err1 = if e2 > -ddy { err - ddy } else { err };
        let x1 = if e2 > -ddy { x + step_x } else { x };
        let err2 = if e2 < ddx { err1 + ddx } else { err1 };
        let y1 = if e2 < ddx { y + step_y } else { y };
        seq![(x, y)] + line_trace(x1, y1, ex, ey, err2, ddx, ddy, step_x, step_y, (fuel - 1) as nat)
    }
}

pub open spec fn abs(a: int) -> int {
    if a < 0 { -a } else { a }
}

/// The pixel at the centre of a tile, in a space of 16 pixels per tile.
pub open spec fn centre(c: u8) -> int {
    c * 16 + 8
}

/// The pixels of the Bresenham line between the centres of two tiles.
pub open spec fn line_points(sx: u8, sy: u8, dx: u8, dy: u8) -> Seq<(int, int)> {
    let x0 = centre(sx);
    let y0 = centre(sy);
    let x1 = centre(dx);
    let y1 = centre(dy);
    let ddx = abs(x1 - x0);
    let ddy = abs(y1 - y0);
    line_trace(
        x0,
        y0,
        x1,
        y1,
        ddx - ddy,
        ddx,
        ddy,
        if x0 < x1 { 1 } else { -1 },
        if y0 < y1 { 1 } else { -1 },
        (ddx + ddy + 1) as nat,
    )
}

/// A tile as the line of sight sees it: corpses never block; the two ends are
/// clear; transparent creations are looked through.
pub open spec fn cleared(t: Tile, endpoint: bool) -> Tile {
    if endpoint {
        empty_tile()
    } else {
        Tile {
            corpse: None,
            creation: match t.creation {
                Some(c) => if c.stats.transparent { None } else { t.creation },
                None => None,
            },
            ..t
        }
    }
}

/// The frame drawn for a tile: its spawn, else its creation, else its wizard.
pub open spec fn visible_frame(t: Tile) -> Option<Frame> {
    match t.spawn {
        Some(s) => Some(crate::creation::shown_frame(spawn_body(s).stats, spawn_body(s).current_frame)),
        None => match t.creation {
            Some(c) => Some(crate::creation::shown_frame(c.stats, c.current_frame)),
            None => match t.wizard {
                Some(w) => Some(w.stats.gfx.frames@[(w.current_frame % 4) as int]),
                None => None,
            },
        },
    }
}

/// The colour of a pixel of a sprite, at column `col` and row `row`: the
/// foreground where its bit is set, else the background, else black.
pub open spec fn frame_pixel(f: Frame, col: int, row: int) -> u32 {
    let b = f.bytes@[2 * row + col / 8];
    if (b >> ((7 - col % 8) as u8)) & 1u8 == 1u8 {
        rgb_of(f.fg)
    } else {
        match f.bg {
            Some(c) => rgb_of(c),
            None => background_rgb(),
        }
    }
}

impl Arena {
    /// The colour of a pixel of the board as the line of sight from (sx, sy) to
    /// (dx, dy) sees it; off the board, the background.
    pub open spec fn sight_pixel(&self, sx: u8, sy: u8, dx: u8, dy: u8, px: int, py: int) -> u32 {
        if 0 <= px < 240 && 0 <= py < 160 {
            let tx = px / 16;
            let ty = py / 16;
            let t = cleared(self.tile(tx, ty), (tx == sx && ty == sy) || (tx == dx && ty == dy));
            match visible_frame(t) {
                Some(f) => frame_pixel(f, px % 16, py % 16),
                None => background_rgb(),
            }
        } else {
            background_rgb()
        }
    }

    /// Nothing solid between the two tiles: every fourth pixel of the line between
    /// their centres, from the first, shows the background.
    pub open spec fn in_sight(&self, sx: u8, sy: u8, dx: u8, dy: u8) -> bool {
        let pts = line_points(sx, sy, dx, dy);
        forall|k: int|
            0 <= k < pts.len() && k % 4 == 0 ==> #[trigger] self.sight_pixel(sx, sy, dx, dy, pts[k].0, pts[k].1)
                == background_rgb()
    }

    /// The pixels of the line between the centres of two tiles.
    pub fn line_coords(sx: u8, sy: u8, dx: u8, dy: u8) -> (r: Vec<(i32, i32)>)
        requires
            on_board(sx as int, sy as int),
            on_board(dx as int, dy as int),
        ensures
            r@.len() == line_points(sx, sy, dx, dy).len(),
            r@.len() <= 369,
            forall|k: int|
                0 <= k < r@.len() ==> (#[trigger] r@[k].0 as int, r@[k].1 as int) == line_points(sx, sy, dx, dy)[k],
    {
        let ghost full = line_points(sx, sy, dx, dy);
        let mut coords: Vec<(i32, i32)> = Vec::new();
        let mut x: i32 = sx as i32 * 16 + 8;
        let mut y: i32 = sy as i32 * 16 + 8;
        let ex: i32 = dx as i32 * 16 + 8;
        let ey: i32 = dy as i32 * 16 + 8;
        let ddx: i32 = if ex > x { ex - x } else { x - ex };
        let ddy: i32 = if ey > y { ey - y } else { y - ey };
        let step_x: i32 = if x < ex { 1 } else { -1 };
        let step_y: i32 = if y < ey { 1 } else { -1 };
        let mut err: i32 = ddx - ddy;
        let total: i32 = ddx + ddy + 1;
        let mut fuel: i32 = total;
        let ghost x0 = x as int;
        let ghost y0 = y as int;
        while fuel > 0
            invariant
                0 <= ddx <= 224,
                0 <= ddy <= 144,
                total == ddx + ddy + 1,
                0 <= fuel <= total,
                coords@.len() + fuel == total,
                step_x == 1 || step_x == -1,
                step_y == 1 || step_y == -1,
                8 <= ex <= 232,
                8 <= ey <= 152,
                x0 - (total - fuel) <= x <= x0 + (total - fuel),
                y0 - (total - fuel) <= y <= y0 + (total - fuel),
                8 <= x0 <= 232,
                8 <= y0 <= 152,
                -400 - 400 * (total - fuel) <= err <= 400 + 400 * (total - fuel),
                full == line_points(sx, sy, dx, dy),
                full =~= Seq::new(coords@.len(), |k: int| (coords@[k].0 as int, coords@[k].1 as int)) + line_trace(
                    x as int,
                    y as int,
                    ex as int,
                    ey as int,
                    err as int,
                    ddx as int,
                    ddy as int,
                    step_x as int,
                    step_y as int,
                    fuel as nat,
                ),
            decreases fuel,
        {
            let ghost before = Seq::new(coords@.len(), |k: int| (coords@[k].0 as int, coords@[k].1 as int));
            coords.push((x, y));
            let ghost after = Seq::new(coords@.len(), |k: int| (coords@[k].0 as int, coords@[k].1 as int));
            assert(after =~= before.push((x as int, y as int)));
            if x == ex && y == ey {
                assert(full =~= after);
                return coords;
            }
            let e2 = 2 * err;
            if e2 > -ddy {
                err = err - ddy;
                x = x + step_x;
            }
            if e2 < ddx {
                err = err + ddx;
                y = y + step_y;
            }
            fuel = fuel - 1;
            assert(full =~= after + line_trace(
                x as int,
                y as int,
                ex as int,
                ey as int,
                err as int,
                ddx as int,
                ddy as int,
                step_x as int,
                step_y as int,
                fuel as nat,
            ));
        }
        assert(full =~= Seq::new(coords@.len(), |k: int| (coords@[k].0 as int, coords@[k].1 as int)));
        coords
    }

    fn sight_pixel_exec(&self, sx: u8, sy: u8, dx: u8, dy: u8, px: i32, py: i32) -> (r: u32)
        requires
            self.wf(),
        ensures
            r == self.sight_pixel(sx, sy, dx, dy, px as int, py as int),
    {
        if !(0 <= px && px < 240 && 0 <= py && py < 160) {
            return Color::Black.rgb();
        }
        let tx = (px / 16) as u8;
        let ty = (py / 16) as u8;
        let endpoint = (tx == sx && ty == sy) || (tx == dx && ty == dy);
        if endpoint {
            return Color::Black.rgb();
        }
        let tile = self.get(tx, ty);
        let frame: Option<Frame> = match &tile.spawn {
            Some(s) => Some(s.body().current_frame()),
            None => {
                let solid = match &tile.creation {
                    Some(c) => !c.stats.transparent,
                    None => false,
                };
                if solid {
                    Some(tile.creation.as_ref().unwrap().current_frame())
                } else {
                    match &tile.wizard {
                        Some(w) => Some(w.current_frame()),
                        None => None,
                    }
                }
            },
        };
        match frame {
            Some(f) => {
                let col = px % 16;
                let row = py % 16;
                let b = f.bytes[(2 * row + col / 8) as usize];
                if (b >> ((7 - col % 8) as u8)) & 1u8 == 1u8 {
                    f.fg.rgb()
                } else {
                    match f.bg {
                        Some(c) => c.rgb(),
                        None => Color::Black.rgb(),
                    }
                }
            },
            None => Color::Black.rgb(),
        }
    }

    /// Whether the tile (dx, dy) can be seen from (sx, sy).
    pub fn line_of_sight(&self, sx: u8, sy: u8, dx: u8, dy: u8) -> (r: bool)
        requires
            self.wf(),
            on_board(sx as int, sy as int),
            on_board(dx as int, dy as int),
        ensures
            r == self.in_sight(sx, sy, dx, dy),
    {
        let coords = Arena::line_coords(sx, sy, dx, dy);
        let ghost pts = line_points(sx, sy, dx, dy);
        let mut k: usize = 0;
        while k < coords.len()
            invariant
                self.wf(),
                pts == line_points(sx, sy, dx, dy),
                coords@.len() == pts.len(),
                coords@.len() <= 369,
                forall|j: int| 0 <= j < coords@.len() ==> (#[trigger] coords@[j].0 as int, coords@[j].1 as int) == pts[j],
                k % 4 == 0,
                forall|j: int|
                    0 <= j < k && j < pts.len() && j % 4 == 0 ==> #[trigger] self.sight_pixel(
                        sx,
                        sy,
                        dx,
                        dy,
                        pts[j].0,
                        pts[j].1,
                    ) == background_rgb(),
            decreases coords@.len() + 4 - k,
        {
            let (px, py) = coords[k];
            assert((coords@[k as int].0 as int, coords@[k as int].1 as int) == pts[k as int]);
            if self.sight_pixel_exec(sx, sy, dx, dy, px, py) != Color::Black.rgb() {
                return false;
            }
            k = k + 4;
        }
        true
    }
}

/// A tile is always in sight of itself.
pub proof fn lemma_sight_of_own_tile(a: Arena, x: u8, y: u8)
    requires
        a.wf(),
        on_board(x as int, y as int),
    ensures
        a.in_sight(x, y, x, y),
{
    let pts = line_points(x, y, x, y);
    assert(pts =~= seq![(centre(x), centre(y))]) by {
        reveal_with_fuel(line_trace, 2);
    }
    assert forall|k: int| 0 <= k < pts.len() && k % 4 == 0 implies #[trigger] a.sight_pixel(
        x,
        y,
        x,
        y,
        pts[k].0,
        pts[k].1,
    ) == background_rgb() by {
        assert(k == 0);
        assert((x * 16 + 8) / 16 == x);
        assert((y * 16 + 8) / 16 == y);
    }
}

impl Arena {
    /// The frame drawn for the tile (x, y): its spawn, else its creation, else its
    /// wizard; the tile must hold one of them.
    pub fn get_visible_frame(&self, x: u8, y: u8) -> (r: Frame)
        requires
            self.wf(),
            on_board(x as int, y as int),
            visible_frame(self.tile(x as int, y as int)).is_some(),
        ensures
            Some(r) == visible_frame(self.tile(x as int, y as int)),
    {
        let t = self.get(x, y);
        match &t.spawn {
            Some(s) => s.body().current_frame(),
            None => match &t.creation {
                Some(c) => c.current_frame(),
                None => t.wizard.as_ref().unwrap().current_frame(),
            },
        }
    }
}

/// Along a row, the line is the run of pixels from (x, y) to its end.
proof fn lemma_trace_row(x: int, y: int, ex: int, ey: int, ddx: int, step_x: int, step_y: int, d: nat, fuel: nat)
    requires
        step_x == 1 || step_x == -1,
        ex == x + d * step_x,
        ey == y,
        ddx > 0,
        fuel >= d + 1,
    ensures
        line_trace(x, y, ex, ey, ddx, ddx, 0, step_x, step_y, fuel) =~= Seq::new(d + 1, |k: int| (x + k * step_x, y)),
    decreases d,
{
    if d == 0 {
        assert(ex == x) by (nonlinear_arith)
            requires
                ex == x + d * step_x,
                d == 0,
        ;
        assert(line_trace(x, y, ex, ey, ddx, ddx, 0, step_x, step_y, fuel) =~= seq![(x, y)]);
        assert(Seq::new(d + 1, |k: int| (x + k * step_x, y)) =~= seq![(x, y)]);
    } else {
        assert(ex == (x + step_x) + (d - 1) * step_x && ex != x) by (nonlinear_arith)
            requires
                ex == x + d * step_x,
                d > 0,
                step_x == 1 || step_x == -1,
        ;
        lemma_trace_row(x + step_x, y, ex, ey, ddx, step_x, step_y, (d - 1) as nat, (fuel - 1) as nat);
        let rest = Seq::new(d as nat, |k: int| (x + step_x + k * step_x, y));
        assert(line_trace(x, y, ex, ey, ddx, ddx, 0, step_x, step_y, fuel) == seq![(x, y)] + rest);
        assert forall|k: int| 0 <= k < d + 1 implies (seq![(x, y)] + rest)[k] == (x + k * step_x, y) by {
            if k > 0 {
                assert(rest[k - 1] == (x + step_x + (k - 1) * step_x, y));
                assert(x + step_x + (k - 1) * step_x == x + k * step_x) by (nonlinear_arith);
            }
        }
    }
}

/// Along a column, the line is the run of pixels from (x, y) to its end.
proof fn lemma_trace_column(x: int, y: int, ex: int, ey: int, ddy: int, step_x: int, step_y: int, d: nat, fuel: nat)
    requires
        step_y == 1 || step_y == -1,
        ey == y + d * step_y,
        ex == x,
        ddy > 0,
        fuel >= d + 1,
    ensures
        line_trace(x, y, ex, ey, -ddy, 0, ddy, step_x, step_y, fuel) =~= Seq::new(d + 1, |k: int| (x, y + k * step_y)),
    decreases d,
{
    if d == 0 {
        assert(ey == y) by (nonlinear_arith)
            requires
                ey == y + d * step_y,
                d == 0,
        ;
        assert(line_trace(x, y, ex, ey, -ddy, 0, ddy, step_x, step_y, fuel) =~= seq![(x, y)]);
        assert(Seq::new(d + 1, |k: int| (x, y + k * step_y)) =~= seq![(x, y)]);
    } else {
        assert(ey == (y + step_y) + (d - 1) * step_y && ey != y) by (nonlinear_arith)
            requires
                ey == y + d * step_y,
                d > 0,
                step_y == 1 || step_y == -1,
        ;
        lemma_trace_column(x, y + step_y, ex, ey, ddy, step_x, step_y, (d - 1) as nat, (fuel - 1) as nat);
        let rest = Seq::new(d as nat, |k: int| (x, y + step_y + k * step_y));
        assert(line_trace(x, y, ex, ey, -ddy, 0, ddy, step_x, step_y, fuel) == seq![(x, y)] + rest);
        assert forall|k: int| 0 <= k < d + 1 implies (seq![(x, y)] + rest)[k] == (x, y + k * step_y) by {
            if k > 0 {
                assert(rest[k - 1] == (x, y + step_y + (k - 1) * step_y));
                assert(y + step_y + (k - 1) * step_y == y + k * step_y) by (nonlinear_arith);
            }
        }
    }
}

/// Along a diagonal, the line steps both ways at once from (x, y) to its end.
proof fn lemma_trace_diagonal(x: int, y: int, ex: int, ey: int, dd: int, step_x: int, step_y: int, d: nat, fuel: nat)
    requires
        step_x == 1 || step_x == -1,
        step_y == 1 || step_y == -1,
        ex == x + d * step_x,
        ey == y + d * step_y,
        dd > 0,
        fuel >= d + 1,
    ensures
        line_trace(x, y, ex, ey, 0, dd, dd, step_x, step_y, fuel) =~= Seq::new(
            d + 1,
            |k: int| (x + k * step_x, y + k * step_y),
        ),
    decreases d,
{
    if d == 0 {
        assert(ex == x && ey == y) by (nonlinear_arith)
            requires
                ex == x + d * step_x,
                ey == y + d * step_y,
                d == 0,
        ;
        assert(line_trace(x, y, ex, ey, 0, dd, dd, step_x, step_y, fuel) =~= seq![(x, y)]);
        assert(Seq::new(d + 1, |k: int| (x + k * step_x, y + k * step_y)) =~= seq![(x, y)]);
    } else {
        assert(ex == (x + step_x) + (d - 1) * step_x && ex != x && ey == (y + step_y) + (d - 1) * step_y)
            by (nonlinear_arith)
            requires
                ex == x + d * step_x,
                ey == y + d * step_y,
                d > 0,
                step_x == 1 || step_x == -1,
        ;
        lemma_trace_diagonal(x + step_x, y + step_y, ex, ey, dd, step_x, step_y, (d - 1) as nat, (fuel - 1) as nat);
        let rest = Seq::new(d as nat, |k: int| (x + step_x + k * step_x, y + step_y + k * step_y));
        assert(line_trace(x, y, ex, ey, 0, dd, dd, step_x, step_y, fuel) == seq![(x, y)] + rest);
        assert forall|k: int| 0 <= k < d + 1 implies (seq![(x, y)] + rest)[k] == (x + k * step_x, y + k * step_y) by {
            if k > 0 {
                assert(rest[k - 1] == (x + step_x + (k - 1) * step_x, y + step_y + (k - 1) * step_y));
                assert(x + step_x + (k - 1) * step_x == x + k * step_x) by (nonlinear_arith);
                assert(y + step_y + (k - 1) * step_y == y + k * step_y) by (nonlinear_arith);
            }
        }
    }
}

/// The line between two tiles of one row, one column or one diagonal is the
/// line back, read from the other end.
proof fn lemma_straight_line_reverses(sx: u8, sy: u8, dx: u8, dy: u8)
    requires
        on_board(sx as int, sy as int),
        on_board(dx as int, dy as int),
        sx == dx || sy == dy || abs(dx - sx) == abs(dy - sy),
    ensures
        ({
            let p = line_points(sx, sy, dx, dy);
            let q = line_points(dx, dy, sx, sy);
            &&& p.len() == q.len()
            &&& (p.len() - 1) % 4 == 0
            &&& forall|k: int| 0 <= k < p.len() ==> #[trigger] q[k] == p[p.len() - 1 - k]
        }),
{
    let x0 = centre(sx);
    let y0 = centre(sy);
    let x1 = centre(dx);
    let y1 = centre(dy);
    if sx == dx && sy == dy {
        reveal_with_fuel(line_trace, 2);
        assert(line_points(sx, sy, dx, dy) =~= seq![(x0, y0)]);
    } else if sy == dy {
        let d = abs(x1 - x0);
        let m = abs(dx as int - sx as int);
        assert(d == 16 * m);
        assert(d % 4 == 0) by (nonlinear_arith)
            requires
                d == 16 * m,
        ;
        let stp = if x0 < x1 { 1int } else { -1int };
        let sty = if y0 < y1 { 1int } else { -1int };
        lemma_trace_row(x0, y0, x1, y1, d, stp, sty, d as nat, (d + 0 + 1) as nat);
        lemma_trace_row(x1, y1, x0, y0, d, -stp, sty, d as nat, (d + 0 + 1) as nat);
        let p = line_points(sx, sy, dx, dy);
        let q = line_points(dx, dy, sx, sy);
        assert forall|k: int| 0 <= k < p.len() implies #[trigger] q[k] == p[p.len() - 1 - k] by {
            assert(x1 + k * (-stp) == x0 + (d - k) * stp) by (nonlinear_arith)
                requires
                    x1 == x0 + d * stp,
            ;
        }
    } else if sx != dx {
        let d = abs(x1 - x0);
        let m = abs(dx as int - sx as int);
        assert(d == 16 * m);
        assert(abs(y1 - y0) == d);
        assert(d % 4 == 0) by (nonlinear_arith)
            requires
                d == 16 * m,
        ;
        let stx = if x0 < x1 { 1int } else { -1int };
        let sty = if y0 < y1 { 1int } else { -1int };
        lemma_trace_diagonal(x0, y0, x1, y1, d, stx, sty, d as nat, (d + d + 1) as nat);
        lemma_trace_diagonal(x1, y1, x0, y0, d, -stx, -sty, d as nat, (d + d + 1) as nat);
        let p = line_points(sx, sy, dx, dy);
        let q = line_points(dx, dy, sx, sy);
        assert forall|k: int| 0 <= k < p.len() implies #[trigger] q[k] == p[p.len() - 1 - k] by {
            assert(x1 + k * (-stx) == x0 + (d - k) * stx) by (nonlinear_arith)
                requires
                    x1 == x0 + d * stx,
            ;
            assert(y1 + k * (-sty) == y0 + (d - k) * sty) by (nonlinear_arith)
                requires
                    y1 == y0 + d * sty,
            ;
        }
    } else {
        let d = abs(y1 - y0);
        let m = abs(dy as int - sy as int);
        assert(d == 16 * m);
        assert(d % 4 == 0) by (nonlinear_arith)
            requires
                d == 16 * m,
        ;
        let stx = if x0 < x1 { 1int } else { -1int };
        let stp = if y0 < y1 { 1int } else { -1int };
        lemma_trace_column(x0, y0, x1, y1, d, stx, stp, d as nat, (0 + d + 1) as nat);
        lemma_trace_column(x1, y1, x0, y0, d, stx, -stp, d as nat, (0 + d + 1) as nat);
        let p = line_points(sx, sy, dx, dy);
        let q = line_points(dx, dy, sx, sy);
        assert forall|k: int| 0 <= k < p.len() implies #[trigger] q[k] == p[p.len() - 1 - k] by {
            assert(y1 + k * (-stp) == y0 + (d - k) * stp) by (nonlinear_arith)
                requires
                    y1 == y0 + d * stp,
            ;
        }
    }
}

/// A pixel looks the same whichever end the line of sight starts from.
proof fn lemma_sight_pixel_symmetric(a: Arena, sx: u8, sy: u8, dx: u8, dy: u8, px: int, py: int)
    ensures
        a.sight_pixel(sx, sy, dx, dy, px, py) == a.sight_pixel(dx, dy, sx, sy, px, py),
{
}

/// Sight along a row, a column or a diagonal goes both ways: (dx, dy) is in
/// sight from (sx, sy) exactly when (sx, sy) is in sight from (dx, dy).
#[verifier::rlimit(40)]
pub proof fn lemma_straight_sight_symmetric(a: Arena, sx: u8, sy: u8, dx: u8, dy: u8)
    requires
        a.wf(),
        on_board(sx as int, sy as int),
        on_board(dx as int, dy as int),
        sx == dx || sy == dy || abs(dx - sx) == abs(dy - sy),
    ensures
        a.in_sight(sx, sy, dx, dy) == a.in_sight(dx, dy, sx, sy),
{
    lemma_straight_line_reverses(sx, sy, dx, dy);
    let p = line_points(sx, sy, dx, dy);
    let q = line_points(dx, dy, sx, sy);
    let n = p.len();
    if a.in_sight(sx, sy, dx, dy) {
        assert forall|k: int| 0 <= k < q.len() && k % 4 == 0 implies #[trigger] a.sight_pixel(dx, dy, sx, sy, q[k].0, q[k].1)
            == background_rgb() by {
            let j = n - 1 - k;
            assert(j % 4 == 0);
            assert(q[k] == p[j]);
            assert(a.sight_pixel(sx, sy, dx, dy, p[j].0, p[j].1) == background_rgb());
            lemma_sight_pixel_symmetric(a, sx, sy, dx, dy, p[j].0, p[j].1);
        }
    }
    if a.in_sight(dx, dy, sx, sy) {
        assert forall|k: int| 0 <= k < p.len() && k % 4 == 0 implies #[trigger] a.sight_pixel(sx, sy, dx, dy, p[k].0, p[k].1)
            == background_rgb() by {
            let j = n - 1 - k;
            assert(j % 4 == 0);
            assert(q[j] == p[k]);
            assert(a.sight_pixel(dx, dy, sx, sy, q[j].0, q[j].1) == background_rgb());
            lemma_sight_pixel_symmetric(a, sx, sy, dx, dy, q[j].0, q[j].1);
        }
    }
}

} // verus!
