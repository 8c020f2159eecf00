use crate::stats::{AttackBuff, CreationStats, DefenceBuff, min_int};
use vstd::prelude::*;

verus! {

#[derive(Clone, Debug)]
pub enum SpellKind {
    Disbelieve,
    Creation(CreationStats),
    MagicFire(CreationStats),
    GooeyBlob(CreationStats),
    MagicWood(CreationStats),
    ShadowWood(CreationStats),
    Shelter(CreationStats),
    Wall(CreationStats),
    MagicBolt,
    Lightning,
    MagicalAttack(u8),
    WizardAttackBuff(AttackBuff),
    WizardDefenceBuff(DefenceBuff),
    MagicBow,
    MagicWings,
    WorldAlignment,
    ShadowForm,
    Subversion,
    RaiseDead,
}

#[derive(Clone, Debug)]
pub struct Spell {
    pub name: String,
    pub chance: u8,
    pub range: u8,
    pub alignment: i8,
    pub kind: SpellKind,
}

pub open spec fn abs_int(a: int) -> int {
    if a < 0 { -a } else { a }
}

/// The chance, from 0 to 9, of casting a spell: its base chance plus the caster's
/// spell ability, plus a quarter of the world's alignment when the spell leans the
/// same way as the world, and never more than 9.
pub open spec fn cast_chance_of(chance: int, spell_alignment: int, world_alignment: int, spell_ability: int) -> int {
    let bonus = if (spell_alignment > 0 && world_alignment > 0) || (spell_alignment < 0 && world_alignment < 0) {
        abs_int(world_alignment) / 4
    } else {
        0
    };
    min_int(chance + bonus + spell_ability, 9)
}

impl SpellKind {
    /// A field-for-field copy.
    pub fn duplicate(&self) -> (r: SpellKind)
        ensures
            r == *self,
    {
        match self {
            SpellKind::Disbelieve => SpellKind::Disbelieve,
            SpellKind::Creation(s) => SpellKind::Creation(s.duplicate()),
            SpellKind::MagicFire(s) => SpellKind::MagicFire(s.duplicate()),
            SpellKind::GooeyBlob(s) => SpellKind::GooeyBlob(s.duplicate()),
            SpellKind::MagicWood(s) => SpellKind::MagicWood(s.duplicate()),
            SpellKind::ShadowWood(s) => SpellKind::ShadowWood(s.duplicate()),
            SpellKind::Shelter(s) => SpellKind::Shelter(s.duplicate()),
            SpellKind::Wall(s) => SpellKind::Wall(s.duplicate()),
            SpellKind::MagicBolt => SpellKind::MagicBolt,
            SpellKind::Lightning => SpellKind::Lightning,
            SpellKind::MagicalAttack(n) => SpellKind::MagicalAttack(*n),
            SpellKind::WizardAttackBuff(b) => SpellKind::WizardAttackBuff(*b),
            SpellKind::WizardDefenceBuff(b) => SpellKind::WizardDefenceBuff(*b),
            SpellKind::MagicBow => SpellKind::MagicBow,
            SpellKind::MagicWings => SpellKind::MagicWings,
            SpellKind::WorldAlignment => SpellKind::WorldAlignment,
            SpellKind::ShadowForm => SpellKind::ShadowForm,
            SpellKind::Subversion => SpellKind::Subversion,
            SpellKind::RaiseDead => SpellKind::RaiseDead,
        }
    }
}

impl Spell {
    /// A field-for-field copy.
    pub fn duplicate(&self) -> (r: Spell)
        ensures
            r == *self,
    {
        Spell {
            name: self.name.clone(),
            chance: self.chance,
            range: self.range,
            alignment: self.alignment,
            kind: self.kind.duplicate(),
        }
    }

    /// Disbelieve: always in every hand, never used up, cast at the highest chance.
    pub fn disbelieve() -> (r: Spell)
        ensures
            is_disbelieve(r),
    {
        Spell { name: String::from_str("DISBELIEVE"), chance: 9, range: 255, alignment: 0, kind: SpellKind::Disbelieve }
    }

    pub fn is_creation(&self) -> (r: bool)
        ensures
            r == (self.kind is Creation),
    {
        match self.kind {
            SpellKind::Creation(_) => true,
            _ => false,
        }
    }

    pub fn cast_chance(&self, alignment: i8, spell_ability: u8) -> (r: i8)
        ensures
            r == cast_chance_of(self.chance as int, self.alignment as int, alignment as int, spell_ability as int),
            0 <= r <= 9,
    {
        let mut chance: i32 = self.chance as i32;
        if (self.alignment > 0 && alignment > 0) || (self.alignment < 0 && alignment < 0) {
            let a: i32 = alignment as i32;
            let magnitude: i32 = if a < 0 { -a } else { a };
            chance = chance + magnitude / 4;
        }
        let total = chance + spell_ability as i32;
        if total < 9 { total as i8 } else { 9 }
    }

    /// Whether a throw of the die casts the spell: it must not exceed the chance.
    pub fn cast_with_roll(&self, alignment: i8, spell_ability: u8, roll: u8) -> (r: bool)
        ensures
            r == (roll as int <= cast_chance_of(
                self.chance as int,
                self.alignment as int,
                alignment as int,
                spell_ability as int,
            )),
    {
        roll as i16 <= self.cast_chance(alignment, spell_ability) as i16
    }

    /// Throws the die to cast the spell.
    pub fn cast(&self, alignment: i8, spell_ability: u8) -> (r: bool)
        ensures
            exists|roll: int| 0 <= roll <= 9 && r == #[trigger] casts(roll, *self, alignment as int, spell_ability as int),
    {
        let roll = crate::dice::roll_d10();
        let r = self.cast_with_roll(alignment, spell_ability, roll);
        assert(r == casts(roll as int, *self, alignment as int, spell_ability as int));
        r
    }
}

/// A starting hand: disbelieve, then `number_of_spells - 1` spells drawn at random
/// from the book.
pub fn create_spells(book: &Vec<Spell>, number_of_spells: u8) -> (r: Vec<Spell>)
    requires
        book.len() > 0,
    ensures
        r@.len() == if number_of_spells == 0 { 1 } else { number_of_spells as int },
        is_disbelieve(r@[0]),
        forall|i: int| 1 <= i < r@.len() ==> #[trigger] book@.contains(r@[i]),
{
    let mut spells: Vec<Spell> = Vec::new();
    spells.push(Spell::disbelieve());
    let mut k: u8 = 1;
    while k < number_of_spells
        invariant
            1 <= k,
            k <= number_of_spells || (number_of_spells == 0 && k == 1),
            spells@.len() == k as int,
            is_disbelieve(spells@[0]),
            book.len() > 0,
            forall|i: int| 1 <= i < spells@.len() ==> #[trigger] book@.contains(spells@[i]),
        decreases number_of_spells - k,
    {
        let spell = match crate::dice::choose_spell(book.as_slice()) {
            Some(s) => s.duplicate(),
            None => book[0].duplicate(),
        };
        spells.push(spell);
        k = k + 1;
    }
    spells
}

/// The chance of casting never exceeds 9, whatever the spell, the world's
/// alignment and the caster's ability.
pub proof fn lemma_cast_chance_capped(chance: int, spell_alignment: int, world_alignment: int, spell_ability: int)
    ensures
        cast_chance_of(chance, spell_alignment, world_alignment, spell_ability) <= 9,
        (chance >= 0 && spell_ability >= 0) ==> cast_chance_of(chance, spell_alignment, world_alignment, spell_ability) >= 0,
{
}

/// The disbelieve spell, as `Spell::disbelieve` makes it.
pub open spec fn is_disbelieve(s: Spell) -> bool {
    &&& s.name@ == "DISBELIEVE"@
    &&& s.chance == 9
    &&& s.range == 255
    &&& s.alignment == 0
    &&& s.kind == SpellKind::Disbelieve
}

/// Whether a throw of the die casts the spell.
pub open spec fn casts(roll: int, s: Spell, world_alignment: int, spell_ability: int) -> bool {
    roll <= cast_chance_of(s.chance as int, s.alignment as int, world_alignment, spell_ability)
}

impl Spell {
    /// A spell drawn at random from the book.
    pub fn random(book: &Vec<Spell>) -> (r: Spell)
        requires
            book.len() > 0,
        ensures
            book@.contains(r),
    {
        match crate::dice::choose_spell(book.as_slice()) {
            Some(s) => s.duplicate(),
            None => book[0].duplicate(),
        }
    }
}

} // verus!
