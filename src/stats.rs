use crate::color::Color;
use vstd::prelude::*;

verus! {

/// One 16×16 sprite: two bytes per row, most significant bit leftmost.
#[derive(Clone, Copy, Debug)]
pub struct Frame {
    pub bytes: [u8; 32],
    pub fg: Color,
    pub bg: Option<Color>,
}

impl Frame {
    /// The same sprite with foreground and background exchanged; a missing
    /// background counts as black.
    pub fn swap_colors(&self) -> (r: Frame)
        ensures
            r.bytes == self.bytes,
            r.fg == (match self.bg {
                Some(c) => c,
                None => Color::Black,
            }),
            r.bg == Some(self.fg),
    {
        let bg = match self.bg {
            Some(c) => c,
            None => Color::Black,
        };
        Frame { bytes: self.bytes, fg: bg, bg: Some(self.fg) }
    }
}

/// The animation of a piece: four frames shown in turn, and the sprite of its corpse.
#[derive(Clone, Copy, Debug)]
pub struct Gfx {
    pub timing: u8,
    pub frames: [Frame; 4],
    pub corpse: Option<Frame>,
}

/// A frame with its bitmap replaced and its colours kept.
pub open spec fn with_bytes(f: Frame, bytes: [u8; 32]) -> Frame {
    Frame { bytes: bytes, ..f }
}

impl Gfx {
    /// Replaces the bitmap of each of the four frames, keeping their colours.
    pub fn change_frame_bytes(&mut self, bytes: &[[u8; 32]; 4])
        ensures
            final(self).timing == old(self).timing,
            final(self).corpse == old(self).corpse,
            forall|i: int|
                0 <= i < 4 ==> #[trigger] final(self).frames@[i] == with_bytes(old(self).frames@[i], bytes@[i]),
    {
        let f0 = Frame { bytes: bytes[0], fg: self.frames[0].fg, bg: self.frames[0].bg };
        let f1 = Frame { bytes: bytes[1], fg: self.frames[1].fg, bg: self.frames[1].bg };
        let f2 = Frame { bytes: bytes[2], fg: self.frames[2].fg, bg: self.frames[2].bg };
        let f3 = Frame { bytes: bytes[3], fg: self.frames[3].fg, bg: self.frames[3].bg };
        self.frames = [f0, f1, f2, f3];
    }
}

#[derive(Clone, Debug)]
pub struct BaseStats {
    pub name: String,
    pub combat: u8,
    pub ranged_combat: u8,
    pub range: u8,
    pub defence: u8,
    pub movement: u8,
    pub manoeuvre: u8,
    pub magical_resistance: u8,
}

#[derive(Clone, Debug)]
pub struct CreationStats {
    pub base: BaseStats,
    pub casting_chance: u8,
    pub alignment: i8,
    pub mount: bool,
    pub flying: bool,
    pub undead: bool,
    pub transparent: bool,
    pub subvertable: bool,
    pub attackable: bool,
    pub dragon: bool,
    pub shelter: bool,
    pub magic_wood: bool,
    pub shadow_wood: bool,
    pub gfx: Gfx,
}

#[derive(Clone, Copy, Debug, PartialEq, Eq, Structural)]
pub enum AttackBuff {
    MagicKnife,
    MagicSword,
}

#[derive(Clone, Copy, Debug, PartialEq, Eq, Structural)]
pub enum DefenceBuff {
    MagicShield,
    MagicArmour,
}

#[derive(Clone, Debug)]
pub struct WizardStats {
    pub base: BaseStats,
    pub number_of_spells: u8,
    pub spell_ability: u8,
    pub attack_buff: Option<AttackBuff>,
    pub defence_buff: Option<DefenceBuff>,
    pub magic_wings: bool,
    pub magic_bow: bool,
    pub shadow_form: bool,
    pub gfx: Gfx,
}

pub open spec fn min_int(a: int, b: int) -> int {
    if a < b { a } else { b }
}

/// Combat after the attack buff, at most 9.
pub open spec fn combat_of(s: WizardStats) -> int {
    let bonus: int = match s.attack_buff {
        Some(AttackBuff::MagicKnife) => 2,
        Some(AttackBuff::MagicSword) => 4,
        None => 0,
    };
    min_int(s.base.combat + bonus, 9)
}

/// Defence after the defence buff and shadow form, at most 9.
pub open spec fn defence_of(s: WizardStats) -> int {
    let bonus: int = match s.defence_buff {
        Some(DefenceBuff::MagicShield) => 2,
        Some(DefenceBuff::MagicArmour) => 4,
        None => 0,
    };
    let shadow: int = if s.shadow_form { 3 } else { 0 };
    min_int(s.base.defence + bonus + shadow, 9)
}

/// Movement allowance: shadow form adds two, saturating at 255.
pub open spec fn movement_of(s: WizardStats) -> int {
    if s.shadow_form { min_int(s.base.movement + 2, 255) } else { s.base.movement as int }
}

/// The equipment flags and buffs of two stat blocks agree, apart from the sprite.
pub open spec fn same_but_gfx(a: WizardStats, b: WizardStats) -> bool {
    a == WizardStats { gfx: a.gfx, ..b }
}

impl BaseStats {
    /// A field-for-field copy.
    pub fn duplicate(&self) -> (r: BaseStats)
        ensures
            r == *self,
    {
        BaseStats {
            name: self.name.clone(),
            combat: self.combat,
            ranged_combat: self.ranged_combat,
            range: self.range,
            defence: self.defence,
            movement: self.movement,
            manoeuvre: self.manoeuvre,
            magical_resistance: self.magical_resistance,
        }
    }
}

impl CreationStats {
    /// A field-for-field copy.
    pub fn duplicate(&self) -> (r: CreationStats)
        ensures
            r == *self,
    {
        CreationStats { base: self.base.duplicate(), ..*self }
    }
}

impl WizardStats {
    /// A field-for-field copy.
    pub fn duplicate(&self) -> (r: WizardStats)
        ensures
            r == *self,
    {
        WizardStats { base: self.base.duplicate(), ..*self }
    }
}

impl WizardStats {
    /// The stats a wizard of the given level starts with, from six throws of a
    /// ten-sided die: combat, defence, manoeuvre, magical resistance, number of
    /// spells and spell ability.
    pub fn from_rolls(name: String, frame: Frame, level: u8, rolls: [u8; 6]) -> (r: WizardStats)
        requires
            level <= 20,
            forall|i: int| 0 <= i < 6 ==> #[trigger] rolls@[i] <= 9,
        ensures
            r.base.name == name,
            r.base.combat == 1 + rolls@[0] / 2 + level / 2,
            r.base.defence == 1 + rolls@[1] / 2 + level / 2,
            r.base.manoeuvre == 3 + rolls@[2] / 2 + level / 4,
            r.base.magical_resistance == 6 + rolls@[3] / 4,
            r.number_of_spells == min_int(11 + rolls@[4] / 4 + level, 20),
            r.spell_ability == (if rolls@[5] >= 5 - level / 2 { rolls@[5] / 4 } else { 0 }),
            r.base.movement == 1,
            r.base.ranged_combat == 0,
            r.base.range == 0,
            r.attack_buff.is_none(),
            r.defence_buff.is_none(),
            !r.magic_wings,
            !r.magic_bow,
            !r.shadow_form,
            r.gfx.timing == 30,
            r.gfx.corpse.is_none(),
            forall|i: int| 0 <= i < 4 ==> #[trigger] r.gfx.frames@[i] == frame,
    {
        let combat = 1 + rolls[0] / 2 + level / 2;
        let defence = 1 + rolls[1] / 2 + level / 2;
        let manoeuvre = 3 + rolls[2] / 2 + level / 4;
        let magical_resistance = 6 + rolls[3] / 4;
        let spells = 11 + rolls[4] / 4 + level;
        let number_of_spells = if spells < 20 { spells } else { 20 };
        let r = rolls[5];
        let threshold: i16 = 5 - (level / 2) as i16;
        let spell_ability = if r as i16 >= threshold { r / 4 } else { 0 };
        let gfx = Gfx { timing: 30, frames: [frame, frame, frame, frame], corpse: None };
        WizardStats {
            base: BaseStats {
                name,
                combat,
                defence,
                movement: 1,
                manoeuvre,
                magical_resistance,
                ranged_combat: 0,
                range: 0,
            },
            attack_buff: None,
            defence_buff: None,
            magic_wings: false,
            magic_bow: false,
            number_of_spells,
            spell_ability,
            shadow_form: false,
            gfx,
        }
    }

    /// Random starting stats for a wizard of the given level.
    pub fn new(name: String, frame: Frame, level: u8) -> (r: WizardStats)
        requires
            level <= 20,
        ensures
            r.base.name == name,
            r.base.movement == 1,
            r.attack_buff.is_none(),
            r.defence_buff.is_none(),
            !r.magic_wings && !r.magic_bow && !r.shadow_form,
            r.number_of_spells <= 20,
            1 <= r.base.combat <= 5 + level / 2,
            6 <= r.base.magical_resistance <= 8,
    {
        let rolls = [
            crate::dice::roll_d10(),
            crate::dice::roll_d10(),
            crate::dice::roll_d10(),
            crate::dice::roll_d10(),
            crate::dice::roll_d10(),
            crate::dice::roll_d10(),
        ];
        WizardStats::from_rolls(name, frame, level, rolls)
    }

    /// Arms the wizard with the magic knife: the given bitmaps become its frames.
    pub fn magic_knife(&mut self, bytes: &[[u8; 32]; 4])
        ensures
            final(self).gfx.frames@.len() == 4,
            forall|i: int| 0 <= i < 4 ==> #[trigger] final(self).gfx.frames@[i] == with_bytes(old(self).gfx.frames@[i], bytes@[i]),
            final(self).attack_buff == Some(AttackBuff::MagicKnife),
            *final(self) == (WizardStats { attack_buff: Some(AttackBuff::MagicKnife), gfx: final(self).gfx, ..*old(self) }),
    {
        self.attack_buff = Some(AttackBuff::MagicKnife);
        self.gfx.change_frame_bytes(bytes);
    }

    /// Arms the wizard with the magic sword: the given bitmaps become its frames.
    pub fn magic_sword(&mut self, bytes: &[[u8; 32]; 4])
        ensures
            forall|i: int| 0 <= i < 4 ==> #[trigger] final(self).gfx.frames@[i] == with_bytes(old(self).gfx.frames@[i], bytes@[i]),
            *final(self) == (WizardStats { attack_buff: Some(AttackBuff::MagicSword), gfx: final(self).gfx, ..*old(self) }),
    {
        self.attack_buff = Some(AttackBuff::MagicSword);
        self.gfx.change_frame_bytes(bytes);
    }

    /// Gives the wizard the magic shield, drawn with one bitmap in every frame.
    pub fn magic_shield(&mut self, bytes: &[u8; 32])
        ensures
            forall|i: int| 0 <= i < 4 ==> #[trigger] final(self).gfx.frames@[i] == with_bytes(old(self).gfx.frames@[i], *bytes),
            *final(self) == (WizardStats { defence_buff: Some(DefenceBuff::MagicShield), gfx: final(self).gfx, ..*old(self) }),
    {
        self.defence_buff = Some(DefenceBuff::MagicShield);
        let all = [*bytes, *bytes, *bytes, *bytes];
        self.gfx.change_frame_bytes(&all);
    }

    /// Gives the wizard the magic armour, drawn with one bitmap in every frame.
    pub fn magic_armour(&mut self, bytes: &[u8; 32])
        ensures
            forall|i: int| 0 <= i < 4 ==> #[trigger] final(self).gfx.frames@[i] == with_bytes(old(self).gfx.frames@[i], *bytes),
            *final(self) == (WizardStats { defence_buff: Some(DefenceBuff::MagicArmour), gfx: final(self).gfx, ..*old(self) }),
    {
        self.defence_buff = Some(DefenceBuff::MagicArmour);
        let all = [*bytes, *bytes, *bytes, *bytes];
        self.gfx.change_frame_bytes(&all);
    }

    /// Gives the wizard magic wings, so that it flies.
    pub fn magic_wings(&mut self, bytes: &[[u8; 32]; 4])
        ensures
            forall|i: int| 0 <= i < 4 ==> #[trigger] final(self).gfx.frames@[i] == with_bytes(old(self).gfx.frames@[i], bytes@[i]),
            *final(self) == (WizardStats { magic_wings: true, gfx: final(self).gfx, ..*old(self) }),
    {
        self.magic_wings = true;
        self.gfx.change_frame_bytes(bytes);
    }

    /// Gives the wizard the magic bow, for ranged combat.
    pub fn magic_bow(&mut self, bytes: &[[u8; 32]; 4])
        ensures
            forall|i: int| 0 <= i < 4 ==> #[trigger] final(self).gfx.frames@[i] == with_bytes(old(self).gfx.frames@[i], bytes@[i]),
            *final(self) == (WizardStats { magic_bow: true, gfx: final(self).gfx, ..*old(self) }),
    {
        self.magic_bow = true;
        self.gfx.change_frame_bytes(bytes);
    }

    pub fn get_combat(&self) -> (r: u8)
        ensures
            r == combat_of(*self),
            r <= 9,
    {
        let bonus: u16 = match self.attack_buff {
            Some(AttackBuff::MagicKnife) => 2,
            Some(AttackBuff::MagicSword) => 4,
            None => 0,
        };
        let combat = self.base.combat as u16 + bonus;
        if combat < 9 { combat as u8 } else { 9 }
    }

    pub fn get_defence(&self) -> (r: u8)
        ensures
            r == defence_of(*self),
            r <= 9,
    {
        let bonus: u16 = match self.defence_buff {
            Some(DefenceBuff::MagicShield) => 2,
            Some(DefenceBuff::MagicArmour) => 4,
            None => 0,
        };
        let shadow: u16 = if self.shadow_form { 3 } else { 0 };
        let defence = self.base.defence as u16 + bonus + shadow;
        if defence < 9 { defence as u8 } else { 9 }
    }

    /// Ranged combat: 3 with the magic bow, else none.
    pub fn get_ranged_combat(&self) -> (r: u8)
        ensures
            r == (if self.magic_bow { 3u8 } else { 0u8 }),
    {
        if self.magic_bow { 3 } else { 0 }
    }

    /// Range: 6 with the magic bow, else none.
    pub fn get_range(&self) -> (r: u8)
        ensures
            r == (if self.magic_bow { 6u8 } else { 0u8 }),
    {
        if self.magic_bow { 6 } else { 0 }
    }

    pub fn get_movement(&self) -> (r: u8)
        ensures
            r == movement_of(*self),
    {
        if self.shadow_form { self.base.movement.saturating_add(2) } else { self.base.movement }
    }
}

} // verus!
