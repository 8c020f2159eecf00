use crate::color::Color;
use crate::stats::{CreationStats, Frame};
use vstd::prelude::*;

verus! {

/// A creation on the board: a summoned or mundane unit, a spawn, or a corpse.
#[derive(Clone, Debug)]
pub struct GameCreation {
    pub id: u32,
    pub moves_left: u8,
    pub stats: CreationStats,
    pub frame_count: u8,
    pub current_frame: u8,
    pub illusion: bool,
}

/// The frame shown now; the frame counter is read modulo four.
pub open spec fn shown_frame(stats: CreationStats, current_frame: u8) -> Frame {
    stats.gfx.frames@[(current_frame % 4) as int]
}

/// Whether a killed creation leaves a corpse.
pub open spec fn leaves_corpse(c: GameCreation) -> bool {
    !(c.illusion || c.stats.undead || c.stats.magic_wood || c.stats.shadow_wood)
}

/// The animation counters after one tick.
pub open spec fn ticked(frame_count: u8, current_frame: u8, timing: u8) -> (u8, u8) {
    if frame_count == timing {
        (0, if current_frame as int + 1 >= 4 { 0 } else { (current_frame + 1) as u8 })
    } else {
        (((frame_count as int + 1) % 256) as u8, current_frame)
    }
}

impl GameCreation {
    pub fn new(id: u32, stats: CreationStats) -> (r: GameCreation)
        ensures
            r.id == id,
            r.stats == stats,
            r.moves_left == 0,
            r.frame_count == 0,
            r.current_frame == 0,
            !r.illusion,
    {
        GameCreation { id, moves_left: 0, stats, frame_count: 0, current_frame: 0, illusion: false }
    }

    /// A field-for-field copy.
    pub fn duplicate(&self) -> (r: GameCreation)
        ensures
            r == *self,
    {
        GameCreation { stats: self.stats.duplicate(), ..*self }
    }

    pub fn has_a_corpse(&self) -> (r: bool)
        ensures
            r == leaves_corpse(*self),
    {
        !(self.illusion || self.stats.undead || self.stats.magic_wood || self.stats.shadow_wood)
    }

    /// Whether this creation holds a piece of the given manoeuvre rating in combat.
    pub fn is_engaged(&self, manoeuvre: u8) -> (r: bool)
        ensures
            exists|a: int, b: int|
                0 <= a <= 9 && 0 <= b <= 9 && r == crate::combat::engaged_by(
                    self.stats.base.manoeuvre as int,
                    manoeuvre as int,
                    a,
                    b,
                ),
    {
        crate::combat::manoeuvre_contest(self.stats.base.manoeuvre, manoeuvre)
    }

    /// Whether an attack of the given combat value kills this creation.
    pub fn defend_against_attack(&self, combat: u8) -> (r: bool)
        ensures
            exists|a: int, d: int|
                0 <= a <= 9 && 0 <= d <= 9 && r == crate::combat::attack_beats(
                    combat as int,
                    self.stats.base.defence as int,
                    a,
                    d,
                ),
    {
        crate::combat::opposed_attack(combat, self.stats.base.defence)
    }

    /// Whether a magical attack of the given spell ability overcomes this
    /// creation's magical resistance.
    pub fn defend_against_magical_attack(&self, spell_ability: u8) -> (r: bool)
        ensures
            exists|a: int, d: int|
                0 <= a <= 9 && 0 <= d <= 9 && r == crate::combat::attack_beats(
                    spell_ability as int,
                    self.stats.base.magical_resistance as int,
                    a,
                    d,
                ),
    {
        crate::combat::opposed_attack(spell_ability, self.stats.base.magical_resistance)
    }

    pub fn current_frame(&self) -> (r: Frame)
        ensures
            r == shown_frame(self.stats, self.current_frame),
    {
        self.stats.gfx.frames[(self.current_frame % 4) as usize]
    }

    pub fn current_bytes(&self) -> (r: [u8; 32])
        ensures
            r == shown_frame(self.stats, self.current_frame).bytes,
    {
        self.stats.gfx.frames[(self.current_frame % 4) as usize].bytes
    }

    /// The colour of this creation's missiles: the foreground of its first frame.
    pub fn projectile_color(&self) -> (r: Color)
        ensures
            r == self.stats.gfx.frames@[0].fg,
    {
        self.stats.gfx.frames[0].fg
    }

    /// Whether a combustible shelter burns away this round: a throw of 9, one
    /// chance in ten.
    pub fn should_disappear(&self) -> bool {
        crate::dice::roll_d10() >= 9
    }

    /// Advances the animation by one tick.
    pub fn tic(&mut self)
        ensures
            (final(self).frame_count, final(self).current_frame) == ticked(
                old(self).frame_count,
                old(self).current_frame,
                old(self).stats.gfx.timing,
            ),
            *final(self) == (GameCreation {
                frame_count: final(self).frame_count,
                current_frame: final(self).current_frame,
                ..*old(self)
            }),
    {
        if self.frame_count == self.stats.gfx.timing {
            self.frame_count = 0;
            if self.current_frame >= 3 {
                self.current_frame = 0;
            } else {
                self.current_frame = self.current_frame + 1;
            }
        } else {
            self.frame_count = self.frame_count.wrapping_add(1);
        }
    }
}

} // verus!
