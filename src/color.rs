use vstd::prelude::*;

verus! {

/// The sixteen colours of the game's palette.
#[derive(Clone, Copy, Debug, PartialEq, Eq, Structural)]
pub enum Color {
    Black,
    Blue,
    Red,
    Magenta,
    Green,
    Cyan,
    Yellow,
    White,
    BrightBlack,
    BrightBlue,
    BrightRed,
    BrightMagenta,
    BrightGreen,
    BrightCyan,
    BrightYellow,
    BrightWhite,
}

#[derive(Clone, Copy, Debug, PartialEq, Eq, Structural)]
pub enum ColorError {
    InvalidColor,
}

/// The packed `0xRRGGBB` value of a colour.
pub open spec fn rgb_of(c: Color) -> u32 {
    match c {
        Color::Black => 0x090909,
        Color::Blue => 0x1d00a6,
        Color::Red => 0x8c0000,
        Color::Magenta => 0x9d00a1,
        Color::Green => 0x008f00,
        Color::Cyan => 0x00a6a8,
        Color::Yellow => 0xb6b400,
        Color::White => 0xcccccc,
        Color::BrightBlack => 0x090909,
        Color::BrightBlue => 0x2200ba,
        Color::BrightRed => 0xa40000,
        Color::BrightMagenta => 0xba00bd,
        Color::BrightGreen => 0x00af00,
        Color::BrightCyan => 0x00cccd,
        Color::BrightYellow => 0xe1e000,
        Color::BrightWhite => 0xffffff,
    }
}

/// The palette position of a colour, 0 to 15.
pub open spec fn index_of(c: Color) -> usize {
    match c {
        Color::Black => 0,
        Color::Blue => 1,
        Color::Red => 2,
        Color::Magenta => 3,
        Color::Green => 4,
        Color::Cyan => 5,
        Color::Yellow => 6,
        Color::White => 7,
        Color::BrightBlack => 8,
        Color::BrightBlue => 9,
        Color::BrightRed => 10,
        Color::BrightMagenta => 11,
        Color::BrightGreen => 12,
        Color::BrightCyan => 13,
        Color::BrightYellow => 14,
        Color::BrightWhite => 15,
    }
}

/// The background colour that every empty pixel holds.
pub open spec fn background_rgb() -> u32 {
    rgb_of(Color::Black)
}

impl Color {
    pub fn rgb(self) -> (r: u32)
        ensures
            r == rgb_of(self),
    {
        match self {
            Color::Black => 0x090909,
            Color::Blue => 0x1d00a6,
            Color::Red => 0x8c0000,
            Color::Magenta => 0x9d00a1,
            Color::Green => 0x008f00,
            Color::Cyan => 0x00a6a8,
            Color::Yellow => 0xb6b400,
            Color::White => 0xcccccc,
            Color::BrightBlack => 0x090909,
            Color::BrightBlue => 0x2200ba,
            Color::BrightRed => 0xa40000,
            Color::BrightMagenta => 0xba00bd,
            Color::BrightGreen => 0x00af00,
            Color::BrightCyan => 0x00cccd,
            Color::BrightYellow => 0xe1e000,
            Color::BrightWhite => 0xffffff,
        }
    }

    pub fn index(self) -> (r: usize)
        ensures
            r == index_of(self),
            r < 16,
    {
        match self {
            Color::Black => 0,
            Color::Blue => 1,
            Color::Red => 2,
            Color::Magenta => 3,
            Color::Green => 4,
            Color::Cyan => 5,
            Color::Yellow => 6,
            Color::White => 7,
            Color::BrightBlack => 8,
            Color::BrightBlue => 9,
            Color::BrightRed => 10,
            Color::BrightMagenta => 11,
            Color::BrightGreen => 12,
            Color::BrightCyan => 13,
            Color::BrightYellow => 14,
            Color::BrightWhite => 15,
        }
    }

    /// The colour at a palette position; positions past 15 are rejected.
    pub fn try_from(value: u8) -> (r: Result<Color, ColorError>)
        ensures
            value < 16 ==> (r.is_ok() && index_of(r->Ok_0) == value as usize),
            value >= 16 ==> r == Err::<Color, ColorError>(ColorError::InvalidColor),
    {
        match value {
            0 => Ok(Color::Black),
            1 => Ok(Color::Blue),
            2 => Ok(Color::Red),
            3 => Ok(Color::Magenta),
            4 => Ok(Color::Green),
            5 => Ok(Color::Cyan),
            6 => Ok(Color::Yellow),
            7 => Ok(Color::White),
            8 => Ok(Color::BrightBlack),
            9 => Ok(Color::BrightBlue),
            10 => Ok(Color::BrightRed),
            11 => Ok(Color::BrightMagenta),
            12 => Ok(Color::BrightGreen),
            13 => Ok(Color::BrightCyan),
            14 => Ok(Color::BrightYellow),
            15 => Ok(Color::BrightWhite),
            _ => Err(ColorError::InvalidColor),
        }
    }
}

/// Packs a foreground and background colour into one palette index.
pub fn to_color_index(fg: Color, bg: Color) -> (r: usize)
    ensures
        r == index_of(fg) * 16 + index_of(bg),
        r < 256,
{
    fg.index() * 16 + bg.index()
}

/// Unpacks a palette index made by `to_color_index`; only its low eight bits are read.
pub fn to_color_tuple(value: usize) -> (r: Result<(Color, Color), ColorError>)
    ensures
        r.is_ok(),
        index_of(r->Ok_0.0) == (value % 256) / 16,
        index_of(r->Ok_0.1) == value % 16,
{
    let fg_index = ((value % 256) / 16) as u8;
    let bg_index = (value % 16) as u8;
    let fg = match Color::try_from(fg_index) {
        Ok(c) => c,
        Err(e) => return Err(e),
    };
    let bg = match Color::try_from(bg_index) {
        Ok(c) => c,
        Err(e) => return Err(e),
    };
    Ok((fg, bg))
}

} // verus!
