//! The characters that effects animate.

use vstd::prelude::*;
use crate::utils::graphics::Color;

verus! {

/// A position on the canvas: columns count from 1 at the left, rows from 1
/// at the bottom and grow upwards.
#[derive(Clone, Copy, PartialEq, Eq, Structural, Debug, Hash)]
pub struct Coord {
    pub column: i64,
    pub row: i64,
}

/// Index of a character in the terminal's arena.
#[derive(Clone, Copy, PartialEq, Eq, Structural, Debug, Hash)]
pub struct CharId(pub u32);

/// What an effect has set on a character's appearance.
#[derive(Clone, Copy, PartialEq, Eq, Structural, Debug)]
pub struct CharacterAnimation {
    /// Foreground color the character shows with its input symbol.
    pub input_fg_color: Option<Color>,
}

/// One character of the canvas.
#[derive(Debug)]
pub struct EffectCharacter {
    /// The symbol as it stands in the input.
    pub input_symbol: String,
    /// Where the symbol stands in the input.
    pub input_coord: Coord,
    /// True for characters that only fill the canvas around the input.
    pub is_fill_character: bool,
    pub animation: CharacterAnimation,
    /// True once the character is to be drawn with its input colors.
    pub uses_input_preexisting_colors: bool,
}

impl EffectCharacter {
    /// An input character with no color of its own yet.
    pub fn new(input_symbol: String, input_coord: Coord) -> (ch: EffectCharacter)
        ensures
            ch.input_symbol@ == input_symbol@,
            ch.input_coord == input_coord,
            !ch.is_fill_character,
            ch.animation.input_fg_color is None,
            !ch.uses_input_preexisting_colors,
    {
        EffectCharacter {
            input_symbol,
            input_coord,
            is_fill_character: false,
            animation: CharacterAnimation { input_fg_color: None },
            uses_input_preexisting_colors: false,
        }
    }
}

} // verus!
