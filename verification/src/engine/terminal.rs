//! The terminal: the arena of characters that an effect works on.

use vstd::prelude::*;
use crate::engine::character::{CharId, EffectCharacter};

verus! {

/// All characters of the canvas, and which of them come from the input.
pub struct Terminal {
    /// Every character, addressed by `CharId`.
    pub arena: Vec<EffectCharacter>,
    /// The ids of the input characters, in input order.
    pub input_characters: Vec<CharId>,
}

/// Whether every input id addresses a character of the arena.
pub open spec fn ids_in_arena(arena: Seq<EffectCharacter>, ids: Seq<CharId>) -> bool {
    forall|k: int| 0 <= k < ids.len() ==> (#[trigger] ids[k]).0 < arena.len()
}

impl Terminal {
    /// Whether every input id addresses a character of the arena.
    pub open spec fn well_formed(&self) -> bool {
        ids_in_arena(self.arena@, self.input_characters@)
    }

    /// A terminal whose arena holds `characters`, all of them input
    /// characters, in order.
    pub fn from_input_characters(characters: Vec<EffectCharacter>) -> (terminal: Terminal)
        requires
            characters@.len() <= 0x1_0000_0000,
        ensures
            terminal.arena@ == characters@,
            terminal.input_characters@.len() == characters@.len(),
            forall|k: int|
                0 <= k < characters@.len() ==> (#[trigger] terminal.input_characters@[k]).0 == k,
            terminal.well_formed(),
    {
        let n = characters.len();
        let mut ids: Vec<CharId> = Vec::new();
        let mut i: usize = 0;
        while i < n
            invariant
                n == characters@.len(),
                n <= 0x1_0000_0000,
                i <= n,
                ids@.len() == i,
                forall|k: int| 0 <= k < i ==> (#[trigger] ids@[k]).0 == k,
            decreases n - i,
        {
            ids.push(CharId(i as u32));
            i = i + 1;
        }
        Terminal { arena: characters, input_characters: ids }
    }
}

/// One displayed frame, packed for the browser: `width * height` cells,
/// top row first, as a string of symbols and parallel vectors of
/// foreground colors, background colors and style flags.
pub struct PackedFrame {
    pub width: usize,
    pub height: usize,
    pub symbols: String,
    pub fg: Vec<u32>,
    pub bg: Vec<u32>,
    pub flags: Vec<u8>,
}

impl PackedFrame {
    /// Whether each of the symbols, foreground colors, background colors
    /// and flags holds one entry per cell: `width * height` of them.
    pub open spec fn well_formed(&self) -> bool {
        let cells = self.width * self.height;
        &&& self.symbols@.len() == cells
        &&& self.fg@.len() == cells
        &&& self.bg@.len() == cells
        &&& self.flags@.len() == cells
    }

    /// The frame with no cells.
    pub fn empty() -> (frame: PackedFrame)
        ensures
            frame.width == 0,
            frame.height == 0,
            frame.symbols@ == Seq::<char>::empty(),
            frame.fg@ == Seq::<u32>::empty(),
            frame.bg@ == Seq::<u32>::empty(),
            frame.flags@ == Seq::<u8>::empty(),
            frame.well_formed(),
    {
        PackedFrame {
            width: 0,
            height: 0,
            symbols: String::new(),
            fg: Vec::new(),
            bg: Vec::new(),
            flags: Vec::new(),
        }
    }
}

} // verus!
