//! Palettes: a non-empty list of colors, looked up by index.

use vstd::prelude::*;
use crate::utils::graphics::Color;

verus! {

/// A non-empty list of colors. Index 0 is the first color; indices past
/// the end wrap around to the start.
pub struct Palette {
    colors: Vec<Color>,
}

impl View for Palette {
    type V = Seq<Color>;

    closed spec fn view(&self) -> Seq<Color> {
        self.colors@
    }
}

impl Palette {
    #[verifier::type_invariant]
    spec fn non_empty(self) -> bool {
        self.colors@.len() > 0
    }

    /// The color that `color(i)` gives.
    pub open spec fn spec_color(self, i: int) -> Color {
        self@[i % (self@.len() as int)]
    }

    /// A palette of the given colors; `None` when there are none.
    pub fn new(colors: Vec<Color>) -> (palette: Option<Palette>)
        ensures
            palette is Some <==> colors@.len() > 0,
            palette matches Some(p) ==> p@ == colors@,
    {
        if colors.len() == 0 {
            None
        } else {
            Some(Palette { colors })
        }
    }

    /// Number of colors in the palette.
    pub fn len(&self) -> (n: usize)
        ensures
            n == self@.len(),
            n > 0,
    {
        proof {
            use_type_invariant(self);
        }
        self.colors.len()
    }

    /// The color at `index`, counted cyclically.
    pub fn color(&self, index: usize) -> (c: Color)
        ensures
            c == self.spec_color(index as int),
    {
        proof {
            use_type_invariant(self);
        }
        self.colors[index % self.colors.len()]
    }
}

} // verus!
