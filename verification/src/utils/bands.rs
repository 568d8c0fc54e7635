//! Vertical field bands on the input word: 3, 1, 3, 2, 4 units crest to dim.
//!
//! The drawing is 13 units tall. `t` is 0 at the top of the word and 1
//! at the bottom. Palette color 0 is crest, then hover, lit, mid, dim.

use vstd::prelude::*;
use crate::engine::character::{CharacterAnimation, CharId, EffectCharacter};
use crate::engine::terminal::{ids_in_arena, Terminal};
use crate::utils::graphics::Color;
use crate::utils::palette::Palette;
use crate::utils::text::{is_blank, is_blank_seq};

verus! {

/// Crest, hover, lit, mid, dim: top to bottom.
pub const FIELD_BAND_UNITS: [u32; 5] = [3, 1, 3, 2, 4];

/// Sum of the first `n` entries of `units`.
pub open spec fn units_prefix(units: Seq<u32>, n: int) -> int
    decreases n,
{
    if n <= 0 {
        0
    } else {
        units_prefix(units, n - 1) + units[n - 1] as int
    }
}

/// Sum of all entries of `units`.
pub open spec fn units_total(units: Seq<u32>) -> int {
    units_prefix(units, units.len() as int)
}

/// The prefix sums of the band units: 0, 3, 4, 7, 9, 13.
pub proof fn lemma_field_band_prefixes()
    ensures
        FIELD_BAND_UNITS@ == seq![3u32, 1, 3, 2, 4],
        units_prefix(FIELD_BAND_UNITS@, 0) == 0,
        units_prefix(FIELD_BAND_UNITS@, 1) == 3,
        units_prefix(FIELD_BAND_UNITS@, 2) == 4,
        units_prefix(FIELD_BAND_UNITS@, 3) == 7,
        units_prefix(FIELD_BAND_UNITS@, 4) == 9,
        units_prefix(FIELD_BAND_UNITS@, 5) == 13,
        units_total(FIELD_BAND_UNITS@) == 13,
{
    assert(FIELD_BAND_UNITS@ =~= seq![3u32, 1, 3, 2, 4]);
    reveal_with_fuel(units_prefix, 6);
}

/// Total height of the drawing, in units.
pub fn field_band_rows() -> (rows: u32)
    ensures
        rows == units_total(FIELD_BAND_UNITS@),
        rows == 13,
{
    let units = FIELD_BAND_UNITS;
    proof {
        lemma_field_band_prefixes();
    }
    let mut sum: u32 = 0;
    let mut i: usize = 0;
    while i < units.len()
        invariant
            units@ == FIELD_BAND_UNITS@,
            i <= units.len(),
            sum == units_prefix(units@, i as int),
            units_total(units@) == 13,
        decreases units.len() - i,
    {
        proof {
            lemma_prefix_monotone(units@, i + 1, units@.len() as int);
        }
        sum = sum + units[i];
        i = i + 1;
    }
    sum
}

/// `num` clamped to `[0, den]`: the fraction `num / den` clamped to `[0, 1]`.
pub open spec fn clamp_to(num: int, den: int) -> int {
    if num < 0 {
        0
    } else if num > den {
        den
    } else {
        num
    }
}

/// First band at or after `i` whose running total, as a fraction of the
/// whole, lies beyond `t = num / den`; the last band when none does.
pub open spec fn band_scan(units: Seq<u32>, num: int, den: int, i: int) -> int
    decreases units.len() - i,
{
    if i >= units.len() {
        units.len() - 1
    } else if num * units_total(units) < units_prefix(units, i + 1) * den {
        i
    } else {
        band_scan(units, num, den, i + 1)
    }
}

/// Which band `t = num / den` (0 at the top, 1 at the bottom, clamped to
/// that range) falls in, for bands of the given heights: the first band
/// `i` with `t * total < units[0] + ... + units[i]`, and the last band when
/// there is none. With no units, or units that sum to zero, band 0.
pub open spec fn band_index(units: Seq<u32>, num: int, den: int) -> int {
    if units.len() == 0 || units_total(units) == 0 {
        0
    } else {
        band_scan(units, clamp_to(num, den), den, 0)
    }
}

/// Running totals never decrease.
pub proof fn lemma_prefix_monotone(units: Seq<u32>, i: int, j: int)
    requires
        0 <= i <= j <= units.len(),
    ensures
        0 <= units_prefix(units, i) <= units_prefix(units, j),
    decreases j,
{
    if j > 0 {
        if i < j {
            lemma_prefix_monotone(units, i, j - 1);
        } else {
            lemma_prefix_monotone(units, j - 1, j - 1);
        }
    }
}

/// The band is scanned from `i` on, so it is never before `i` and never
/// past the last band.
proof fn lemma_band_scan_range(units: Seq<u32>, num: int, den: int, i: int)
    requires
        0 <= i <= units.len(),
        units.len() > 0,
    ensures
        i <= band_scan(units, num, den, i) || i == units.len(),
        0 <= band_scan(units, num, den, i) < units.len(),
        band_scan(units, num, den, i) == units.len() - 1 || num * units_total(units) < units_prefix(
            units,
            band_scan(units, num, den, i) + 1,
        ) * den,
    decreases units.len() - i,
{
    if i < units.len() {
        lemma_band_scan_range(units, num, den, i + 1);
    }
}

/// The scan from `i` passes every band before the one it stops at.
proof fn lemma_band_scan_passes(units: Seq<u32>, num: int, den: int, i: int, j: int)
    requires
        0 <= i <= j < band_scan(units, num, den, i),
        units.len() > 0,
    ensures
        !(num * units_total(units) < units_prefix(units, j + 1) * den),
    decreases units.len() - i,
{
    if i < units.len() && !(num * units_total(units) < units_prefix(units, i + 1) * den) && i < j {
        lemma_band_scan_passes(units, num, den, i + 1, j);
    }
}

/// Scanning a larger fraction never stops at an earlier band.
proof fn lemma_band_scan_monotone(units: Seq<u32>, num1: int, num2: int, den: int, i: int)
    requires
        0 <= i <= units.len(),
        units.len() > 0,
        num1 <= num2,
        den > 0,
        units_total(units) >= 0,
    ensures
        band_scan(units, num1, den, i) <= band_scan(units, num2, den, i),
    decreases units.len() - i,
{
    if i < units.len() {
        let t = units_total(units);
        assert(num1 * t <= num2 * t) by (nonlinear_arith)
            requires num1 <= num2, t >= 0;
        lemma_band_scan_range(units, num2, den, i);
        lemma_band_scan_range(units, num1, den, i + 1);
        lemma_band_scan_monotone(units, num1, num2, den, i + 1);
    }
}

/// The band of `t` is the band whose stretch of the word holds `t`: the
/// units above it make up no more than `t` of the total, and the units up
/// to and including it make up more than `t`, or it is the last band.
pub proof fn lemma_band_index_holds_fraction(units: Seq<u32>, num: int, den: int)
    requires
        units.len() > 0,
        units_total(units) > 0,
        den > 0,
        0 <= num <= den,
    ensures
        0 <= band_index(units, num, den) < units.len(),
        units_prefix(units, band_index(units, num, den)) * den <= num * units_total(units),
        num * units_total(units) < units_prefix(units, band_index(units, num, den) + 1) * den
            || band_index(units, num, den) == units.len() - 1,
{
    let b = band_index(units, num, den);
    lemma_band_scan_range(units, num, den, 0);
    if b > 0 {
        lemma_band_scan_passes(units, num, den, 0, b - 1);
    }
}

/// A fraction further down the word never falls in a band above the band
/// of a fraction higher up: bands run crest to dim, top to bottom.
pub proof fn lemma_band_index_monotone(units: Seq<u32>, num1: int, num2: int, den: int)
    requires
        num1 <= num2,
        den > 0,
    ensures
        band_index(units, num1, den) <= band_index(units, num2, den),
{
    if units.len() > 0 && units_total(units) != 0 {
        lemma_prefix_monotone(units, 0, units.len() as int);
        lemma_band_scan_monotone(units, clamp_to(num1, den), clamp_to(num2, den), den, 0);
    }
}

/// Band of `num / den` for the given units, with the fraction held in
/// `u128` so that the products below stay in range.
fn band_index_scaled(num: u128, den: u128, units: &[u32]) -> (band: usize)
    requires
        0 < den < 0x1_0000_0000_0000_0000_0000_0000u128,
        num <= den,
        units_total(units@) <= u32::MAX,
    ensures
        band == band_index(units@, num as int, den as int),
{
    let n = units.len();
    let mut total: u32 = 0;
    let mut i: usize = 0;
    while i < n
        invariant
            n == units@.len(),
            i <= n,
            total == units_prefix(units@, i as int),
            units_total(units@) <= u32::MAX,
        decreases n - i,
    {
        proof {
            lemma_prefix_monotone(units@, i + 1, n as int);
        }
        total = total + units[i];
        i = i + 1;
    }
    if total == 0 || n == 0 {
        return 0;
    }
    proof {
        assert(num * total <= den * total) by (nonlinear_arith)
            requires num <= den;
        assert(den * total < 0x1_0000_0000_0000_0000_0000_0000u128 * 0x1_0000_0000u128) by (nonlinear_arith)
            requires den < 0x1_0000_0000_0000_0000_0000_0000u128, total < 0x1_0000_0000u128;
    }
    let u: u128 = num * (total as u128);
    let mut acc: u32 = 0;
    let mut j: usize = 0;
    while j < n
        invariant
            n == units@.len(),
            n > 0,
            j <= n,
            total as int == units_total(units@),
            total > 0,
            acc == units_prefix(units@, j as int),
            u == num * total,
            0 < den < 0x1_0000_0000_0000_0000_0000_0000u128,
            num <= den,
            band_scan(units@, num as int, den as int, 0) == band_scan(units@, num as int, den as int, j as int),
        decreases n - j,
    {
        proof {
            lemma_prefix_monotone(units@, j + 1, n as int);
        }
        acc = acc + units[j];
        proof {
            assert(acc * den < 0x1_0000_0000u128 * 0x1_0000_0000_0000_0000_0000_0000u128) by (nonlinear_arith)
                requires den < 0x1_0000_0000_0000_0000_0000_0000u128, acc < 0x1_0000_0000u128;
        }
        let scaled: u128 = (acc as u128) * den;
        if u < scaled {
            return j;
        }
        j = j + 1;
    }
    n - 1
}

/// Which of the bands `units` (top to bottom) the fraction `num / den`
/// falls in, with the fraction clamped to `[0, 1]`: 0 is the top of the
/// word, 1 the bottom.
pub fn field_band_index_in_fraction(num: u64, den: u64, units: &[u32]) -> (band: usize)
    requires
        den > 0,
        units_total(units@) <= u32::MAX,
    ensures
        band == band_index(units@, num as int, den as int),
        units@.len() > 0 ==> band < units@.len(),
{
    let clamped: u64 = if num > den { den } else { num };
    proof {
        if units@.len() > 0 {
            lemma_band_scan_range(units@, clamped as int, den as int, 0);
        }
    }
    band_index_scaled(clamped as u128, den as u128, units)
}

/// Which of the field bands (crest, hover, lit, mid, dim) the fraction
/// `num / den` falls in, clamped to `[0, 1]`.
pub fn field_band_index_fraction(num: u64, den: u64) -> (band: usize)
    requires
        den > 0,
    ensures
        band == band_index(FIELD_BAND_UNITS@, num as int, den as int),
        band < 5,
{
    proof {
        lemma_field_band_prefixes();
    }
    let units = FIELD_BAND_UNITS;
    field_band_index_in_fraction(num, den, units.as_slice())
}

/// Characters that take no band: fill characters, and those whose symbol
/// is blank.
pub open spec fn is_skipped(ch: EffectCharacter) -> bool {
    ch.is_fill_character || is_blank_seq(ch.input_symbol@)
}

/// How much of a terminal cell a glyph inks, in half-pixels from the cell
/// top: an upper half block the top half, a lower half block the bottom
/// half, anything else the whole cell.
pub open spec fn glyph_half_span(symbol: Seq<char>) -> (int, int) {
    if symbol.len() > 0 && symbol[0] == '\u{2580}' {
        (0, 1)
    } else if symbol.len() > 0 && symbol[0] == '\u{2584}' {
        (1, 2)
    } else {
        (0, 2)
    }
}

/// Occupied half-pixel range `[lo, hi)` of a character, counted from the
/// top of the row `top_row`: every row below it is two half-pixels further
/// down.
pub open spec fn half_range(top_row: int, ch: EffectCharacter) -> (int, int) {
    let line = top_row - ch.input_coord.row;
    let span = glyph_half_span(ch.input_symbol@);
    (2 * line + span.0, 2 * line + span.1)
}

/// The character that input position `k` names.
pub open spec fn input_char(arena: Seq<EffectCharacter>, ids: Seq<CharId>, k: int) -> EffectCharacter {
    arena[ids[k].0 as int]
}

/// The largest row among the first `n` input characters that are not
/// skipped; `i64::MIN` when there is none.
pub open spec fn top_row(arena: Seq<EffectCharacter>, ids: Seq<CharId>, n: int) -> int
    decreases n,
{
    if n <= 0 {
        i64::MIN as int
    } else {
        let m = top_row(arena, ids, n - 1);
        let ch = input_char(arena, ids, n - 1);
        if !is_skipped(ch) && ch.input_coord.row > m {
            ch.input_coord.row as int
        } else {
            m
        }
    }
}

/// The smallest `lo` of the half-pixel ranges of the first `n` input
/// characters that are not skipped; `i128::MAX` when there is none.
pub open spec fn lowest_half(arena: Seq<EffectCharacter>, ids: Seq<CharId>, top: int, n: int) -> int
    decreases n,
{
    if n <= 0 {
        i128::MAX as int
    } else {
        let m = lowest_half(arena, ids, top, n - 1);
        let ch = input_char(arena, ids, n - 1);
        if !is_skipped(ch) && half_range(top, ch).0 < m {
            half_range(top, ch).0
        } else {
            m
        }
    }
}

/// The largest `hi` of the half-pixel ranges of the first `n` input
/// characters that are not skipped; `i128::MIN` when there is none.
pub open spec fn highest_half(arena: Seq<EffectCharacter>, ids: Seq<CharId>, top: int, n: int) -> int
    decreases n,
{
    if n <= 0 {
        i128::MIN as int
    } else {
        let m = highest_half(arena, ids, top, n - 1);
        let ch = input_char(arena, ids, n - 1);
        if !is_skipped(ch) && half_range(top, ch).1 > m {
            half_range(top, ch).1
        } else {
            m
        }
    }
}

/// The band of a character of the word: where the middle of its inked
/// half-pixels lies between the top of the word's ink (`t = 0`) and its
/// bottom (`t = 1`).
pub open spec fn field_band_of(arena: Seq<EffectCharacter>, ids: Seq<CharId>, ch: EffectCharacter) -> int {
    let top = top_row(arena, ids, ids.len() as int);
    let low = lowest_half(arena, ids, top, ids.len() as int);
    let high = highest_half(arena, ids, top, ids.len() as int);
    let r = half_range(top, ch);
    band_index(FIELD_BAND_UNITS@, r.0 + r.1 - 2 * low, 2 * (high - low))
}

/// Whether one of the first `n` input ids names arena index `j`.
pub open spec fn named_before(ids: Seq<CharId>, j: int, n: int) -> bool {
    exists|k: int| 0 <= k < n && (#[trigger] ids[k]).0 == j
}

/// `ch` drawn in color `c` with its input colors.
pub open spec fn recolored(ch: EffectCharacter, c: Color) -> EffectCharacter {
    EffectCharacter {
        animation: CharacterAnimation { input_fg_color: Some(c) },
        uses_input_preexisting_colors: true,
        ..ch
    }
}

/// The arena after field bands are applied: each input character that is
/// not skipped takes the palette color of its band; everything else stays
/// as it was. When no input character takes a band, nothing changes.
pub open spec fn field_bands_applied(
    arena: Seq<EffectCharacter>,
    ids: Seq<CharId>,
    palette: Palette,
) -> Seq<EffectCharacter> {
    Seq::new(
        arena.len(),
        |j: int|
            if top_row(arena, ids, ids.len() as int) != i64::MIN && !is_skipped(arena[j])
                && named_before(ids, j, ids.len() as int) {
                recolored(arena[j], palette.spec_color(field_band_of(arena, ids, arena[j])))
            } else {
                arena[j]
            },
    )
}

/// The top row bounds the rows of all counted characters, and, unless it
/// is the sentinel, is the row of one of them.
proof fn lemma_top_row(arena: Seq<EffectCharacter>, ids: Seq<CharId>, n: int)
    requires
        ids_in_arena(arena, ids),
        0 <= n <= ids.len(),
    ensures
        i64::MIN <= top_row(arena, ids, n) <= i64::MAX,
        forall|k: int|
            0 <= k < n && !is_skipped(#[trigger] input_char(arena, ids, k)) ==> input_char(
                arena,
                ids,
                k,
            ).input_coord.row <= top_row(arena, ids, n),
        top_row(arena, ids, n) != i64::MIN ==> exists|k: int|
            0 <= k < n && !is_skipped(#[trigger] input_char(arena, ids, k)) && input_char(
                arena,
                ids,
                k,
            ).input_coord.row == top_row(arena, ids, n),
    decreases n,
{
    if n > 0 {
        lemma_top_row(arena, ids, n - 1);
        if top_row(arena, ids, n) != top_row(arena, ids, n - 1) {
            assert(!is_skipped(input_char(arena, ids, n - 1)));
            assert(input_char(arena, ids, n - 1).input_coord.row == top_row(arena, ids, n));
        }
    }
}

/// The half-pixel range of a counted character lies in `[0, 2^65]`.
proof fn lemma_half_range_bounds(top: int, ch: EffectCharacter)
    requires
        ch.input_coord.row <= top <= i64::MAX,
    ensures
        0 <= half_range(top, ch).0 < half_range(top, ch).1 <= 0x2_0000_0000_0000_0000,
{
}

/// The lowest and highest halves bound the halves of all counted
/// characters, and are the halves of some of them when there are any.
proof fn lemma_halves(arena: Seq<EffectCharacter>, ids: Seq<CharId>, top: int, n: int)
    requires
        ids_in_arena(arena, ids),
        0 <= n <= ids.len(),
        top <= i64::MAX,
        forall|k: int|
            0 <= k < n && !is_skipped(#[trigger] input_char(arena, ids, k)) ==> input_char(
                arena,
                ids,
                k,
            ).input_coord.row <= top,
    ensures
        forall|k: int|
            0 <= k < n && !is_skipped(#[trigger] input_char(arena, ids, k)) ==> lowest_half(
                arena,
                ids,
                top,
                n,
            ) <= half_range(top, input_char(arena, ids, k)).0 && half_range(
                top,
                input_char(arena, ids, k),
            ).1 <= highest_half(arena, ids, top, n),
        (exists|k: int| 0 <= k < n && !is_skipped(#[trigger] input_char(arena, ids, k))) ==> (
        0 <= lowest_half(arena, ids, top, n) && highest_half(arena, ids, top, n)
            <= 0x2_0000_0000_0000_0000),
        !(exists|k: int| 0 <= k < n && !is_skipped(#[trigger] input_char(arena, ids, k))) ==> (
        lowest_half(arena, ids, top, n) == i128::MAX && highest_half(arena, ids, top, n)
            == i128::MIN),
        (exists|k: int| 0 <= k < n && !is_skipped(#[trigger] input_char(arena, ids, k))) ==> (
        exists|k: int|
            0 <= k < n && !is_skipped(#[trigger] input_char(arena, ids, k)) && half_range(
                top,
                input_char(arena, ids, k),
            ).0 == lowest_half(arena, ids, top, n)),
        (exists|k: int| 0 <= k < n && !is_skipped(#[trigger] input_char(arena, ids, k))) ==> (
        exists|k: int|
            0 <= k < n && !is_skipped(#[trigger] input_char(arena, ids, k)) && half_range(
                top,
                input_char(arena, ids, k),
            ).1 == highest_half(arena, ids, top, n)),
        lowest_half(arena, ids, top, n) <= i128::MAX,
        i128::MIN <= highest_half(arena, ids, top, n),
    decreases n,
{
    if n > 0 {
        lemma_halves(arena, ids, top, n - 1);
        let ch = input_char(arena, ids, n - 1);
        if !is_skipped(ch) {
            lemma_half_range_bounds(top, ch);
        }
        let before = exists|k: int|
            0 <= k < n - 1 && !is_skipped(#[trigger] input_char(arena, ids, k));
        if !is_skipped(ch) {
            if lowest_half(arena, ids, top, n) != lowest_half(arena, ids, top, n - 1) || !before {
                assert(half_range(top, ch).0 == lowest_half(arena, ids, top, n));
            } else {
                let w = choose|k: int|
                    0 <= k < n - 1 && !is_skipped(#[trigger] input_char(arena, ids, k))
                        && half_range(top, input_char(arena, ids, k)).0 == lowest_half(
                        arena,
                        ids,
                        top,
                        n - 1,
                    );
                assert(half_range(top, input_char(arena, ids, w)).0 == lowest_half(arena, ids, top, n));
            }
            if highest_half(arena, ids, top, n) != highest_half(arena, ids, top, n - 1) || !before {
                assert(half_range(top, ch).1 == highest_half(arena, ids, top, n));
            } else {
                let w = choose|k: int|
                    0 <= k < n - 1 && !is_skipped(#[trigger] input_char(arena, ids, k))
                        && half_range(top, input_char(arena, ids, k)).1 == highest_half(
                        arena,
                        ids,
                        top,
                        n - 1,
                    );
                assert(half_range(top, input_char(arena, ids, w)).1 == highest_half(arena, ids, top, n));
            }
        } else if before {
            let w = choose|k: int|
                0 <= k < n - 1 && !is_skipped(#[trigger] input_char(arena, ids, k))
                    && half_range(top, input_char(arena, ids, k)).0 == lowest_half(arena, ids, top, n - 1);
            assert(half_range(top, input_char(arena, ids, w)).0 == lowest_half(arena, ids, top, n));
            let v = choose|k: int|
                0 <= k < n - 1 && !is_skipped(#[trigger] input_char(arena, ids, k))
                    && half_range(top, input_char(arena, ids, k)).1 == highest_half(arena, ids, top, n - 1);
            assert(half_range(top, input_char(arena, ids, v)).1 == highest_half(arena, ids, top, n));
        }
        if exists|k: int| 0 <= k < n && !is_skipped(#[trigger] input_char(arena, ids, k)) {
            if is_skipped(ch) {
                let k = choose|k: int| 0 <= k < n && !is_skipped(#[trigger] input_char(arena, ids, k));
                assert(k < n - 1);
            }
        } else {
            assert(!(exists|k: int| 0 <= k < n - 1 && !is_skipped(#[trigger] input_char(arena, ids, k))));
        }
    }
}

/// The half-pixels a character inks, counted from the top of the word's
/// top row, two per row: an upper half block U+2580 inks the top half of
/// its cell, a lower half block U+2584 the bottom half, any other symbol
/// (an empty one too) the whole cell.
pub proof fn lemma_half_range_of_glyph(top: int, ch: EffectCharacter)
    ensures
        ({
            let cell_top = 2 * (top - ch.input_coord.row);
            let s = ch.input_symbol@;
            &&& s.len() > 0 && s[0] == '\u{2580}' ==> half_range(top, ch) == (cell_top, cell_top + 1)
            &&& s.len() > 0 && s[0] == '\u{2584}' ==> half_range(top, ch) == (
                cell_top + 1,
                cell_top + 2,
            )
            &&& !(s.len() > 0 && (s[0] == '\u{2580}' || s[0] == '\u{2584}')) ==> half_range(top, ch)
                == (cell_top, cell_top + 2)
        }),
{
}

/// The word whose bands are measured: its top row is the highest row of a
/// counted input character, and its ink runs from the smallest inked
/// half-pixel of a counted input character to the largest, so empty halves
/// of half blocks at its top or bottom do not count.
pub proof fn lemma_word_ink_extent(arena: Seq<EffectCharacter>, ids: Seq<CharId>)
    requires
        ids_in_arena(arena, ids),
        top_row(arena, ids, ids.len() as int) != i64::MIN,
    ensures
        forall|k: int|
            0 <= k < ids.len() && !is_skipped(#[trigger] input_char(arena, ids, k)) ==> {
                let top = top_row(arena, ids, ids.len() as int);
                let r = half_range(top, input_char(arena, ids, k));
                &&& input_char(arena, ids, k).input_coord.row <= top
                &&& lowest_half(arena, ids, top, ids.len() as int) <= r.0
                &&& r.1 <= highest_half(arena, ids, top, ids.len() as int)
            },
        exists|k: int|
            0 <= k < ids.len() && !is_skipped(#[trigger] input_char(arena, ids, k))
                && input_char(arena, ids, k).input_coord.row == top_row(arena, ids, ids.len() as int),
        exists|k: int|
            0 <= k < ids.len() && !is_skipped(#[trigger] input_char(arena, ids, k)) && half_range(
                top_row(arena, ids, ids.len() as int),
                input_char(arena, ids, k),
            ).0 == lowest_half(
                arena,
                ids,
                top_row(arena, ids, ids.len() as int),
                ids.len() as int,
            ),
        exists|k: int|
            0 <= k < ids.len() && !is_skipped(#[trigger] input_char(arena, ids, k)) && half_range(
                top_row(arena, ids, ids.len() as int),
                input_char(arena, ids, k),
            ).1 == highest_half(
                arena,
                ids,
                top_row(arena, ids, ids.len() as int),
                ids.len() as int,
            ),
{
    let n = ids.len() as int;
    lemma_top_row(arena, ids, n);
    lemma_halves(arena, ids, top_row(arena, ids, n), n);
}

/// The band of a counted input character is the band that the middle of
/// its ink falls in, measured from the top of the word's ink (`t = 0`) to
/// its bottom (`t = 1`): with the bands 3, 1, 3, 2 and 4 units tall out of
/// 13, band `b` is the one whose start lies at or above `t` and whose end
/// lies below it (the last band also takes `t = 1`).
pub proof fn lemma_field_band_places_middle(arena: Seq<EffectCharacter>, ids: Seq<CharId>, k: int)
    requires
        ids_in_arena(arena, ids),
        0 <= k < ids.len(),
        !is_skipped(input_char(arena, ids, k)),
    ensures
        ({
            let n = ids.len() as int;
            let top = top_row(arena, ids, n);
            let low = lowest_half(arena, ids, top, n);
            let high = highest_half(arena, ids, top, n);
            let r = half_range(top, input_char(arena, ids, k));
            let num = r.0 + r.1 - 2 * low;
            let den = 2 * (high - low);
            let b = field_band_of(arena, ids, input_char(arena, ids, k));
            let starts = seq![0int, 3, 4, 7, 9, 13];
            &&& 0 <= num <= den
            &&& den > 0
            &&& 0 <= b < 5
            &&& starts[b] * den <= num * 13
            &&& num * 13 < starts[b + 1] * den || b == 4
        }),
{
    let n = ids.len() as int;
    let top = top_row(arena, ids, n);
    lemma_top_row(arena, ids, n);
    lemma_halves(arena, ids, top, n);
    let ch = input_char(arena, ids, k);
    lemma_half_range_bounds(top, ch);
    let low = lowest_half(arena, ids, top, n);
    let high = highest_half(arena, ids, top, n);
    let r = half_range(top, ch);
    lemma_field_band_prefixes();
    lemma_band_index_holds_fraction(FIELD_BAND_UNITS@, r.0 + r.1 - 2 * low, 2 * (high - low));
    let b = field_band_of(arena, ids, ch);
    let starts = seq![0int, 3, 4, 7, 9, 13];
    assert(starts[b] == units_prefix(FIELD_BAND_UNITS@, b));
    assert(starts[b + 1] == units_prefix(FIELD_BAND_UNITS@, b + 1));
}

/// Within one word, bands run crest to dim from top to bottom: of an input
/// character that takes a band and any character whose inked middle lies
/// at or below its own, the lower one never takes a band above the
/// other's.
pub proof fn lemma_field_bands_run_top_to_bottom(
    arena: Seq<EffectCharacter>,
    ids: Seq<CharId>,
    k: int,
    other: EffectCharacter,
)
    requires
        ids_in_arena(arena, ids),
        0 <= k < ids.len(),
        !is_skipped(input_char(arena, ids, k)),
        ({
            let top = top_row(arena, ids, ids.len() as int);
            let upper = half_range(top, input_char(arena, ids, k));
            let lower = half_range(top, other);
            upper.0 + upper.1 <= lower.0 + lower.1
        }),
    ensures
        field_band_of(arena, ids, input_char(arena, ids, k)) <= field_band_of(arena, ids, other),
{
    let n = ids.len() as int;
    let top = top_row(arena, ids, n);
    lemma_top_row(arena, ids, n);
    lemma_halves(arena, ids, top, n);
    let ch = input_char(arena, ids, k);
    lemma_half_range_bounds(top, ch);
    let low = lowest_half(arena, ids, top, n);
    let high = highest_half(arena, ids, top, n);
    let upper = half_range(top, ch);
    let lower = half_range(top, other);
    lemma_band_index_monotone(
        FIELD_BAND_UNITS@,
        upper.0 + upper.1 - 2 * low,
        lower.0 + lower.1 - 2 * low,
        2 * (high - low),
    );
}

/// Two arenas that agree, character by character, on everything that
/// decides bands: symbol, position and whether it is a fill character.
pub open spec fn same_shape(a: Seq<EffectCharacter>, b: Seq<EffectCharacter>) -> bool {
    &&& a.len() == b.len()
    &&& forall|j: int|
        0 <= j < a.len() ==> {
            &&& (#[trigger] a[j]).input_symbol == b[j].input_symbol
            &&& a[j].input_coord == b[j].input_coord
            &&& a[j].is_fill_character == b[j].is_fill_character
        }
}

/// Arenas of the same shape have the same top row and half-pixel extent.
proof fn lemma_same_shape_folds(
    a: Seq<EffectCharacter>,
    b: Seq<EffectCharacter>,
    ids: Seq<CharId>,
    top: int,
    n: int,
)
    requires
        same_shape(a, b),
        ids_in_arena(a, ids),
        0 <= n <= ids.len(),
    ensures
        top_row(a, ids, n) == top_row(b, ids, n),
        lowest_half(a, ids, top, n) == lowest_half(b, ids, top, n),
        highest_half(a, ids, top, n) == highest_half(b, ids, top, n),
    decreases n,
{
    if n > 0 {
        lemma_same_shape_folds(a, b, ids, top, n - 1);
        let j = ids[n - 1].0 as int;
        assert(a[j].input_symbol == b[j].input_symbol);
    }
}

/// Applying the field bands a second time changes nothing: bands depend
/// only on symbols and positions, which applying them leaves as they are.
pub proof fn lemma_field_bands_idempotent(
    arena: Seq<EffectCharacter>,
    ids: Seq<CharId>,
    palette: Palette,
)
    requires
        ids_in_arena(arena, ids),
    ensures
        field_bands_applied(field_bands_applied(arena, ids, palette), ids, palette)
            == field_bands_applied(arena, ids, palette),
{
    let once = field_bands_applied(arena, ids, palette);
    let n = ids.len() as int;
    assert(same_shape(arena, once));
    let top = top_row(arena, ids, n);
    lemma_same_shape_folds(arena, once, ids, top, n);
    let twice = field_bands_applied(once, ids, palette);
    assert forall|j: int| 0 <= j < arena.len() implies twice[j] == once[j] by {
        assert(arena[j].input_symbol == once[j].input_symbol);
    }
    assert(twice =~= once);
}

/// Two characters of one word on the same row whose glyphs ink the same
/// halves of the cell take the same band.
pub proof fn lemma_same_row_same_band(
    arena: Seq<EffectCharacter>,
    ids: Seq<CharId>,
    a: EffectCharacter,
    b: EffectCharacter,
)
    requires
        a.input_coord.row == b.input_coord.row,
        glyph_half_span(a.input_symbol@) == glyph_half_span(b.input_symbol@),
    ensures
        field_band_of(arena, ids, a) == field_band_of(arena, ids, b),
{
}

/// `b` is `a` with the row of every input character moved by the same
/// `k`. Columns may differ, and so may the positions of characters that
/// are not input characters; everything else is the same.
pub open spec fn rows_shifted(
    a: Seq<EffectCharacter>,
    b: Seq<EffectCharacter>,
    ids: Seq<CharId>,
    k: int,
) -> bool {
    &&& a.len() == b.len()
    &&& forall|j: int|
        0 <= j < a.len() ==> {
            &&& (#[trigger] a[j]).input_symbol == b[j].input_symbol
            &&& a[j].is_fill_character == b[j].is_fill_character
            &&& b[j].animation == a[j].animation
            &&& b[j].uses_input_preexisting_colors == a[j].uses_input_preexisting_colors
        }
    &&& forall|m: int|
        0 <= m < ids.len() ==> #[trigger] input_char(b, ids, m).input_coord.row == input_char(
            a,
            ids,
            m,
        ).input_coord.row + k
}

/// Moving every row by `k` moves the top row by `k`, as long as some
/// character counts.
proof fn lemma_shift_top_row(
    a: Seq<EffectCharacter>,
    b: Seq<EffectCharacter>,
    ids: Seq<CharId>,
    k: int,
    n: int,
)
    requires
        rows_shifted(a, b, ids, k),
        ids_in_arena(a, ids),
        0 <= n <= ids.len(),
    ensures
        (exists|m: int| 0 <= m < n && !is_skipped(#[trigger] input_char(a, ids, m))) ==> top_row(
            b,
            ids,
            n,
        ) == top_row(a, ids, n) + k,
        !(exists|m: int| 0 <= m < n && !is_skipped(#[trigger] input_char(a, ids, m))) ==> (
        top_row(a, ids, n) == i64::MIN && top_row(b, ids, n) == i64::MIN),
    decreases n,
{
    if n > 0 {
        lemma_shift_top_row(a, b, ids, k, n - 1);
        let j = ids[n - 1].0 as int;
        assert(a[j].input_symbol == b[j].input_symbol);
        assert(is_skipped(a[j]) == is_skipped(b[j]));
        if !(exists|m: int| 0 <= m < n && !is_skipped(#[trigger] input_char(a, ids, m))) {
            assert(!(exists|m: int| 0 <= m < n - 1 && !is_skipped(#[trigger] input_char(a, ids, m))));
        } else if !(exists|m: int| 0 <= m < n - 1 && !is_skipped(#[trigger] input_char(a, ids, m))) {
            let w = choose|m: int| 0 <= m < n && !is_skipped(#[trigger] input_char(a, ids, m));
            assert(w == n - 1);
        } else {
        }
    }
}

/// With the top rows moved together, the half-pixel extent of the word
/// stays the same.
proof fn lemma_shift_halves(
    a: Seq<EffectCharacter>,
    b: Seq<EffectCharacter>,
    ids: Seq<CharId>,
    k: int,
    top: int,
    n: int,
)
    requires
        rows_shifted(a, b, ids, k),
        ids_in_arena(a, ids),
        0 <= n <= ids.len(),
    ensures
        lowest_half(b, ids, top + k, n) == lowest_half(a, ids, top, n),
        highest_half(b, ids, top + k, n) == highest_half(a, ids, top, n),
    decreases n,
{
    if n > 0 {
        lemma_shift_halves(a, b, ids, k, top, n - 1);
        let j = ids[n - 1].0 as int;
        assert(a[j].input_symbol == b[j].input_symbol);
    }
}

/// Moving the row of every input character by one constant changes no
/// color: bands depend on where a character lies within the word, not on
/// where the word lies. (The one exception is the sentinel row `i64::MIN`: a
/// word whose counted characters all stand on it takes no bands, so the
/// law asks that the shift keep that case on both sides alike.)
pub proof fn lemma_field_bands_ignore_row_shift(
    a: Seq<EffectCharacter>,
    b: Seq<EffectCharacter>,
    ids: Seq<CharId>,
    k: int,
    palette: Palette,
)
    requires
        rows_shifted(a, b, ids, k),
        ids_in_arena(a, ids),
        (top_row(a, ids, ids.len() as int) == i64::MIN) == (top_row(b, ids, ids.len() as int)
            == i64::MIN),
    ensures
        forall|j: int|
            0 <= j < a.len() ==> {
                &&& (#[trigger] field_bands_applied(b, ids, palette)[j]).animation
                    == field_bands_applied(a, ids, palette)[j].animation
                &&& field_bands_applied(b, ids, palette)[j].uses_input_preexisting_colors
                    == field_bands_applied(a, ids, palette)[j].uses_input_preexisting_colors
            },
{
    let n = ids.len() as int;
    let ta = top_row(a, ids, n);
    lemma_shift_top_row(a, b, ids, k, n);
    lemma_shift_halves(a, b, ids, k, ta, n);
    assert forall|j: int| 0 <= j < a.len() implies {
        &&& (#[trigger] field_bands_applied(b, ids, palette)[j]).animation
            == field_bands_applied(a, ids, palette)[j].animation
        &&& field_bands_applied(b, ids, palette)[j].uses_input_preexisting_colors
            == field_bands_applied(a, ids, palette)[j].uses_input_preexisting_colors
    } by {
        assert(a[j].input_symbol == b[j].input_symbol);
        if ta != i64::MIN && named_before(ids, j, n) {
            let m = choose|m: int| 0 <= m < n && (#[trigger] ids[m]).0 == j;
            assert(input_char(b, ids, m).input_coord.row == input_char(a, ids, m).input_coord.row
                + k);
            assert(field_band_of(b, ids, b[j]) == field_band_of(a, ids, a[j]));
        }
    }
}

/// Whether a character takes no band: a fill character, or one whose
/// symbol is blank.
pub fn skip_char(ch: &EffectCharacter) -> (skip: bool)
    ensures
        skip == is_skipped(*ch),
{
    ch.is_fill_character || is_blank(ch.input_symbol.as_str())
}

/// How much of a terminal cell a glyph inks, in half-pixels from the cell
/// top.
fn block_half_span(symbol: &str) -> (span: (i128, i128))
    ensures
        (span.0 as int, span.1 as int) == glyph_half_span(symbol@),
        symbol@.len() > 0 && symbol@[0] == '\u{2580}' ==> span == (0i128, 1i128),
        symbol@.len() > 0 && symbol@[0] == '\u{2584}' ==> span == (1i128, 2i128),
        !(symbol@.len() > 0 && (symbol@[0] == '\u{2580}' || symbol@[0] == '\u{2584}')) ==> span
            == (0i128, 2i128),
{
    if symbol.unicode_len() == 0 {
        return (0, 2);
    }
    let c = symbol.get_char(0);
    if c == '\u{2580}' {
        (0, 1)
    } else if c == '\u{2584}' {
        (1, 2)
    } else {
        (0, 2)
    }
}

/// Occupied half-pixel range `[lo, hi)` of a character, from the top of the
/// row `max_row`.
fn visual_half_range(max_row: i64, ch: &EffectCharacter) -> (range: (i128, i128))
    requires
        ch.input_coord.row <= max_row,
    ensures
        (range.0 as int, range.1 as int) == half_range(max_row as int, *ch),
        0 <= range.0 < range.1 <= 0x2_0000_0000_0000_0000,
{
    proof {
        lemma_half_range_bounds(max_row as int, *ch);
    }
    let display_line: i128 = (max_row as i128) - (ch.input_coord.row as i128);
    let (lo, hi) = block_half_span(ch.input_symbol.as_str());
    (display_line * 2 + lo, display_line * 2 + hi)
}

/// Color each input character from the palette by its visual row in the
/// word.
///
/// `input_coord.row` is 1-based and grows up, so the largest row is the
/// top. Half-block art (upper half, lower half and full blocks) encodes two
/// pixels per terminal cell, so `t` is measured in those pixels: a full
/// block is two units and a half block one. Empty halves (the top of a
/// leading lower half block, the bottom of a trailing upper half block) do
/// not count, so a peak of half a cell cannot steal the crest from the
/// other letters.
pub fn apply_field_bands(terminal: &mut Terminal, palette: &Palette)
    requires
        old(terminal).well_formed(),
    ensures
        final(terminal).input_characters@ == old(terminal).input_characters@,
        final(terminal).arena@ == field_bands_applied(
            old(terminal).arena@,
            old(terminal).input_characters@,
            *palette,
        ),
{
    let ghost arena0 = terminal.arena@;
    let ghost ids0 = terminal.input_characters@;
    let n = terminal.input_characters.len();
    proof {
        lemma_top_row(arena0, ids0, n as int);
    }
    let mut max_row: i64 = i64::MIN;
    let mut k: usize = 0;
    while k < n
        invariant
            terminal.arena@ == arena0,
            terminal.input_characters@ == ids0,
            n == ids0.len(),
            ids_in_arena(arena0, ids0),
            k <= n,
            max_row == top_row(arena0, ids0, k as int),
        decreases n - k,
    {
        proof {
            lemma_top_row(arena0, ids0, k + 1);
        }
        let id = terminal.input_characters[k].0 as usize;
        let ch = &terminal.arena[id];
        if !skip_char(ch) && ch.input_coord.row > max_row {
            max_row = ch.input_coord.row;
        }
        k = k + 1;
    }
    if max_row == i64::MIN {
        proof {
            assert(terminal.arena@ =~= field_bands_applied(arena0, ids0, *palette));
        }
        return;
    }
    let ghost top = max_row as int;
    proof {
        lemma_halves(arena0, ids0, top, n as int);
    }
    let mut min_half: i128 = i128::MAX;
    let mut max_half: i128 = i128::MIN;
    let mut k: usize = 0;
    while k < n
        invariant
            terminal.arena@ == arena0,
            terminal.input_characters@ == ids0,
            n == ids0.len(),
            ids_in_arena(arena0, ids0),
            k <= n,
            max_row == top_row(arena0, ids0, n as int),
            forall|m: int|
                0 <= m < n && !is_skipped(#[trigger] input_char(arena0, ids0, m)) ==> input_char(
                    arena0,
                    ids0,
                    m,
                ).input_coord.row <= max_row,
            min_half == lowest_half(arena0, ids0, max_row as int, k as int),
            max_half == highest_half(arena0, ids0, max_row as int, k as int),
        decreases n - k,
    {
        let id = terminal.input_characters[k].0 as usize;
        let ch = &terminal.arena[id];
        assert(input_char(arena0, ids0, k as int) == *ch);
        if !skip_char(ch) {
            let (lo, hi) = visual_half_range(max_row, ch);
            if lo < min_half {
                min_half = lo;
            }
            if hi > max_half {
                max_half = hi;
            }
        }
        k = k + 1;
    }
    assert(0 <= min_half < max_half <= 0x2_0000_0000_0000_0000) by {
        let w = choose|m: int| 0 <= m < n && !is_skipped(#[trigger] input_char(arena0, ids0, m));
        lemma_half_range_bounds(top, input_char(arena0, ids0, w));
    }
    let span: i128 = max_half - min_half;
    let units = FIELD_BAND_UNITS;
    proof {
        lemma_field_band_prefixes();
    }
    let mut k: usize = 0;
    while k < n
        invariant
            terminal.input_characters@ == ids0,
            terminal.arena@.len() == arena0.len(),
            n == ids0.len(),
            ids_in_arena(arena0, ids0),
            k <= n,
            max_row == top_row(arena0, ids0, n as int),
            max_row != i64::MIN,
            forall|m: int|
                0 <= m < n && !is_skipped(#[trigger] input_char(arena0, ids0, m)) ==> input_char(
                    arena0,
                    ids0,
                    m,
                ).input_coord.row <= max_row,
            forall|m: int|
                0 <= m < n && !is_skipped(#[trigger] input_char(arena0, ids0, m)) ==> min_half
                    <= half_range(max_row as int, input_char(arena0, ids0, m)).0 && half_range(
                    max_row as int,
                    input_char(arena0, ids0, m),
                ).1 <= max_half,
            min_half == lowest_half(arena0, ids0, max_row as int, n as int),
            max_half == highest_half(arena0, ids0, max_row as int, n as int),
            0 <= min_half < max_half <= 0x2_0000_0000_0000_0000,
            span == max_half - min_half,
            units@ == FIELD_BAND_UNITS@,
            units_total(units@) == 13,
            forall|j: int|
                0 <= j < arena0.len() ==> #[trigger] terminal.arena@[j] == if !is_skipped(arena0[j])
                    && named_before(ids0, j, k as int) {
                    recolored(arena0[j], palette.spec_color(field_band_of(arena0, ids0, arena0[j])))
                } else {
                    arena0[j]
                },
        decreases n - k,
    {
        let id = terminal.input_characters[k].0 as usize;
        assert(input_char(arena0, ids0, k as int) == arena0[id as int]);
        if !skip_char(&terminal.arena[id]) {
            let (lo, hi) = visual_half_range(max_row, &terminal.arena[id]);
            let num: u128 = (lo + hi - 2 * min_half) as u128;
            let den: u128 = (2 * span) as u128;
            let band = band_index_scaled(num, den, units.as_slice());
            let color = palette.color(band);
            terminal.arena[id].animation.input_fg_color = Some(color);
            terminal.arena[id].uses_input_preexisting_colors = true;
        }
        proof {
            assert forall|j: int| 0 <= j < arena0.len() implies named_before(ids0, j, k + 1) == (
            named_before(ids0, j, k as int) || j == id) by {
                if j == id {
                    assert(ids0[k as int].0 == j);
                }
                if named_before(ids0, j, k + 1) && j != id {
                    let m = choose|m: int| 0 <= m < k + 1 && (#[trigger] ids0[m]).0 == j;
                    assert(m < k);
                }
            }
        }
        k = k + 1;
    }
    proof {
        assert(terminal.arena@ =~= field_bands_applied(arena0, ids0, *palette));
    }
}

} // verus!
