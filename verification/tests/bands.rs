use ttfx::engine::character::{CharId, Coord, EffectCharacter};
use ttfx::engine::terminal::Terminal;
use ttfx::utils::bands::{
    apply_field_bands, field_band_index_fraction, field_band_index_in_fraction, field_band_rows,
    skip_char, FIELD_BAND_UNITS,
};
use ttfx::utils::graphics::Color;
use ttfx::utils::palette::Palette;

/// Lays `input` out the way the terminal reads text: one input character
/// per symbol other than a space, columns from 1 at the left, rows from 1
/// at the bottom line upwards.
fn terminal_from_text(input: &str) -> Terminal {
    let lines: Vec<&str> = input.split('\n').collect();
    let n = lines.len() as i64;
    let mut characters = Vec::new();
    for (line_index, line) in lines.iter().enumerate() {
        for (column_index, symbol) in line.chars().enumerate() {
            if symbol == ' ' {
                continue;
            }
            characters.push(EffectCharacter::new(
                symbol.to_string(),
                Coord { column: column_index as i64 + 1, row: n - line_index as i64 },
            ));
        }
    }
    Terminal::from_input_characters(characters)
}

fn palette_of(hex: &[u32]) -> Palette {
    let colors = hex
        .iter()
        .map(|&h| Color::new((h >> 16) as u8, (h >> 8) as u8, h as u8))
        .collect();
    Palette::new(colors).unwrap()
}

fn band_of(ch: &EffectCharacter, palette: &Palette) -> usize {
    let color = ch.animation.input_fg_color.unwrap();
    (0..5).find(|&i| palette.color(i) == color).expect("palette color")
}

#[test]
fn spec_units_are_three_one_three_two_four() {
    assert_eq!(FIELD_BAND_UNITS, [3, 1, 3, 2, 4]);
    assert_eq!(field_band_rows(), 13);
}

#[test]
fn index_follows_crest_hover_lit_mid_dim() {
    // t = num / den, the exact fractions of the word's height.
    assert_eq!(field_band_index_fraction(0, 13), 0);
    assert_eq!(field_band_index_fraction(3_000_000_000 - 13, 13_000_000_000), 0);
    assert_eq!(field_band_index_fraction(3, 13), 1);
    assert_eq!(field_band_index_fraction(4, 13), 2);
    assert_eq!(field_band_index_fraction(7, 13), 3);
    assert_eq!(field_band_index_fraction(9, 13), 4);
    assert_eq!(field_band_index_fraction(1, 1), 4);
}

#[test]
fn apply_colors_thirteen_rows_crest_to_dim() {
    let input = ["X"; 13].join("\n");
    let mut terminal = terminal_from_text(&input);
    let palette = palette_of(&[0xaa0000, 0x00aa00, 0x0000aa, 0xaaaa00, 0x00aaaa]);
    apply_field_bands(&mut terminal, &palette);

    let mut by_row: Vec<(i64, Color)> = terminal
        .input_characters
        .iter()
        .map(|&id| {
            let ch = &terminal.arena[id.0 as usize];
            assert!(ch.uses_input_preexisting_colors);
            (ch.input_coord.row, ch.animation.input_fg_color.unwrap())
        })
        .collect();
    by_row.sort_by_key(|(row, _)| std::cmp::Reverse(*row));

    let expected = [0, 0, 0, 1, 2, 2, 2, 3, 3, 4, 4, 4, 4];
    assert_eq!(by_row.len(), 13);
    for (i, (row, color)) in by_row.iter().enumerate() {
        assert_eq!(*row, 13 - i as i64);
        assert_eq!(*color, palette.color(expected[i]));
    }
}

#[test]
fn apply_colors_nineteen_rows_keep_unit_proportions() {
    let input = ["X"; 19].join("\n");
    let mut terminal = terminal_from_text(&input);
    let palette = palette_of(&[0x111111, 0x222222, 0x333333, 0x444444, 0x555555]);
    apply_field_bands(&mut terminal, &palette);

    let mut by_row: Vec<(i64, usize)> = terminal
        .input_characters
        .iter()
        .map(|&id| {
            let ch = &terminal.arena[id.0 as usize];
            (ch.input_coord.row, band_of(ch, &palette))
        })
        .collect();
    by_row.sort_by_key(|(row, _)| std::cmp::Reverse(*row));

    for (i, (row, idx)) in by_row.iter().enumerate() {
        // t = (19 - row + 0.5) / 19
        let num = (2 * (19 - *row) + 1) as u64;
        assert_eq!(*idx, field_band_index_fraction(num, 38), "row {i} t={num}/38");
    }
}

#[test]
fn half_blocks_follow_nineteen_pixel_rows() {
    // Half-block encoding of the 19-row wordmark: a lower-half peak on
    // line 0 (the M), then a full block is two pixel rows, a half block one.
    let mut lines = vec!["  ▄  ".to_string(), "▄███▄".to_string()];
    for _ in 0..6 {
        lines.push("█████".to_string());
    }
    lines.push("▀███▀".to_string());
    lines.push("  █  ".to_string());
    let input = lines.join("\n");
    let mut terminal = terminal_from_text(&input);
    let palette = palette_of(&[0x111111, 0x222222, 0x333333, 0x444444, 0x555555]);
    apply_field_bands(&mut terminal, &palette);

    let mut by_col_row: Vec<(i64, i64, usize, String)> = terminal
        .input_characters
        .iter()
        .map(|&id| {
            let ch = &terminal.arena[id.0 as usize];
            (
                ch.input_coord.column,
                ch.input_coord.row,
                band_of(ch, &palette),
                ch.input_symbol.clone(),
            )
        })
        .collect();
    by_col_row.sort_by_key(|&(c, r, _, _)| (c, std::cmp::Reverse(r)));

    // The M peak (top lower half block) is crest.
    let peak_band = by_col_row
        .iter()
        .filter(|(_, _, _, s)| s.as_str() == "▄")
        .max_by_key(|(_, r, _, _)| *r)
        .unwrap();
    assert_eq!(peak_band.2, 0, "M peak must be crest, got {peak_band:?}");

    // A letter with no peak: the top-row full block (second input line) is
    // still crest. Character-row mapping would already have moved it to hover.
    let body_top = by_col_row
        .iter()
        .filter(|(_, _, _, s)| s.as_str() == "█")
        .max_by_key(|(_, r, _, _)| *r)
        .unwrap();
    assert_eq!(body_top.2, 0, "first full body row must stay crest, got {body_top:?}");
}

#[test]
fn fraction_index_clamps_past_the_bottom() {
    assert_eq!(field_band_index_fraction(20, 13), 4);
    assert_eq!(field_band_index_fraction(u64::MAX, 1), 4);
}

#[test]
fn fraction_index_in_custom_units() {
    // Bands of heights 1 and 1: the top half is band 0, the rest band 1.
    assert_eq!(field_band_index_in_fraction(0, 4, &[1, 1]), 0);
    assert_eq!(field_band_index_in_fraction(1, 4, &[1, 1]), 0);
    assert_eq!(field_band_index_in_fraction(2, 4, &[1, 1]), 1);
    assert_eq!(field_band_index_in_fraction(4, 4, &[1, 1]), 1);
    // No units, or units that sum to zero: band 0.
    assert_eq!(field_band_index_in_fraction(1, 2, &[]), 0);
    assert_eq!(field_band_index_in_fraction(1, 2, &[0, 0]), 0);
    // A trailing empty band is the last band at the very bottom.
    assert_eq!(field_band_index_in_fraction(1, 1, &[3, 0]), 1);
    // An empty band in the middle is never chosen.
    assert_eq!(field_band_index_in_fraction(1, 2, &[1, 0, 1]), 2);
}

#[test]
fn band_index_never_rises_going_down() {
    let mut last = 0;
    for num in 0..=130u64 {
        let band = field_band_index_fraction(num, 130);
        assert!(band >= last);
        assert!(band < 5);
        last = band;
    }
    assert_eq!(last, 4);
}

#[test]
fn skip_char_skips_fill_and_blank_symbols() {
    let coord = Coord { column: 1, row: 1 };
    assert!(!skip_char(&EffectCharacter::new("X".to_string(), coord)));
    assert!(skip_char(&EffectCharacter::new(" ".to_string(), coord)));
    assert!(skip_char(&EffectCharacter::new(" \t".to_string(), coord)));
    assert!(skip_char(&EffectCharacter::new("\u{3000}".to_string(), coord)));
    assert!(skip_char(&EffectCharacter::new(String::new(), coord)));
    assert!(!skip_char(&EffectCharacter::new(" x ".to_string(), coord)));
    let mut fill = EffectCharacter::new("X".to_string(), coord);
    fill.is_fill_character = true;
    assert!(skip_char(&fill));
}

#[test]
fn apply_leaves_skipped_and_other_characters_alone() {
    let mut terminal = terminal_from_text("A\nB");
    let mut fill = EffectCharacter::new("F".to_string(), Coord { column: 2, row: 5 });
    fill.is_fill_character = true;
    terminal.arena.push(fill);
    terminal.input_characters.push(CharId(2));
    terminal.arena.push(EffectCharacter::new("Z".to_string(), Coord { column: 3, row: 9 }));
    let palette = palette_of(&[0x111111, 0x222222, 0x333333, 0x444444, 0x555555]);
    apply_field_bands(&mut terminal, &palette);
    // A inks half-pixels [0, 2) and B [2, 4): t = 1/4 (hover) and 3/4 (dim).
    assert_eq!(terminal.arena[0].animation.input_fg_color, Some(palette.color(1)));
    assert_eq!(terminal.arena[1].animation.input_fg_color, Some(palette.color(4)));
    // The fill character in the input list and the character outside it
    // keep no color.
    assert_eq!(terminal.arena[2].animation.input_fg_color, None);
    assert!(!terminal.arena[2].uses_input_preexisting_colors);
    assert_eq!(terminal.arena[3].animation.input_fg_color, None);
    assert!(!terminal.arena[3].uses_input_preexisting_colors);
}

#[test]
fn apply_with_nothing_to_color_changes_nothing() {
    let mut terminal = Terminal::from_input_characters(vec![EffectCharacter::new(
        "\t".to_string(),
        Coord { column: 1, row: 1 },
    )]);
    let palette = palette_of(&[0x111111]);
    apply_field_bands(&mut terminal, &palette);
    assert_eq!(terminal.arena[0].animation.input_fg_color, None);
    assert!(!terminal.arena[0].uses_input_preexisting_colors);
}

#[test]
fn apply_uses_the_halves_a_glyph_inks() {
    // An upper half block alone on a line inks only its top half; the lower
    // half block under it inks only its bottom half: the two are the top
    // and bottom of a three half-pixel word.
    let mut terminal = terminal_from_text("▀\n▄");
    let palette = palette_of(&[0x111111, 0x222222, 0x333333, 0x444444, 0x555555]);
    apply_field_bands(&mut terminal, &palette);
    // Ink spans half-pixels [0, 1) and [3, 4): t = 1/8 and 7/8.
    assert_eq!(terminal.arena[0].animation.input_fg_color, Some(palette.color(0)));
    assert_eq!(terminal.arena[1].animation.input_fg_color, Some(palette.color(4)));
}

#[test]
fn palette_needs_a_color_and_wraps_around() {
    assert!(Palette::new(Vec::new()).is_none());
    let palette = palette_of(&[0x010203, 0x040506]);
    assert_eq!(palette.len(), 2);
    assert_eq!(palette.color(0), Color::new(1, 2, 3));
    assert_eq!(palette.color(1), Color::new(4, 5, 6));
    assert_eq!(palette.color(2), Color::new(1, 2, 3));
}

#[test]
fn applying_twice_gives_the_same_colors() {
    let input = "  ▄  \n▄███▄\n█████\n▀███▀";
    let palette = palette_of(&[0x111111, 0x222222, 0x333333, 0x444444, 0x555555]);
    let mut once = terminal_from_text(input);
    apply_field_bands(&mut once, &palette);
    let mut twice = terminal_from_text(input);
    apply_field_bands(&mut twice, &palette);
    apply_field_bands(&mut twice, &palette);
    assert_eq!(once.arena.len(), twice.arena.len());
    for (a, b) in once.arena.iter().zip(twice.arena.iter()) {
        assert_eq!(a.animation, b.animation);
        assert_eq!(a.uses_input_preexisting_colors, b.uses_input_preexisting_colors);
        assert_eq!(a.input_symbol, b.input_symbol);
        assert_eq!(a.input_coord, b.input_coord);
    }
}

#[test]
fn shifting_every_row_keeps_the_colors() {
    let input = "  ▄  \n▄███▄\n█████\n▀███▀\n  █  ";
    let palette = palette_of(&[0x111111, 0x222222, 0x333333, 0x444444, 0x555555]);
    let mut plain = terminal_from_text(input);
    let mut shifted = terminal_from_text(input);
    for ch in shifted.arena.iter_mut() {
        ch.input_coord.row += 1000;
        ch.input_coord.column += 7;
    }
    // A character outside the input list may stand anywhere.
    plain.arena.push(EffectCharacter::new("Q".to_string(), Coord { column: 1, row: 3 }));
    shifted.arena.push(EffectCharacter::new("Q".to_string(), Coord { column: 9, row: -40 }));
    apply_field_bands(&mut plain, &palette);
    apply_field_bands(&mut shifted, &palette);
    for (a, b) in plain.arena.iter().zip(shifted.arena.iter()) {
        assert_eq!(a.animation, b.animation);
        assert_eq!(a.uses_input_preexisting_colors, b.uses_input_preexisting_colors);
    }
}
