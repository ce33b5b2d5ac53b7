//! Glyph tables.

use dextui::icons::{all, ascii, name, nerd, unicode, Icons};

fn states(ic: &Icons) -> [(&'static str, &'static str); 4] {
    [
        ("pending", ic.pending),
        ("active", ic.active),
        ("done", ic.done),
        ("blocked", ic.blocked),
    ]
}

/// The in-progress marker is a play glyph, and `►` U+25BA is deliberately
/// **not** `▶` U+25B6 -- U+25B6 is already the collapsed-node marker, and a
/// rendered comparison showed the two are nearly indistinguishable at
/// terminal size. They are told apart by colour and weight (dim connector,
/// coloured status), never by shape. Swapping one for the other makes a
/// collapsed in-progress row read as two identical triangles.
#[test]
fn in_progress_is_a_play_marker_distinct_from_the_collapsed_node() {
    assert_eq!(unicode().active, "\u{25ba}");
    assert_eq!(nerd().active, "\u{f04b}"); // fa-play
    assert_eq!(ascii().active, ">");

    for ic in all() {
        assert_ne!(
            ic.active,
            ic.collapsed,
            "tier {}: in-progress collides with the collapsed marker",
            name(ic.tier)
        );
    }
}

/// The tree marker and the status glyph sit side by side, so a glyph serving
/// both roles makes the pair ambiguous -- `> >` for a collapsed in-progress
/// row. Colour separates them (dim connector, coloured status) but the shape
/// must too, for anyone reading without colour.
#[test]
fn no_state_glyph_doubles_as_a_tree_marker() {
    for ic in all() {
        for (state, g) in states(&ic) {
            for (role, marker) in [("expanded", ic.expanded), ("collapsed", ic.collapsed)] {
                assert_ne!(
                    g,
                    marker,
                    "tier {}: {state} and the {role} marker are both {g:?}",
                    name(ic.tier)
                );
            }
        }
    }
}

/// Todo and done are the same shape, hollow then filled, so the state change
/// is carried by the glyph itself and not by colour alone.
#[test]
fn todo_fills_in_when_done() {
    assert_eq!(unicode().pending, "\u{25c7}"); // hollow diamond
    assert_eq!(unicode().done, "\u{25c6}"); // filled diamond
    assert_eq!(nerd().pending, "\u{f070c}"); // md-rhombus_outline
    assert_eq!(nerd().done, "\u{f070b}"); // md-rhombus
}

/// A blank marker leaves the reader guessing whether the row has a state at
/// all. Every state gets something visible in every tier.
#[test]
fn every_state_has_a_visible_marker_in_every_tier() {
    for ic in all() {
        for (state, g) in states(&ic) {
            assert!(
                !g.trim().is_empty(),
                "tier {}: {state} has no visible marker",
                name(ic.tier)
            );
        }
    }
}

#[test]
fn states_are_distinguishable_within_a_tier() {
    for ic in all() {
        let s = states(&ic);
        for i in 0..s.len() {
            for j in (i + 1)..s.len() {
                assert_ne!(
                    s[i].1,
                    s[j].1,
                    "tier {}: {} and {} draw the same glyph",
                    name(ic.tier),
                    s[i].0,
                    s[j].0
                );
            }
        }
    }
}

/// The tree is a column: every row's name starts at the same offset. A
/// two-char marker in one state would shift that row alone.
#[test]
fn every_marker_is_exactly_one_character() {
    for ic in all() {
        for (state, g) in states(&ic) {
            assert_eq!(
                g.chars().count(),
                1,
                "tier {}: {state} is {g:?}, not a single character",
                name(ic.tier)
            );
        }
    }
}

/// The selection gutter is a reserved column on *every* row, drawn only on
/// the selected one, so a two-cell glyph there would shift that row's name
/// out of line with the rest of the tree -- the same column discipline the
/// state markers are held to.
#[test]
fn every_tier_has_a_one_cell_gutter() {
    assert_eq!(nerd().gutter, "\u{2503}");
    assert_eq!(unicode().gutter, "\u{2503}");
    assert_eq!(ascii().gutter, "|");

    for ic in all() {
        assert_eq!(
            ic.gutter.chars().count(),
            1,
            "tier {}: gutter is {:?}, not a single character",
            name(ic.tier),
            ic.gutter
        );
    }
}

/// The whole point of the ascii tier is terminals and fonts where nothing
/// above 7-bit can be trusted.
#[test]
fn the_ascii_tier_stays_7_bit() {
    for (state, g) in states(&ascii()) {
        assert!(
            g.is_ascii(),
            "ascii tier: {state} is {g:?}, which is not 7-bit"
        );
    }
    let m = ascii().meter;
    let meter = m
        .done
        .iter()
        .chain(m.active.iter())
        .chain(m.empty.iter())
        .chain(m.partial.iter());
    for g in [ascii().expanded, ascii().collapsed, ascii().leaf, ascii().gutter]
        .iter()
        .chain(meter)
    {
        assert!(g.is_ascii(), "ascii tier: {g:?} is not 7-bit");
    }
}

/// Every meter codepoint was checked twice, per the project rule: present in
/// FiraCode Nerd Font via fontTools, *and* resolving natively at exactly
/// 1.00 cells via CoreText. Pinning the tables here is what stops a later
/// "tidy-up" swapping in a lookalike that macOS silently font-falls back.
#[test]
fn the_meter_glyphs_are_the_verified_codepoints() {
    // dex-report draws done and in-flight with the same full block and lets
    // colour separate them; we follow it, so the two tiers with a solid
    // block use one glyph for both.
    assert_eq!(unicode().meter.done, ["\u{2588}"; 3]);
    assert_eq!(unicode().meter.active, ["\u{2588}"; 3]);
    assert_eq!(unicode().meter.empty, ["\u{2591}"; 3]);
    assert_eq!(
        unicode().meter.partial,
        [
            "\u{258f}", "\u{258e}", "\u{258d}", "\u{258c}", "\u{258b}", "\u{258a}", "\u{2589}"
        ]
    );

    // The Nerd Fonts 3.3.0 progress-bar kit: open cap/mid/cap, then filled.
    assert_eq!(nerd().meter.done, ["\u{ee03}", "\u{ee04}", "\u{ee05}"]);
    assert_eq!(nerd().meter.active, ["\u{ee03}", "\u{ee04}", "\u{ee05}"]);
    assert_eq!(nerd().meter.empty, ["\u{ee00}", "\u{ee01}", "\u{ee02}"]);
    assert!(nerd().meter.partial.is_empty());

    assert_eq!(ascii().meter.done, ["#"; 3]);
    assert_eq!(ascii().meter.active, ["+"; 3]);
    assert_eq!(ascii().meter.empty, ["."; 3]);
    assert!(ascii().meter.partial.is_empty());
}

/// A capped tier draws a different glyph at each end, so a fractional cell
/// landing on the last position would eat the right cap and the bar would
/// stop looking like one object. Impossible today only because the nerd kit
/// has no eighth-blocks; this makes it impossible on purpose.
#[test]
fn a_capped_tier_has_no_partial_cells() {
    for ic in all() {
        let m = ic.meter;
        let capped = [m.done, m.active, m.empty]
            .iter()
            .any(|run| run[0] != run[1] || run[1] != run[2]);
        if capped {
            assert!(
                m.partial.is_empty(),
                "tier {}: a capped bar cannot carry a partial cell",
                name(ic.tier)
            );
        }
    }
}

/// The eighth-block codepoints *descend* as the glyph widens (U+258F is the
/// thinnest), so the table is written out rather than computed -- and an
/// off-by-one here would silently draw the wrong fraction with nothing else
/// to catch it. Indexing is `partial[eighths - 1]`, so the order is the
/// whole contract.
#[test]
fn the_partial_cells_run_from_thinnest_to_widest() {
    for ic in all() {
        let p = ic.meter.partial;
        if p.is_empty() {
            continue;
        }
        assert_eq!(p.len(), 7, "tier {}: 1/8 .. 7/8 is seven cells", name(ic.tier));
        let mut prev: Option<char> = None;
        for (i, g) in p.iter().enumerate() {
            let mut cs = g.chars();
            let c = cs.next().unwrap_or_else(|| panic!("tier {}: partial {i} is empty", name(ic.tier)));
            assert!(
                cs.next().is_none(),
                "tier {}: partial {i} is {g:?}, not a single character",
                name(ic.tier)
            );
            if let Some(prev) = prev {
                assert!(
                    c < prev,
                    "tier {}: partial {i} is {g:?}, which does not widen the run",
                    name(ic.tier)
                );
            }
            prev = Some(c);
        }
    }
}
