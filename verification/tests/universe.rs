use life_torus::Universe;

/// Collects the alive cells of `u` as `(row, col)` pairs, row-major.
fn alive_cells(u: &Universe) -> Vec<(u32, u32)> {
    let w = u.width();
    let h = u.height();
    let bits = u.get_cells();
    let mut out = Vec::new();
    for row in 0..h {
        for col in 0..w {
            if bits.contains((row * w + col) as usize) {
                out.push((row, col));
            }
        }
    }
    out
}

#[test]
fn dimension_floor_rejects_small() {
    assert!(Universe::try_new(5, 6, false).is_none());
    assert!(Universe::try_new(6, 5, true).is_none());
    assert!(Universe::try_new(0, 0, false).is_none());
    assert!(Universe::try_new(5, 5, true).is_none());
}

#[test]
fn dimension_floor_accepts_and_sizes() {
    let u = Universe::new(6, 6, false);
    assert_eq!(u.get_cells().len(), 36);
    assert_eq!(u.width(), 6);
    assert_eq!(u.height(), 6);

    let v = Universe::try_new(7, 9, true).unwrap();
    assert_eq!(v.get_cells().len(), 63);
    assert_eq!(v.width(), 7);
    assert_eq!(v.height(), 9);
}

#[test]
fn corner_wraparound_blinker() {
    let mut u = Universe::new(6, 6, false);
    // A vertical blinker crossing the top edge: rows 5, 0, 1 of column 0.
    u.set_cells(&[(5, 0), (0, 0), (1, 0)]);
    u.tick();
    // It turns into a horizontal blinker crossing the left edge, which can
    // only happen if the neighbor count wraps around both edges.
    assert_eq!(alive_cells(&u), vec![(0, 0), (0, 1), (0, 5)]);
    u.tick();
    // And back: a period-2 oscillator.
    assert_eq!(alive_cells(&u), vec![(0, 0), (1, 0), (5, 0)]);
}

#[test]
fn glider_first_tick() {
    let mut u = Universe::new(6, 6, false);
    assert_eq!(
        alive_cells(&u),
        vec![(1, 3), (2, 1), (2, 3), (3, 2), (3, 3)]
    );
    u.tick();
    assert_eq!(
        alive_cells(&u),
        vec![(1, 2), (2, 3), (2, 4), (3, 2), (3, 3)]
    );
}

#[test]
fn glider_translates_every_four_ticks() {
    let mut u = Universe::new(8, 8, false);
    for _ in 0..4 {
        u.tick();
    }
    // After four generations the glider has moved one cell down and one
    // cell to the right.
    assert_eq!(
        alive_cells(&u),
        vec![(2, 4), (3, 2), (3, 4), (4, 3), (4, 4)]
    );
}

#[test]
fn glider_cycles_on_the_torus() {
    // On a 6x6 torus the glider wraps all the way around: after 24 ticks
    // it has translated by (6, 6), which is the identity.
    let mut u = Universe::new(6, 6, false);
    let start = alive_cells(&u);
    for _ in 0..24 {
        u.tick();
    }
    assert_eq!(alive_cells(&u), start);
}

#[test]
fn construction_is_deterministic_without_random_init() {
    let mut a = Universe::new(7, 6, false);
    let mut b = Universe::new(7, 6, false);
    assert_eq!(alive_cells(&a), alive_cells(&b));
    for _ in 0..5 {
        a.tick();
        b.tick();
        assert_eq!(alive_cells(&a), alive_cells(&b));
    }
}

#[test]
fn block_still_life_is_unchanged() {
    let mut u = Universe::new(6, 6, false);
    u.set_cells(&[(1, 1), (1, 2), (2, 1), (2, 2)]);
    let before = alive_cells(&u);
    for _ in 0..3 {
        u.tick();
        assert_eq!(alive_cells(&u), before);
    }
}

#[test]
fn set_cells_replaces_previous_pattern() {
    let mut u = Universe::new(6, 6, false);
    u.set_cells(&[(0, 0), (3, 3)]);
    assert_eq!(alive_cells(&u), vec![(0, 0), (3, 3)]);
    u.set_cells(&[(5, 5)]);
    assert_eq!(alive_cells(&u), vec![(5, 5)]);
}

#[test]
fn resize_resets_state() {
    let mut u = Universe::new(6, 6, false);
    u.toggle(0, 0);
    u.tick();
    u.set_width(8);
    assert_eq!(u.width(), 8);
    assert_eq!(u.height(), 6);
    assert_eq!(u.get_cells().len(), 48);
    assert!(alive_cells(&u).is_empty());

    u.set_cells(&[(2, 7)]);
    u.set_height(7);
    assert_eq!(u.width(), 8);
    assert_eq!(u.height(), 7);
    assert_eq!(u.get_cells().len(), 56);
    assert!(alive_cells(&u).is_empty());
}

#[test]
fn reset_clears_or_redraws() {
    let mut u = Universe::new(6, 6, false);
    u.reset(false);
    assert!(alive_cells(&u).is_empty());
    assert_eq!(u.get_cells().len(), 36);

    u.reset(true);
    assert_eq!(u.get_cells().len(), 36);
}

#[test]
fn toggle_flips_one_cell() {
    let mut u = Universe::new(6, 6, false);
    u.reset(false);
    u.toggle(2, 4);
    assert_eq!(alive_cells(&u), vec![(2, 4)]);
    u.toggle(2, 4);
    assert!(alive_cells(&u).is_empty());
}

#[test]
fn random_seeding_fraction_near_three_tenths() {
    let u = Universe::new(100, 100, true);
    let alive = u.get_cells().count_ones(..);
    // Mean 3000 of 10000; a 1000-wide margin is far beyond sampling noise.
    assert!(alive > 2000, "alive fraction too low: {alive}");
    assert!(alive < 4000, "alive fraction too high: {alive}");
}

#[test]
fn render_draws_rows_of_symbols() {
    let mut u = Universe::new(6, 6, false);
    let mut expected = String::new();
    expected.push_str("◻◻◻◻◻◻\n");
    expected.push_str("◻◻◻◼◻◻\n");
    expected.push_str("◻◼◻◼◻◻\n");
    expected.push_str("◻◻◼◼◻◻\n");
    expected.push_str("◻◻◻◻◻◻\n");
    expected.push_str("◻◻◻◻◻◻\n");
    assert_eq!(u.render(), expected);

    u.reset(false);
    u.toggle(0, 0);
    let mut dot = String::from("◼");
    for _ in 0..5 {
        dot.push('◻');
    }
    dot.push('\n');
    for _ in 0..5 {
        for _ in 0..6 {
            dot.push('◻');
        }
        dot.push('\n');
    }
    assert_eq!(u.render(), dot);
}

#[test]
fn cells_packs_bits_into_words() {
    let u = Universe::new(6, 6, false);
    let words = u.cells();
    // 36 cells need two 32-bit words; the glider cells sit at linear
    // indices 9, 13, 15, 20 and 21, all in the first word.
    assert_eq!(words.len(), 2);
    assert_eq!(
        words[0],
        (1u32 << 9) | (1 << 13) | (1 << 15) | (1 << 20) | (1 << 21)
    );
    assert_eq!(words[1], 0);
}
