use wasm_game_of_life::universe::Universe;

fn fill_with(width: u32, height: u32, live: &[(u32, u32)]) -> Vec<bool> {
    let mut fill = vec![false; (width * height) as usize];
    for &(r, c) in live {
        fill[(r * width + c) as usize] = true;
    }
    fill
}

fn alive(u: &Universe, row: u32, col: u32) -> bool {
    let i = (row * u.width() + col) as usize;
    (u.cells()[i / 32] >> (i % 32)) & 1 == 1
}

fn live_cells(u: &Universe) -> Vec<(u32, u32)> {
    let mut out = Vec::new();
    for r in 0..u.height() {
        for c in 0..u.width() {
            if alive(u, r, c) {
                out.push((r, c));
            }
        }
    }
    out
}

fn with_live(width: u32, height: u32, live: &[(u32, u32)]) -> Universe {
    Universe::new(width, height, &fill_with(width, height, live))
}

#[test]
fn new_takes_fill_and_reports_every_cell() {
    let u = with_live(4, 3, &[(0, 1), (2, 3)]);
    assert_eq!(u.width(), 4);
    assert_eq!(u.height(), 3);
    assert_eq!(live_cells(&u), vec![(0, 1), (2, 3)]);
    assert_eq!(u.num_changed(), 12);
    assert_eq!(u.diff_cells(), &(0..12).collect::<Vec<u32>>()[..]);
}

#[test]
fn block_is_still_life() {
    let block = [(2, 2), (2, 3), (3, 2), (3, 3)];
    let mut u = with_live(6, 6, &block);
    u.tick();
    assert_eq!(u.num_changed(), 0);
    assert!(u.diff_cells().is_empty());
    assert_eq!(live_cells(&u), block.to_vec());
}

#[test]
fn blinker_has_period_two() {
    let horizontal = [(2, 1), (2, 2), (2, 3)];
    let mut u = with_live(5, 5, &horizontal);
    u.tick();
    assert_eq!(live_cells(&u), vec![(1, 2), (2, 2), (3, 2)]);
    assert_eq!(u.num_changed(), 4);
    assert_eq!(u.diff_cells(), &[7, 11, 13, 17]);
    u.tick();
    assert_eq!(live_cells(&u), horizontal.to_vec());
}

#[test]
fn tick_is_deterministic() {
    let fill: Vec<bool> = (0..48).map(|i| (i * 7 + i / 5) % 3 == 0).collect();
    let mut a = Universe::new(8, 6, &fill);
    let mut b = Universe::new(8, 6, &fill);
    a.tick();
    b.tick();
    assert_eq!(a.cells(), b.cells());
    assert_eq!(a.diff_cells(), b.diff_cells());
    assert_eq!(a.num_changed(), b.num_changed());
}

#[test]
fn corners_are_neighbours() {
    // (0, 0) is born only if (4, 4), (4, 0) and (0, 4) all count.
    let mut u = with_live(5, 5, &[(4, 4), (4, 0), (0, 4)]);
    u.tick();
    assert!(alive(&u, 0, 0));
    // And (4, 4) is born from (0, 0), (0, 3) and (3, 4) across the edges.
    let mut v = with_live(5, 5, &[(0, 0), (0, 3), (3, 4)]);
    v.tick();
    assert!(alive(&v, 4, 4));
}

#[test]
fn diff_lists_exactly_the_flipped_cells() {
    let fill: Vec<bool> = (0..70).map(|i| (i * 13 + 5) % 7 < 3).collect();
    let mut u = Universe::new(10, 7, &fill);
    let before: Vec<bool> = (0..70).map(|i| alive(&u, i / 10, i % 10)).collect();
    u.tick();
    let after: Vec<bool> = (0..70).map(|i| alive(&u, i / 10, i % 10)).collect();
    let expected: Vec<u32> = (0..70u32).filter(|&i| before[i as usize] != after[i as usize]).collect();
    assert!(!expected.is_empty());
    assert_eq!(u.diff_cells(), &expected[..]);
    assert_eq!(u.num_changed(), expected.len());
}

#[test]
fn clear_then_tick_changes_nothing() {
    let fill: Vec<bool> = (0..30).map(|i| i % 2 == 0).collect();
    let mut u = Universe::new(6, 5, &fill);
    u.clear();
    assert!(live_cells(&u).is_empty());
    assert_eq!(u.num_changed(), 30);
    assert_eq!(u.diff_cells().len(), 30);
    u.tick();
    assert_eq!(u.num_changed(), 0);
    assert!(u.diff_cells().is_empty());
    assert!(live_cells(&u).is_empty());
}

#[test]
fn resize_reports_new_dimensions() {
    let mut u = with_live(4, 4, &[(1, 1)]);
    let fill = fill_with(40, 3, &[(2, 39)]);
    u.resize(40, 3, &fill);
    assert_eq!(u.width(), 40);
    assert_eq!(u.height(), 3);
    assert_eq!(u.cells().len(), 4);
    assert_eq!(live_cells(&u), vec![(2, 39)]);
    assert_eq!(u.num_changed(), 120);
}

#[test]
fn set_width_and_set_height_refill() {
    let mut u = with_live(4, 4, &[(1, 1)]);
    u.set_width(6, &fill_with(6, 4, &[(3, 5)]));
    assert_eq!((u.width(), u.height()), (6, 4));
    assert_eq!(live_cells(&u), vec![(3, 5)]);
    assert_eq!(u.num_changed(), 24);
    u.set_height(2, &fill_with(6, 2, &[(1, 0)]));
    assert_eq!((u.width(), u.height()), (6, 2));
    assert_eq!(live_cells(&u), vec![(1, 0)]);
    assert_eq!(u.diff_cells(), &(0..12).collect::<Vec<u32>>()[..]);
}

#[test]
fn reset_refills_and_reports_all() {
    let mut u = with_live(3, 3, &[(0, 0)]);
    u.toggle_cell(1, 1);
    u.reset(&fill_with(3, 3, &[(2, 2), (0, 1)]));
    assert_eq!(live_cells(&u), vec![(0, 1), (2, 2)]);
    assert_eq!(u.num_changed(), 9);
    assert_eq!(u.diff_cells(), &[0, 1, 2, 3, 4, 5, 6, 7, 8]);
}

#[test]
fn glider_translates_diagonally_every_four_ticks() {
    let mut u = with_live(12, 12, &[]);
    u.clear();
    u.insert_glider(4, 4);
    assert_eq!(live_cells(&u), vec![(3, 4), (4, 2), (4, 4), (5, 3), (5, 4)]);
    assert_eq!(u.num_changed(), 12 * 12 + 25);
    for _ in 0..4 {
        u.tick();
    }
    assert_eq!(live_cells(&u), vec![(4, 5), (5, 3), (5, 5), (6, 4), (6, 5)]);
    for _ in 0..4 {
        u.tick();
    }
    assert_eq!(live_cells(&u), vec![(5, 6), (6, 4), (6, 6), (7, 5), (7, 6)]);
}

#[test]
fn glider_wraps_round_the_torus() {
    let mut u = with_live(8, 8, &[]);
    u.insert_glider(4, 4);
    for _ in 0..32 {
        u.tick();
    }
    assert_eq!(live_cells(&u), vec![(3, 4), (4, 2), (4, 4), (5, 3), (5, 4)]);
}

#[test]
fn glider_stamp_skips_mixed_sign_offsets() {
    // Centred on (1, 3) the template's top row lands on row -1 with
    // positive columns: opposite signs, so those five entries are skipped.
    let mut u = with_live(8, 8, &[]);
    u.insert_glider(1, 3);
    assert_eq!(live_cells(&u), vec![(0, 3), (1, 1), (1, 3), (2, 2), (2, 3)]);
    assert_eq!(u.num_changed(), 64 + 20);
    let stamped: Vec<u32> = (0..4u32).flat_map(|r| (1..6u32).map(move |c| r * 8 + c)).collect();
    assert_eq!(&u.diff_cells()[64..], &stamped[..]);
}

#[test]
fn pulsar_stamp_places_template() {
    let mut u = with_live(25, 25, &[]);
    u.insert_pulsar(12, 12);
    let bars = [6, 11, 13, 18];
    let posts = [8, 9, 10, 15, 16, 17];
    let mut expected = Vec::new();
    for r in 0..25u32 {
        for c in 0..25u32 {
            let bar = bars.contains(&r) && [8, 9, 10, 14, 15, 16].contains(&c);
            let post = posts.contains(&r) && [6, 11, 13, 18].contains(&c);
            if bar || post {
                expected.push((r, c));
            }
        }
    }
    assert_eq!(expected.len(), 48);
    assert_eq!(live_cells(&u), expected);
    assert_eq!(u.num_changed(), 625 + 225);
    assert_eq!(u.diff_cells()[625], 5 * 25 + 5);
    assert_eq!(u.diff_cells()[849], 19 * 25 + 19);
}

#[test]
fn toggle_cell_flips_one_cell_and_resets_diff() {
    let mut u = with_live(4, 3, &[(1, 2)]);
    u.toggle_cell(1, 2);
    assert!(!alive(&u, 1, 2));
    assert_eq!(u.num_changed(), 1);
    assert_eq!(u.diff_cells(), &[6]);
    u.toggle_cell(2, 0);
    assert!(alive(&u, 2, 0));
    assert_eq!(u.diff_cells(), &[8]);
}

#[test]
fn set_cell_appends_to_diff() {
    let mut u = with_live(4, 3, &[]);
    u.toggle_cell(0, 0);
    u.set_cell(2, 3, true);
    u.set_cell(0, 0, false);
    u.set_cell(2, 3, true);
    assert_eq!(live_cells(&u), vec![(2, 3)]);
    assert_eq!(u.num_changed(), 4);
    assert_eq!(u.diff_cells(), &[0, 11, 0, 11]);
}

#[test]
fn to_string_draws_rows() {
    let u = with_live(3, 2, &[(0, 0), (1, 2)]);
    assert_eq!(u.to_string(), "\n\u{25FC}\u{25FB}\u{25FB}\n\u{25FB}\u{25FB}\u{25FC}");
    let one = with_live(1, 1, &[]);
    assert_eq!(one.to_string(), "\n\u{25FB}");
}

#[test]
fn single_cell_grid_counts_itself() {
    // On a 1 by 1 torus all eight neighbours are the cell itself.
    let mut u = with_live(1, 1, &[(0, 0)]);
    u.tick();
    assert!(!alive(&u, 0, 0));
    assert_eq!(u.diff_cells(), &[0]);
}

#[test]
fn fits_template_checks_guarded_targets() {
    let u = with_live(8, 8, &[]);
    assert!(u.fits_template(4, 4, 5));
    assert!(u.fits_template(1, 3, 5));
    // Row 0 meets column -1 with a zero product: guarded through, off grid.
    assert!(!u.fits_template(2, 1, 5));
    // Rows -2 and -1 meet columns -2 and -1: both negative, off grid.
    assert!(!u.fits_template(0, 0, 5));
    assert!(!u.fits_template(6, 4, 5));
    assert!(u.fits_template(7, 7, 1));
    assert!(!u.fits_template(8, 0, 1));
}

#[test]
fn set_cell_after_clear_counts_on() {
    let mut u = with_live(3, 3, &[(1, 1)]);
    u.clear();
    u.set_cell(2, 0, true);
    assert_eq!(live_cells(&u), vec![(2, 0)]);
    assert_eq!(u.num_changed(), 10);
    assert_eq!(u.diff_cells(), &[0, 1, 2, 3, 4, 5, 6, 7, 8, 6]);
}

#[test]
fn glider_stamp_counts_every_entry() {
    let mut u = with_live(10, 10, &[]);
    u.clear();
    u.insert_glider(3, 3);
    let live: Vec<u32> = live_cells(&u).iter().map(|&(r, c)| r * 10 + c).collect();
    assert_eq!(live, vec![23, 31, 33, 42, 43]);
    assert_eq!(u.num_changed(), 125);
    let window: Vec<u32> = (1..6u32).flat_map(|r| (1..6u32).map(move |c| r * 10 + c)).collect();
    assert_eq!(&u.diff_cells()[..100], &(0..100).collect::<Vec<u32>>()[..]);
    assert_eq!(&u.diff_cells()[100..], &window[..]);
}

#[test]
fn glider_stamp_near_top_edge_skips_a_row() {
    let mut u = with_live(10, 10, &[]);
    u.clear();
    u.insert_glider(1, 4);
    let live: Vec<u32> = live_cells(&u).iter().map(|&(r, c)| r * 10 + c).collect();
    assert_eq!(live, vec![4, 12, 14, 23, 24]);
    assert_eq!(u.num_changed(), 120);
    let window: Vec<u32> = (0..4u32).flat_map(|r| (2..7u32).map(move |c| r * 10 + c)).collect();
    assert_eq!(&u.diff_cells()[100..], &window[..]);
}

#[test]
fn cells_has_one_word_per_32_cells() {
    assert_eq!(with_live(4, 8, &[]).cells().len(), 1);
    assert_eq!(with_live(3, 11, &[]).cells().len(), 2);
    assert_eq!(with_live(1, 1, &[]).cells().len(), 1);
    assert_eq!(with_live(64, 2, &[]).cells().len(), 4);
}
