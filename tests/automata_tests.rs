use automata::{
    automata_step, clear_terminal, close_terminal, rule_from_string, Board, LengthMismatch,
    RuleError, Terminal,
};

fn text(chars: &[char]) -> String {
    chars.iter().collect()
}

fn rule(s: &str) -> [u8; 9] {
    rule_from_string(&s.to_string()).unwrap()
}

fn board_with(width: usize, height: usize, cells: &[u8]) -> Board {
    let mut b = Board::new(width, height);
    b.tiles = cells.to_vec();
    b
}

#[test]
fn rule_sets_mentioned_digits() {
    assert_eq!(rule("23"), [0, 0, 1, 1, 0, 0, 0, 0, 0]);
    assert_eq!(rule("3"), [0, 0, 0, 1, 0, 0, 0, 0, 0]);
    assert_eq!(rule("80"), [1, 0, 0, 0, 0, 0, 0, 0, 1]);
    assert_eq!(rule("012345678"), [1; 9]);
}

#[test]
fn empty_rule_never_fires() {
    assert_eq!(rule(""), [0; 9]);
}

#[test]
fn repeated_digit_is_refused() {
    assert_eq!(rule_from_string(&"33".to_string()), Err(RuleError::DuplicateDigit));
    assert_eq!(rule_from_string(&"2312".to_string()), Err(RuleError::DuplicateDigit));
}

#[test]
fn non_digit_is_refused() {
    assert_eq!(rule_from_string(&"2x".to_string()), Err(RuleError::NotADigit));
    assert_eq!(rule_from_string(&"+3".to_string()), Err(RuleError::NotADigit));
    assert_eq!(rule_from_string(&"3\u{2022}".to_string()), Err(RuleError::NotADigit));
}

#[test]
fn nine_is_refused() {
    assert_eq!(rule_from_string(&"39".to_string()), Err(RuleError::DigitOutOfRange));
}

#[test]
fn first_malformed_character_decides_the_error() {
    assert_eq!(rule_from_string(&"3a3".to_string()), Err(RuleError::NotADigit));
    assert_eq!(rule_from_string(&"33a".to_string()), Err(RuleError::DuplicateDigit));
    assert_eq!(rule_from_string(&"99".to_string()), Err(RuleError::DigitOutOfRange));
}

#[test]
fn new_board_is_dead() {
    let b = Board::new(4, 3);
    assert_eq!(b.tiles, vec![0u8; 12]);
}

#[test]
fn corner_edge_and_interior_neighbour_counts() {
    let b = board_with(3, 3, &[1; 9]);
    assert_eq!(b.count_neighbours(0, 0), 3);
    assert_eq!(b.count_neighbours(2, 0), 3);
    assert_eq!(b.count_neighbours(0, 2), 3);
    assert_eq!(b.count_neighbours(2, 2), 3);
    assert_eq!(b.count_neighbours(1, 0), 5);
    assert_eq!(b.count_neighbours(0, 1), 5);
    assert_eq!(b.count_neighbours(1, 1), 8);
}

#[test]
fn neighbour_count_excludes_the_cell_itself() {
    let b = board_with(3, 3, &[0, 0, 0, 0, 1, 0, 0, 0, 0]);
    assert_eq!(b.count_neighbours(1, 1), 0);
    assert_eq!(b.count_neighbours(0, 0), 1);
}

#[test]
fn neighbour_count_on_a_wide_grid() {
    // Row-major: cell (x, y) is at x + y * 4.
    let b = board_with(4, 2, &[1, 0, 0, 1, 0, 1, 1, 0]);
    assert_eq!(b.count_neighbours(0, 0), 1);
    assert_eq!(b.count_neighbours(3, 0), 1);
    assert_eq!(b.count_neighbours(1, 1), 2);
    assert_eq!(b.count_neighbours(2, 0), 3);
}

#[test]
fn lone_cell_dies() {
    let mut b = board_with(3, 3, &[0, 0, 0, 0, 1, 0, 0, 0, 0]);
    automata_step(&mut b, rule("3"), rule("23"));
    assert_eq!(b.tiles, vec![0u8; 9]);
}

#[test]
fn surrounded_dead_cell_stays_dead() {
    let mut b = board_with(3, 3, &[1, 1, 1, 1, 0, 1, 1, 1, 1]);
    assert_eq!(b.count_neighbours(1, 1), 8);
    automata_step(&mut b, rule("3"), rule("23"));
    assert_eq!(b.tiles[4], 0);
}

#[test]
fn blinker_oscillates() {
    let mut b = board_with(3, 3, &[0, 1, 0, 0, 1, 0, 0, 1, 0]);
    automata_step(&mut b, rule("3"), rule("23"));
    assert_eq!(b.tiles, vec![0, 0, 0, 1, 1, 1, 0, 0, 0]);
    automata_step(&mut b, rule("3"), rule("23"));
    assert_eq!(b.tiles, vec![0, 1, 0, 0, 1, 0, 0, 1, 0]);
}

#[test]
fn step_reads_only_the_previous_generation() {
    // With birth on one neighbour, a cell updated in place would feed its
    // own neighbours; the whole row must instead see the old state.
    let mut b = board_with(3, 1, &[1, 0, 0]);
    automata_step(&mut b, rule("1"), rule(""));
    assert_eq!(b.tiles, vec![0, 1, 0]);
}

#[test]
fn step_keeps_the_shape() {
    let mut b = board_with(5, 2, &[1, 0, 1, 1, 0, 0, 1, 1, 0, 1]);
    automata_step(&mut b, rule("3"), rule("23"));
    assert_eq!(b.tiles.len(), 10);
    assert!(b.tiles.iter().all(|t| *t <= 1));
}

#[test]
fn step_is_deterministic() {
    let cells = [1, 1, 0, 0, 1, 0, 1, 1, 0, 0, 1, 0, 1, 0, 1, 1];
    let mut a = board_with(4, 4, &cells);
    let mut b = board_with(4, 4, &cells);
    automata_step(&mut a, rule("36"), rule("23"));
    automata_step(&mut b, rule("36"), rule("23"));
    assert_eq!(a.tiles, b.tiles);
}

#[test]
fn randomize_extremes() {
    let mut b = Board::new(6, 5);
    b.randomize(0, 100);
    assert_eq!(b.tiles, vec![0u8; 30]);
    b.randomize(100, 100);
    assert_eq!(b.tiles, vec![1u8; 30]);
}

#[test]
fn draws_decide_each_cell() {
    let mut b = board_with(3, 2, &[1, 1, 0, 0, 1, 0]);
    b.set_from_draws(&vec![true, false, false, true, true, false]);
    assert_eq!(b.tiles, vec![1, 0, 0, 1, 1, 0]);
    assert_eq!(b.cells(), &vec![1u8, 0, 0, 1, 1, 0]);
}

#[test]
fn randomize_yields_dead_or_alive_cells() {
    let mut b = Board::new(20, 20);
    b.randomize(50, 100);
    assert_eq!(b.tiles.len(), 400);
    assert!(b.tiles.iter().all(|t| *t <= 1));
}

#[test]
fn render_writes_changed_cells_in_row_major_order() {
    let mut t = Terminal::new(2, 2, 198);
    let frame = vec!['a', 'b', 'c', 'd'];
    let out = t.draw_buffer(&frame).unwrap();
    assert_eq!(
        text(&out),
        "\x1b[38;5;198m\n\x1b[0;0Ha\x1b[0;1Hb\x1b[1;0Hc\x1b[1;1Hd"
    );
    let again = t.draw_buffer(&frame).unwrap();
    assert!(again.is_empty());
}

#[test]
fn render_of_unchanged_frame_writes_nothing() {
    let mut t = Terminal::new(3, 2, 7);
    let out = t.draw_buffer(&vec![' '; 6]).unwrap();
    assert!(out.is_empty());
}

#[test]
fn render_skips_unchanged_cells() {
    let mut t = Terminal::new(2, 2, 5);
    t.draw_buffer(&vec!['a', 'b', 'c', 'd']).unwrap();
    let out = t.draw_buffer(&vec!['a', 'x', 'c', 'd']).unwrap();
    assert_eq!(text(&out), "\x1b[38;5;5m\n\x1b[0;1Hx");
}

#[test]
fn render_positions_with_several_digits() {
    let mut t = Terminal::new(12, 11, 0);
    let mut frame = vec![' '; 132];
    frame[131] = '#';
    let out = t.draw_buffer(&frame).unwrap();
    assert_eq!(text(&out), "\x1b[38;5;0m\n\x1b[10;11H#");
}

#[test]
fn render_refuses_a_frame_of_another_size() {
    let mut t = Terminal::new(2, 2, 1);
    assert_eq!(
        t.draw_buffer(&vec!['a', 'b', 'c']),
        Err(LengthMismatch { expected: 4, found: 3 })
    );
    // The screen is unchanged: the full frame still draws every cell.
    let out = t.draw_buffer(&vec!['a', 'b', 'c', 'd']).unwrap();
    assert_eq!(out.iter().filter(|c| **c == 'H').count(), 4);
}

#[test]
fn print_tiles_draws_dots_for_live_cells() {
    let mut t = Terminal::new(2, 2, 42);
    let out = t.print_tiles(&vec![1, 0, 0, 1]).unwrap();
    assert_eq!(text(&out), "\x1b[38;5;42m\n\x1b[0;0H\u{2022}\x1b[1;1H\u{2022}");
    let out = t.print_tiles(&vec![0, 0, 0, 1]).unwrap();
    assert_eq!(text(&out), "\x1b[38;5;42m\n\x1b[0;0H ");
    assert!(t.print_tiles(&vec![0, 0, 0, 1]).unwrap().is_empty());
    assert_eq!(
        t.print_tiles(&vec![0; 5]),
        Err(LengthMismatch { expected: 4, found: 5 })
    );
}

#[test]
fn print_tiles_follows_a_stepped_board() {
    let mut b = board_with(3, 3, &[0, 1, 0, 0, 1, 0, 0, 1, 0]);
    let mut t = Terminal::new(3, 3, 198);
    t.print_tiles(&b.tiles).unwrap();
    automata_step(&mut b, rule("3"), rule("23"));
    let out = t.print_tiles(&b.tiles).unwrap();
    assert_eq!(
        text(&out),
        "\x1b[38;5;198m\n\x1b[0;1H \x1b[1;0H\u{2022}\x1b[1;2H\u{2022}\x1b[2;1H "
    );
}

#[test]
fn close_sequence() {
    assert_eq!(text(&close_terminal(24)), "\x1b[0m\n\x1b[?25h\n\x1b[24;0H ");
    assert_eq!(text(&close_terminal(0)), "\x1b[0m\n\x1b[?25h\n\x1b[0;0H ");
}

#[test]
fn clear_sequence() {
    assert_eq!(text(&clear_terminal()), "\x1b[2J\n\x1b[?25l\n");
}
