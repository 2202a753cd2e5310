use node_graph_interpreter::board::Board;

fn board_from(rows: &[&str]) -> Board {
    let h = rows.len();
    let w = rows[0].len();
    let mut cells = Vec::new();
    for row in rows {
        for ch in row.chars() {
            cells.push(ch == '#');
        }
    }
    Board::from_cells(w, h, cells)
}

fn rows_of(b: &Board, w: usize, h: usize) -> Vec<String> {
    let mut out = Vec::new();
    for y in 0..h {
        let mut row = String::new();
        for x in 0..w {
            row.push(if b.get(x, y) { '#' } else { '.' });
        }
        out.push(row);
    }
    out
}

#[test]
fn new_board_is_dead_and_stays_dead() {
    let mut b = Board::new(4, 3);
    for y in 0..3 {
        for x in 0..4 {
            assert!(!b.get(x, y));
        }
    }
    b.update();
    for y in 0..3 {
        for x in 0..4 {
            assert!(!b.get(x, y));
        }
    }
}

#[test]
fn set_stages_without_touching_live_cells() {
    let mut b = Board::new(3, 3);
    b.set(1, 1, true);
    assert!(!b.get(1, 1));
}

#[test]
fn neighbor_counts() {
    let b = board_from(&[
        "##.",
        ".#.",
        "...",
    ]);
    assert_eq!(b.count_neighbors(1, 1), 2);
    assert_eq!(b.count_neighbors(0, 0), 2);
    assert_eq!(b.count_neighbors(2, 0), 2);
    assert_eq!(b.count_neighbors(0, 2), 1);
    assert_eq!(b.count_neighbors(2, 2), 1);
}

#[test]
fn blinker_oscillates() {
    let mut b = board_from(&[
        ".....",
        ".....",
        ".###.",
        ".....",
        ".....",
    ]);
    b.update();
    assert_eq!(
        rows_of(&b, 5, 5),
        vec![".....", "..#..", "..#..", "..#..", "....."]
    );
    b.update();
    assert_eq!(
        rows_of(&b, 5, 5),
        vec![".....", ".....", ".###.", ".....", "....."]
    );
}

#[test]
fn block_is_still_life() {
    let mut b = board_from(&[
        "....",
        ".##.",
        ".##.",
        "....",
    ]);
    b.update();
    assert_eq!(rows_of(&b, 4, 4), vec!["....", ".##.", ".##.", "...."]);
}

#[test]
fn lonely_cell_dies_and_three_neighbors_give_birth() {
    let mut b = board_from(&[
        "...",
        ".#.",
        "...",
    ]);
    b.update();
    assert_eq!(rows_of(&b, 3, 3), vec!["...", "...", "..."]);

    let mut b = board_from(&[
        "##.",
        "#..",
        "...",
    ]);
    b.update();
    assert_eq!(rows_of(&b, 3, 3), vec!["##.", "##.", "..."]);
}
