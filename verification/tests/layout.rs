use ha_tui::layout::{card_cells, columns_for_width, row_span, rows_for, Area};

#[test]
fn narrow_area_has_one_column() {
    assert_eq!(columns_for_width(0), 1);
    assert_eq!(columns_for_width(27), 1);
}

#[test]
fn columns_are_whole_cards() {
    assert_eq!(columns_for_width(28), 1);
    assert_eq!(columns_for_width(56), 2);
    assert_eq!(columns_for_width(83), 2);
    assert_eq!(columns_for_width(84), 3);
    assert_eq!(columns_for_width(u16::MAX), 2340);
}

#[test]
fn rows_round_up() {
    assert_eq!(rows_for(0, 3), 0);
    assert_eq!(rows_for(1, 3), 1);
    assert_eq!(rows_for(3, 3), 1);
    assert_eq!(rows_for(4, 3), 2);
    assert_eq!(rows_for(7, 1), 7);
}

#[test]
fn every_card_has_one_row() {
    let n = 7;
    let cols = 3;
    let rows = rows_for(n, cols);
    let mut seen = vec![0; n];
    for r in 0..rows {
        let (start, end) = row_span(r, cols, n);
        for i in start..end {
            seen[i] += 1;
        }
    }
    assert_eq!(seen, vec![1; n]);
    assert_eq!(row_span(2, 3, 7), (6, 7));
    assert_eq!(row_span(0, 3, 7), (0, 3));
}

fn cells_of(n: usize, x: u16, y: u16, width: u16, height: u16) -> Vec<(usize, (u16, u16, u16, u16))> {
    card_cells(n, &Area { x, y, width, height })
        .into_iter()
        .map(|(i, c)| (i, (c.x, c.y, c.width, c.height)))
        .collect()
}

#[test]
fn no_card_no_cell() {
    assert!(cells_of(0, 0, 0, 60, 30).is_empty());
}

#[test]
fn cards_fill_rows_of_cells() {
    assert_eq!(
        cells_of(3, 0, 0, 60, 30),
        vec![(0, (0, 0, 28, 10)), (1, (28, 0, 28, 10)), (2, (0, 10, 28, 10))]
    );
}

#[test]
fn cells_start_at_the_area_corner() {
    assert_eq!(
        cells_of(4, 2, 3, 90, 20),
        vec![(0, (2, 3, 28, 10)), (1, (30, 3, 28, 10)), (2, (58, 3, 28, 10)), (3, (2, 13, 28, 10))]
    );
}

#[test]
fn narrow_area_stacks_cards() {
    let cells = cells_of(2, 0, 0, 20, 25);
    assert_eq!(cells.len(), 2);
    assert_eq!(cells[0].0, 0);
    assert_eq!(cells[1].0, 1);
    assert_eq!(cells[0].1 .1, 0);
    assert_eq!(cells[1].1 .1, 10);
}
