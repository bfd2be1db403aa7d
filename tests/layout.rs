use termoil::layout::{compute_pane_areas, cursor_cell, grid_dimensions, navigate_index, pane_inner_area, Direction, Rect};

fn overlaps(a: &Rect, b: &Rect) -> bool {
    let ax2 = a.x as u32 + a.width as u32;
    let bx2 = b.x as u32 + b.width as u32;
    let ay2 = a.y as u32 + a.height as u32;
    let by2 = b.y as u32 + b.height as u32;
    (a.x as u32) < bx2 && (b.x as u32) < ax2 && (a.y as u32) < by2 && (b.y as u32) < ay2
}

#[test]
fn grid_dimensions_table() {
    let expected = [
        (0, (1, 1)),
        (1, (1, 1)),
        (2, (1, 2)),
        (3, (2, 2)),
        (4, (2, 2)),
        (5, (2, 3)),
        (6, (2, 3)),
        (7, (3, 3)),
        (8, (3, 3)),
        (9, (3, 3)),
    ];
    for (count, shape) in expected {
        assert_eq!(grid_dimensions(count), shape, "count {}", count);
    }
}

#[test]
fn pane_areas_partition_the_area() {
    let area = Rect::new(0, 7, 120, 40);
    for count in 1..=9usize {
        let areas = compute_pane_areas(area, count);
        assert_eq!(areas.len(), count);
        let mut covered: u32 = 0;
        for (i, a) in areas.iter().enumerate() {
            assert!(a.x >= area.x && a.y >= area.y);
            assert!(a.x + a.width <= area.x + area.width);
            assert!(a.y + a.height <= area.y + area.height);
            for b in areas.iter().skip(i + 1) {
                assert!(!overlaps(a, b), "count {}: {:?} overlaps {:?}", count, a, b);
            }
            covered += a.width as u32 * a.height as u32;
        }
        assert_eq!(covered, area.width as u32 * area.height as u32, "count {}", count);
    }
}

#[test]
fn pane_areas_empty_for_no_panes() {
    assert!(compute_pane_areas(Rect::new(0, 0, 80, 24), 0).is_empty());
}

#[test]
fn short_last_row_has_wider_equal_cells() {
    let area = Rect::new(0, 0, 90, 30);
    let areas = compute_pane_areas(area, 5);
    // 2 by 3 grid: three cells on top, two on the bottom row.
    assert_eq!(areas[0].y, areas[2].y);
    assert_eq!(areas[3].y, areas[4].y);
    assert!(areas[3].y > areas[0].y);
    assert_eq!(areas[3].width, areas[4].width);
    assert_eq!(areas[3].width, 45);
    assert_eq!(areas[0].width, 30);
    let areas = compute_pane_areas(area, 7);
    assert_eq!(areas[6].width, 90);
    assert_eq!(areas[6].x, 0);
}

#[test]
fn single_pane_takes_whole_area() {
    let area = Rect::new(3, 7, 80, 20);
    assert_eq!(compute_pane_areas(area, 1), vec![area]);
}

#[test]
fn navigation_is_fixed_at_top_and_left_edges() {
    for count in 1..=9usize {
        let (_rows, cols) = grid_dimensions(count);
        for sel in 0..count.min(cols) {
            let mut cur = sel;
            for _ in 0..5 {
                cur = navigate_index(cur, count, Direction::Up);
                assert_eq!(cur, sel);
            }
        }
        for sel in (0..count).step_by(cols) {
            let mut cur = sel;
            for _ in 0..5 {
                cur = navigate_index(cur, count, Direction::Left);
                assert_eq!(cur, sel);
            }
        }
    }
}

#[test]
fn navigation_moves_across_the_grid() {
    // 2 by 2 grid of four panes.
    assert_eq!(navigate_index(0, 4, Direction::Right), 1);
    assert_eq!(navigate_index(0, 4, Direction::Down), 2);
    assert_eq!(navigate_index(3, 4, Direction::Up), 1);
    assert_eq!(navigate_index(3, 4, Direction::Left), 2);
    // Right from the end of a row continues on the next row.
    assert_eq!(navigate_index(1, 4, Direction::Right), 2);
    assert_eq!(navigate_index(3, 4, Direction::Right), 3);
    assert_eq!(navigate_index(3, 4, Direction::Down), 3);
}

#[test]
fn navigation_clamps_into_short_last_row() {
    // 2 by 3 grid of five panes: slot 5 is empty.
    assert_eq!(navigate_index(2, 5, Direction::Down), 4);
    assert_eq!(navigate_index(1, 5, Direction::Down), 4);
    assert_eq!(navigate_index(0, 5, Direction::Down), 3);
    // 3 by 3 grid of seven panes.
    assert_eq!(navigate_index(5, 7, Direction::Down), 6);
    assert_eq!(navigate_index(6, 7, Direction::Down), 6);
}

#[test]
fn inner_area_drops_the_border() {
    assert_eq!(pane_inner_area(Rect::new(0, 7, 40, 10)), Rect::new(1, 8, 38, 8));
    assert_eq!(pane_inner_area(Rect::new(5, 5, 1, 1)), Rect::new(6, 6, 0, 0));
    assert_eq!(pane_inner_area(Rect::new(u16::MAX, 0, 2, 3)), Rect::new(u16::MAX, 1, 0, 1));
}

#[test]
fn cursor_drawn_inside_zoomed_pane() {
    let area = Rect::new(0, 0, 80, 24);
    assert_eq!(cursor_cell(area, 0, 0, false), Some((1, 1)));
    assert_eq!(cursor_cell(area, 5, 10, false), Some((11, 6)));
    assert_eq!(cursor_cell(area, 100, 200, false), Some((78, 22)));
    assert_eq!(cursor_cell(area, 5, 10, true), None);
    assert_eq!(cursor_cell(Rect::new(0, 0, 2, 24), 0, 0, false), None);
}

#[test]
fn last_row_cells_share_width_up_to_rounding() {
    for width in [90u16, 100, 101, 7] {
        let areas = compute_pane_areas(Rect::new(0, 0, width, 30), 8);
        let last_row = &areas[6..];
        let min = last_row.iter().map(|a| a.width).min().unwrap();
        let max = last_row.iter().map(|a| a.width).max().unwrap();
        assert!(max - min <= 1, "width {}: {:?}", width, last_row);
        let total: u32 = last_row.iter().map(|a| a.width as u32).sum();
        assert_eq!(total, width as u32);
    }
    let areas = compute_pane_areas(Rect::new(0, 0, 100, 30), 3);
    let widths: Vec<u16> = areas.iter().map(|a| a.width).collect();
    assert_eq!(widths, vec![50, 50, 100]);
}

#[test]
fn exact_layouts_for_three_and_five_panes() {
    let area = Rect::new(0, 0, 90, 60);
    assert_eq!(
        compute_pane_areas(area, 3),
        vec![Rect::new(0, 0, 45, 30), Rect::new(45, 0, 45, 30), Rect::new(0, 30, 90, 30)]
    );
    assert_eq!(
        compute_pane_areas(area, 5),
        vec![
            Rect::new(0, 0, 30, 30),
            Rect::new(30, 0, 30, 30),
            Rect::new(60, 0, 30, 30),
            Rect::new(0, 30, 45, 30),
            Rect::new(45, 30, 45, 30),
        ]
    );
}
