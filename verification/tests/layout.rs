use std::collections::HashSet;

use tui_toolkit::layout::{arrange, centering_shares, settle_middle, ResponsiveGrid, MAX_ROWS};
use tui_toolkit::partition::{Constraint, Direction};
use tui_toolkit::{centered_rect, centered_rect_with_size, Rect};

#[test]
fn test_responsive_grid() {
    let grid = ResponsiveGrid::new();
    let area = Rect::new(0, 0, 100, 100);

    // Test with different item counts
    assert_eq!(grid.split(area, 0).len(), 0);
    assert_eq!(grid.split(area, 1).len(), 1);
    assert_eq!(grid.split(area, 4).len(), 4);

    // Test column calculation
    assert_eq!(grid.calculate_columns(0), 1, "Should have at least 1 column for zero width");
    assert_eq!(grid.calculate_columns(29), 1, "Should have at least 1 column for narrow width");
    assert_eq!(grid.calculate_columns(30), 1);
    assert_eq!(grid.calculate_columns(60), 2);
    assert_eq!(grid.calculate_columns(200), 4); // Max columns
}

#[test]
fn test_grid_row_calculations() {
    let grid = ResponsiveGrid::new();
    // Create a wide area that allows max columns (4)
    let area = Rect::new(0, 0, 200, 100);

    // Test various item counts and verify row calculations
    let test_cases = [
        // (item_count, expected_rows, expected_columns)
        (0, 0, 0),  // Empty grid
        (1, 1, 1),  // Single item
        (4, 1, 4),  // Full single row
        (5, 2, 4),  // One full row + one item
        (8, 2, 4),  // Two full rows
        (9, 3, 4),  // Two full rows + one item
        (16, 4, 4), // Four full rows
    ];

    for (items, expected_rows, expected_cols) in test_cases {
        let cells = grid.split(area, items);
        assert_eq!(cells.len(), items, "Expected {} cells for {} items", items, items);

        if items > 0 {
            // Verify row count by checking the y coordinates
            let unique_rows = cells.iter().map(|r| r.y).collect::<HashSet<_>>().len();
            assert_eq!(unique_rows, expected_rows, "Expected {} rows for {} items", expected_rows, items);

            // Verify column count by checking items in first row
            let first_row_items = cells.iter().filter(|r| r.y == cells[0].y).count();
            assert_eq!(
                first_row_items,
                expected_cols.min(items),
                "Expected {} columns in first row for {} items",
                expected_cols.min(items),
                items
            );
        }
    }
}

#[test]
fn test_grid_edge_cases() {
    let grid = ResponsiveGrid::new();
    let area = Rect::new(0, 0, 200, 100);

    // Test with a large but reasonable number of items
    let large_count = 10_000; // Large enough to test overflow handling but won't hang
    let cells = grid.split(area, large_count);
    assert!(!cells.is_empty(), "Should handle large item counts");
    assert!(cells.len() <= large_count, "Should not exceed requested count");

    // Test with area width smaller than minimum column width
    let narrow_area = Rect::new(0, 0, 20, 100);
    let cells = grid.split(narrow_area, 4);
    assert_eq!(cells.len(), 4, "Should still create cells in narrow area");

    // Test with zero height area
    let zero_height_area = Rect::new(0, 0, 200, 0);
    let cells = grid.split(zero_height_area, 4);
    assert_eq!(cells.len(), 4, "Should handle zero height areas");
    assert!(cells.iter().all(|r| r.height == 0), "All cells should have zero height");

    // Test with zero width area
    let zero_width_area = Rect::new(0, 0, 0, 100);
    let cells = grid.split(zero_width_area, 4);
    assert_eq!(cells.len(), 4, "Should handle zero width areas");
}

#[test]
fn test_centered_rect() {
    let container = Rect::new(0, 0, 100, 100);
    let centered = centered_rect_with_size(20, 20, container);

    assert_eq!(centered.x, 40);
    assert_eq!(centered.y, 40);
    assert_eq!(centered.width, 20);
    assert_eq!(centered.height, 20);
}

#[test]
fn default_grid_settings() {
    let grid = ResponsiveGrid::default();
    assert_eq!(grid.min_column_width, 30);
    assert_eq!(grid.max_columns, 4);
    let custom = ResponsiveGrid::with_settings(10, 7);
    assert_eq!(custom.min_column_width, 10);
    assert_eq!(custom.max_columns, 7);
}

#[test]
fn columns_grow_with_width_up_to_the_maximum() {
    let grid = ResponsiveGrid::with_settings(10, 3);
    let mut previous = grid.calculate_columns(0);
    assert_eq!(previous, 1);
    for width in 0..=200u16 {
        let columns = grid.calculate_columns(width);
        assert!(columns >= previous);
        assert!((1..=3).contains(&columns));
        previous = columns;
    }
    assert_eq!(grid.calculate_columns(9), 1);
    assert_eq!(grid.calculate_columns(10), 1);
    assert_eq!(grid.calculate_columns(19), 1);
    assert_eq!(grid.calculate_columns(20), 2);
    assert_eq!(grid.calculate_columns(30), 3);
    assert_eq!(grid.calculate_columns(u16::MAX), 3);
}

#[test]
fn row_count_rounds_up_and_is_capped() {
    let grid = ResponsiveGrid::new();
    assert_eq!(grid.row_count(200, 0), 0);
    assert_eq!(grid.row_count(200, 1), 1);
    assert_eq!(grid.row_count(200, 4), 1);
    assert_eq!(grid.row_count(200, 5), 2);
    assert_eq!(grid.row_count(200, 4093), 1024);
    assert_eq!(grid.row_count(200, 4096), 1024);
    assert_eq!(grid.row_count(200, 4097), MAX_ROWS);
    assert_eq!(MAX_ROWS, 1024);
    assert_eq!(grid.row_count(200, usize::MAX), MAX_ROWS);
    assert_eq!(grid.row_count(20, 7), 7);
    assert_eq!(grid.row_count(0, 3), 3);
}

#[test]
fn large_item_counts_fill_the_capped_grid() {
    let grid = ResponsiveGrid::new();
    let cells = grid.split(Rect::new(0, 0, 200, 100), 10_000);
    assert_eq!(cells.len(), 4 * MAX_ROWS);
}

#[test]
fn narrow_area_puts_every_item_in_one_column() {
    let grid = ResponsiveGrid::new();
    let area = Rect::new(3, 5, 20, 100);
    let cells = grid.split(area, 4);
    assert_eq!(cells.len(), 4);
    let rows = cells.iter().map(|r| r.y).collect::<HashSet<_>>();
    assert_eq!(rows.len(), 4);
    for cell in &cells {
        assert_eq!(cell.x, 3);
        assert_eq!(cell.width, 20);
    }
    // The bands of a single column are the cells themselves.
    let total: u32 = cells.iter().map(|r| u32::from(r.height)).sum();
    assert_eq!(total, 100);
}

#[test]
fn bands_and_slices_use_up_the_area() {
    let grid = ResponsiveGrid::new();
    let area = Rect::new(2, 1, 203, 101);
    let cells = grid.split(area, 12);
    assert_eq!(cells.len(), 12);
    for row in 0..3 {
        let slices = &cells[row * 4..row * 4 + 4];
        assert!(slices.iter().all(|r| r.y == slices[0].y && r.height == slices[0].height));
        let width: u32 = slices.iter().map(|r| u32::from(r.width)).sum();
        assert_eq!(width, 203);
        assert_eq!(slices[0].x, 2);
        for pair in slices.windows(2) {
            assert_eq!(pair[0].x + pair[0].width, pair[1].x);
        }
    }
    let height: u32 = (0..3).map(|row| u32::from(cells[row * 4].height)).sum();
    assert_eq!(height, 101);
    assert_eq!(cells[0].y, 1);
}

#[test]
fn cells_lie_within_the_area() {
    let grid = ResponsiveGrid::with_settings(7, 5);
    let area = Rect::new(10, 20, 33, 17);
    let cells = grid.split(area, 13);
    assert_eq!(cells.len(), 13);
    for cell in &cells {
        assert!(cell.x >= 10 && cell.x + cell.width <= 43);
        assert!(cell.y >= 20 && cell.y + cell.height <= 37);
    }
}

#[test]
fn an_even_split_gives_equal_cells() {
    let grid = ResponsiveGrid::new();
    let cells = grid.split(Rect::new(0, 0, 120, 40), 8);
    let expected = [
        Rect::new(0, 0, 30, 20),
        Rect::new(30, 0, 30, 20),
        Rect::new(60, 0, 30, 20),
        Rect::new(90, 0, 30, 20),
        Rect::new(0, 20, 30, 20),
        Rect::new(30, 20, 30, 20),
        Rect::new(60, 20, 30, 20),
        Rect::new(90, 20, 30, 20),
    ];
    assert_eq!(cells, expected);
}

#[test]
fn arrange_goes_row_by_row_and_stops_at_the_item_count() {
    let cell = |x: u16, y: u16| Rect::new(x, y, 1, 1);
    let rows = vec![
        vec![cell(0, 0), cell(1, 0), cell(2, 0)],
        vec![cell(0, 1), cell(1, 1), cell(2, 1)],
    ];
    assert_eq!(arrange(&rows, 3, 0), vec![]);
    assert_eq!(arrange(&rows, 3, 4), vec![cell(0, 0), cell(1, 0), cell(2, 0), cell(0, 1)]);
    assert_eq!(arrange(&rows, 3, 100).len(), 6);
    // Only the first `columns` cells of a row count.
    assert_eq!(arrange(&rows, 2, 3), vec![cell(0, 0), cell(1, 0), cell(0, 1)]);
    assert_eq!(arrange(&rows, 0, 3), vec![]);
    assert_eq!(arrange(&Vec::new(), 3, 3), vec![]);
}

#[test]
fn centering_shares_halve_the_rest() {
    assert_eq!(
        centering_shares(50),
        vec![Constraint::Percentage(25), Constraint::Percentage(50), Constraint::Percentage(25)]
    );
    assert_eq!(
        centering_shares(33),
        vec![Constraint::Percentage(33), Constraint::Percentage(33), Constraint::Percentage(33)]
    );
    assert_eq!(
        centering_shares(100),
        vec![Constraint::Percentage(0), Constraint::Percentage(100), Constraint::Percentage(0)]
    );
}

#[test]
fn centered_box_is_cut_down_to_the_container() {
    let container = Rect::new(5, 7, 10, 4);
    assert_eq!(centered_rect_with_size(20, 20, container), Rect::new(5, 7, 10, 4));
    assert_eq!(centered_rect_with_size(4, 20, container), Rect::new(8, 7, 4, 4));
    assert_eq!(centered_rect_with_size(3, 1, container), Rect::new(8, 8, 3, 1));
    assert_eq!(centered_rect_with_size(0, 0, container), Rect::new(10, 9, 0, 0));
}

#[test]
fn centered_percentage_box_lies_in_the_middle() {
    let inner = centered_rect(50, 50, Rect::new(0, 0, 100, 100));
    assert_eq!(inner, Rect::new(25, 25, 50, 50));
    let all = centered_rect(100, 100, Rect::new(4, 6, 20, 10));
    assert_eq!(all, Rect::new(4, 6, 20, 10));
}

#[test]
fn grids_use_up_areas_of_many_sizes() {
    let grid = ResponsiveGrid::new();
    for height in [0u16, 1, 2, 3, 7, 10, 31, 100] {
        for width in [0u16, 29, 95, 203] {
            for items in [1usize, 2, 3, 5, 8, 12] {
                let area = Rect::new(4, 9, width, height);
                let columns = usize::from(grid.calculate_columns(width));
                let rows = grid.row_count(width, items);
                let cells = grid.split(area, items);
                assert_eq!(cells.len(), items);
                let mut bottom = area.y;
                for row in 0..rows {
                    let slices = &cells[row * columns..items.min((row + 1) * columns)];
                    assert_eq!(slices[0].y, bottom);
                    bottom += slices[0].height;
                    let mut right = area.x;
                    for slice in slices {
                        assert_eq!(slice.x, right);
                        assert_eq!((slice.y, slice.height), (slices[0].y, slices[0].height));
                        right += slice.width;
                    }
                    if slices.len() == columns {
                        assert_eq!(right, area.x + width);
                    }
                }
                assert_eq!(bottom, area.y + height);
            }
        }
    }
}

#[test]
fn a_box_of_all_the_area_is_the_area() {
    for r in [Rect::new(0, 0, 100, 100), Rect::new(4, 6, 20, 10), Rect::new(9, 9, 0, 3), Rect::new(1, 1, 7, 1)] {
        assert_eq!(centered_rect(100, 100, r), r);
    }
    let r = Rect::new(3, 5, 40, 20);
    let wide = centered_rect(100, 50, r);
    assert_eq!((wide.x, wide.width), (3, 40));
    assert_eq!((wide.y, wide.height), (10, 10));
    let high = centered_rect(50, 100, r);
    assert_eq!((high.y, high.height), (5, 20));
    assert_eq!((high.x, high.width), (13, 20));
}

#[test]
fn the_middle_of_all_the_area_is_the_whole_piece() {
    let area = Rect::new(2, 3, 10, 4);
    let proposed = Rect::new(4, 3, 5, 4);
    assert_eq!(settle_middle(area, Direction::Horizontal, 100, proposed), area);
    assert_eq!(settle_middle(area, Direction::Vertical, 100, proposed), area);
    assert_eq!(settle_middle(area, Direction::Horizontal, 99, proposed), proposed);
    assert_eq!(settle_middle(area, Direction::Horizontal, 0, proposed), proposed);
    let beyond = Rect { x: 65_530, y: 0, width: 100, height: 2 };
    assert_eq!(
        settle_middle(beyond, Direction::Horizontal, 100, proposed),
        Rect { x: 65_530, y: 0, width: 5, height: 2 }
    );
}
