use netdash::layout::{axis_labels, axis_upper, format_rate_for_axis, interface_cells, split_cell, Rect};

const AREA: Rect = Rect { x: 0, y: 0, width: 100, height: 40 };

#[test]
fn one_interface_gets_the_full_area() {
    let cells = interface_cells(1, AREA);
    assert_eq!(cells.len(), 1);
    assert_eq!(cells[0], AREA);
}

#[test]
fn two_interfaces_stack_in_equal_halves() {
    let cells = interface_cells(2, AREA);
    assert_eq!(cells.len(), 2);
    assert_eq!(cells[0], Rect { x: 0, y: 0, width: 100, height: 20 });
    assert_eq!(cells[1], Rect { x: 0, y: 20, width: 100, height: 20 });
}

#[test]
fn three_interfaces_leave_the_last_cell_empty() {
    let cells = interface_cells(3, AREA);
    // Two rows; the bottom-right cell is unused and gets no rectangle.
    assert_eq!(cells.len(), 3);
    assert_eq!(cells[0], Rect { x: 0, y: 0, width: 50, height: 20 });
    assert_eq!(cells[1], Rect { x: 50, y: 0, width: 50, height: 20 });
    assert_eq!(cells[2], Rect { x: 0, y: 20, width: 50, height: 20 });
}

#[test]
fn four_interfaces_fill_a_two_by_two_grid() {
    let cells = interface_cells(4, AREA);
    assert_eq!(cells.len(), 4);
    assert_eq!(cells[0], Rect { x: 0, y: 0, width: 50, height: 20 });
    assert_eq!(cells[1], Rect { x: 50, y: 0, width: 50, height: 20 });
    assert_eq!(cells[2], Rect { x: 0, y: 20, width: 50, height: 20 });
    assert_eq!(cells[3], Rect { x: 50, y: 20, width: 50, height: 20 });
}

#[test]
fn no_interfaces_no_cells() {
    assert!(interface_cells(0, AREA).is_empty());
}

#[test]
fn odd_heights_distribute_without_gaps() {
    let area = Rect { x: 2, y: 3, width: 9, height: 7 };
    let cells = interface_cells(2, area);
    assert_eq!(cells[0].y, 3);
    assert_eq!(cells[0].height, 3);
    assert_eq!(cells[1].y, 6);
    assert_eq!(cells[1].height, 4);
    let grid = interface_cells(5, area);
    assert_eq!(grid.len(), 5);
    assert_eq!(grid[4], Rect { x: 2, y: 7, width: 4, height: 3 });
}

#[test]
fn cell_split_reserves_the_chart_strip() {
    let (info, strip) = split_cell(Rect { x: 0, y: 0, width: 50, height: 20 });
    assert_eq!(info, Rect { x: 0, y: 0, width: 50, height: 13 });
    assert_eq!(strip, Rect { x: 0, y: 13, width: 50, height: 7 });
    let (info2, strip2) = split_cell(Rect { x: 0, y: 0, width: 50, height: 5 });
    assert_eq!(info2.height, 0);
    assert_eq!(strip2.height, 5);
}

#[test]
fn axis_upper_adds_headroom_above_the_peak() {
    assert_eq!(axis_upper(1, 1), 2);
    assert_eq!(axis_upper(100, 50), 120);
    assert_eq!(axis_upper(3, 99), 119);
    assert!(axis_upper(7, 7) > 7);
    assert_eq!(axis_upper(u64::MAX, 1), u64::MAX);
}

#[test]
fn axis_unit_follows_binary_thresholds() {
    let (t, unit) = format_rate_for_axis(500);
    assert_eq!(t, 5000);
    assert_eq!(unit, "B/s");
    let (t, unit) = format_rate_for_axis(2048);
    assert_eq!(t, 20);
    assert_eq!(unit, "KB/s");
    let (t, unit) = format_rate_for_axis(3 * 1048576);
    assert_eq!(t, 30);
    assert_eq!(unit, "MB/s");
}

#[test]
fn axis_labels_scale_the_quarters() {
    let labels = axis_labels(2048);
    assert_eq!(labels.len(), 5);
    assert_eq!(labels[0], "0");
    assert_eq!(labels[1], "0.5");
    assert_eq!(labels[2], "1.0");
    assert_eq!(labels[3], "1.5");
    assert_eq!(labels[4], "2.0");
}

#[test]
fn axis_labels_in_plain_bytes() {
    let labels = axis_labels(120);
    assert_eq!(labels[1], "30.0");
    assert_eq!(labels[2], "60.0");
    assert_eq!(labels[3], "90.0");
    assert_eq!(labels[4], "120.0");
}
