use nerdcli::layout::calculate_image_layout;
use nerdcli::layout::ImageAspect;
use nerdcli::layout::Layout;
use nerdcli::layout::LayoutMode;
use nerdcli::layout::SizeConstraints;
use nerdcli::layout::TerminalSize;

fn terminal(columns: u16, rows: u16) -> TerminalSize {
    TerminalSize { columns, rows }
}

fn constraints(w: u16, h: u16, left: u16, top: i16) -> SizeConstraints {
    SizeConstraints {
        max_width_percent: w,
        max_height_percent: h,
        margin_left: left,
        margin_top: top,
    }
}

#[test]
fn row_mode_golden_values() {
    // terminal 200x50, caps 60%/80%, margins (2, 1), aspect ratio 0.5,
    // five quote lines: the shrink runs five times (width 120 -> 115),
    // height is recomputed as 115 * 0.5 - 1 = 56.5, and the quote anchors
    // at (115 + 2 + 5, (56.5 / 2 - 5) / 2 + 1) = (122, 12.625 -> 12).
    let layout = calculate_image_layout(
        terminal(200, 50),
        ImageAspect { pixel_width: 1000, pixel_height: 500 },
        constraints(60, 80, 2, 1),
        LayoutMode::Row,
        true,
        5,
    );
    assert_eq!(
        layout,
        Layout { image_width: 115, image_x: 2, image_y: 1, quote_x: 122, quote_y: 12 }
    );
}

#[test]
fn row_centered_recomputes_x() {
    let layout = calculate_image_layout(
        terminal(200, 50),
        ImageAspect { pixel_width: 1000, pixel_height: 500 },
        constraints(60, 80, 2, 1),
        LayoutMode::RowCentered,
        true,
        5,
    );
    // x = (200 - 115 - 50 - 5) / 2 = 15; quote x = 115 + 15 + 5 = 135.
    assert_eq!(
        layout,
        Layout { image_width: 115, image_x: 15, image_y: 1, quote_x: 135, quote_y: 12 }
    );
}

#[test]
fn col_mode_golden_values() {
    // Drawable height (50 - 16 - 1) * 2 = 66 units; boundary height 52.8;
    // width 52.8 / 0.5 = 105.6 already fits, so no shrink: width 105,
    // quote x = 200/2 - 25 = 75, quote y = 52.8/2 + 1 + 5 = 32.4 -> 32.
    let layout = calculate_image_layout(
        terminal(200, 50),
        ImageAspect { pixel_width: 1000, pixel_height: 500 },
        constraints(60, 80, 2, 1),
        LayoutMode::Col,
        true,
        5,
    );
    assert_eq!(
        layout,
        Layout { image_width: 105, image_x: 2, image_y: 1, quote_x: 75, quote_y: 32 }
    );
}

#[test]
fn col_centered_recomputes_x() {
    let layout = calculate_image_layout(
        terminal(200, 50),
        ImageAspect { pixel_width: 1000, pixel_height: 500 },
        constraints(60, 80, 2, 1),
        LayoutMode::ColCentered,
        true,
        5,
    );
    // x = (200 - 105.6) / 2 = 47.2 -> 47.
    assert_eq!(
        layout,
        Layout { image_width: 105, image_x: 47, image_y: 1, quote_x: 75, quote_y: 32 }
    );
}

#[test]
fn quotes_disabled_yields_zero_placement() {
    let zero = Layout { image_width: 0, image_x: 0, image_y: 0, quote_x: 0, quote_y: 0 };
    let modes = [LayoutMode::Row, LayoutMode::RowCentered, LayoutMode::Col, LayoutMode::ColCentered];
    for mode in modes {
        let layout = calculate_image_layout(
            terminal(200, 50),
            ImageAspect { pixel_width: 1000, pixel_height: 500 },
            constraints(60, 80, 2, 1),
            mode,
            false,
            5,
        );
        assert_eq!(layout, zero);
        let degenerate = calculate_image_layout(
            terminal(1, 1),
            ImageAspect { pixel_width: 0, pixel_height: 0 },
            constraints(100, 100, 65535, -32768),
            mode,
            false,
            65535,
        );
        assert_eq!(degenerate, zero);
    }
}

#[test]
fn fractional_coordinates_truncate_toward_zero() {
    // Quote y lands on 7.9 exactly: (15060 + 300 - 200 * 61) / 400 = 7.9,
    // and the width boundary is 150.6 cells.  Both must truncate, not round.
    let layout = calculate_image_layout(
        terminal(251, 100),
        ImageAspect { pixel_width: 100, pixel_height: 100 },
        constraints(60, 100, 0, 1),
        LayoutMode::Row,
        true,
        61,
    );
    assert_eq!(layout.quote_y, 7);
    assert_eq!(layout.image_width, 150);
    assert_eq!(layout.quote_x, 155);
}

#[test]
fn tiny_terminal_converges_to_zero_width() {
    // terminal 20x10 with 1% caps and a tall image: the shrink drives the
    // width numerator negative and every coordinate clamps at zero.
    let layout = calculate_image_layout(
        terminal(20, 10),
        ImageAspect { pixel_width: 1, pixel_height: 5 },
        constraints(1, 1, 0, 0),
        LayoutMode::Row,
        true,
        0,
    );
    assert_eq!(
        layout,
        Layout { image_width: 0, image_x: 0, image_y: 0, quote_x: 0, quote_y: 0 }
    );
}

#[test]
fn unknown_image_dimensions_are_defined() {
    // A zero-dimension image keeps height zero in row mode.
    let layout = calculate_image_layout(
        terminal(200, 50),
        ImageAspect { pixel_width: 0, pixel_height: 0 },
        constraints(60, 80, 2, 1),
        LayoutMode::Row,
        true,
        5,
    );
    assert_eq!(
        layout,
        Layout { image_width: 120, image_x: 2, image_y: 1, quote_x: 127, quote_y: 0 }
    );
    // In column mode it yields a zero-width placement.
    let col = calculate_image_layout(
        terminal(200, 50),
        ImageAspect { pixel_width: 0, pixel_height: 0 },
        constraints(60, 80, 2, 1),
        LayoutMode::Col,
        true,
        5,
    );
    assert_eq!(col, Layout { image_width: 0, image_x: 2, image_y: 1, quote_x: 75, quote_y: 32 });
}

#[test]
fn solver_terminates_over_input_grid() {
    // Termination and well-defined output over a grid of allowed inputs:
    // terminal at least 20x10, percentages 1..=100, ratios up to 5.
    for cols in [20u16, 80, 200] {
        for rows in [10u16, 24, 60] {
            for pct in [1u16, 50, 100] {
                for (w, h) in [(100u32, 10u32), (100, 100), (100, 500)] {
                    for mode in [LayoutMode::Row, LayoutMode::Col] {
                        let layout = calculate_image_layout(
                            terminal(cols, rows),
                            ImageAspect { pixel_width: w, pixel_height: h },
                            constraints(pct, pct, 1, 1),
                            mode,
                            true,
                            3,
                        );
                        assert!(layout.image_width <= u32::MAX);
                    }
                }
            }
        }
    }
}
