use rime::grid::{column_name, grid_press, CellAlign, CellPress, GridCell, Selection};

#[test]
fn column_names_are_bijective_base_26() {
    assert_eq!(column_name(0), "A");
    assert_eq!(column_name(25), "Z");
    assert_eq!(column_name(26), "AA");
    assert_eq!(column_name(27), "AB");
    assert_eq!(column_name(51), "AZ");
    assert_eq!(column_name(701), "ZZ");
    assert_eq!(column_name(702), "AAA");
}

#[test]
fn selection_bounds_normalize_any_corner_order() {
    // extent above-left of anchor still yields min/max in order.
    let selection = Selection {
        anchor: (5, 7),
        extent: (2, 3),
    };
    assert_eq!(selection.bounds(), (2, 5, 3, 7));

    let single = Selection::cell(4, 9);
    assert_eq!(single.bounds(), (4, 4, 9, 9));
}

#[test]
fn column_name_of_the_largest_index_is_all_letters() {
    let name = column_name(usize::MAX);
    assert!(!name.is_empty());
    assert!(name.chars().all(|c| c.is_ascii_uppercase()));
    // Successive indices never share a name around a digit rollover.
    assert_ne!(column_name(675), column_name(676));
    assert_eq!(column_name(675), "YZ");
    assert_eq!(column_name(676), "ZA");
    assert_eq!(column_name(18277), "ZZZ");
    assert_eq!(column_name(18278), "AAAA");
}

#[test]
fn grid_cells_build_with_alignment_and_colors() {
    let cell = GridCell::right("42");
    assert_eq!(cell.text, "42");
    assert_eq!(cell.align, CellAlign::Right);
    let cell = GridCell::new("Total").align(CellAlign::Center);
    assert_eq!(cell.align, CellAlign::Center);
    assert!(cell.text_color.is_none() && cell.background.is_none());
    let red = iced::Color::from_rgb8(255, 0, 0);
    let cell = cell.text_color(red).background(red);
    assert_eq!(cell.text_color, Some(red));
    assert_eq!(cell.background, Some(red));
    assert_eq!(GridCell::default().align, CellAlign::Left);
}

#[test]
fn a_second_press_on_the_same_cell_in_time_activates() {
    assert_eq!(grid_press(10, 5, 2, 3, None, false), Some(CellPress::Select));
    assert_eq!(grid_press(10, 5, 2, 3, Some((2, 3)), true), Some(CellPress::Activate));
    assert_eq!(grid_press(10, 5, 2, 3, Some((2, 3)), false), Some(CellPress::Select));
    assert_eq!(grid_press(10, 5, 2, 3, Some((3, 2)), true), Some(CellPress::Select));
    assert_eq!(grid_press(10, 5, 10, 0, None, false), None);
    assert_eq!(grid_press(10, 5, 0, 5, Some((0, 5)), true), None);
}
