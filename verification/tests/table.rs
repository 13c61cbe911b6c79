use rime::table::{table_press, RowPress};

#[test]
fn control_press_opens_the_context_menu() {
    assert_eq!(table_press(4, true, Some(4), true), RowPress::SecondaryClick);
    assert_eq!(table_press(4, true, None, false), RowPress::SecondaryClick);
}

#[test]
fn double_press_on_a_row_activates_it() {
    assert_eq!(table_press(4, false, None, false), RowPress::Select);
    assert_eq!(table_press(4, false, Some(4), true), RowPress::Activate);
    assert_eq!(table_press(4, false, Some(4), false), RowPress::Select);
    assert_eq!(table_press(4, false, Some(3), true), RowPress::Select);
}
