//! What a press on a table row does: select, activate on a double click, or
//! the secondary-click menu.
use vstd::prelude::*;

verus! {

/// What a press on a table body row does.
#[derive(Clone, Copy, Debug, PartialEq, Eq, Structural)]
pub enum RowPress {
    /// A plain select. The press is remembered, with its time, for
    /// double-click detection.
    Select,
    /// A second press on the same row within the double-click window:
    /// activate the row. The remembered press is forgotten.
    Activate,
    /// The secondary-click gesture (a right press, or Control held on a left
    /// press as on macOS): open the row's context menu. The remembered press
    /// is left as it was.
    SecondaryClick,
}

/// What a left press on `row` does, given whether Control is held, the row
/// of the remembered press (if any), and whether that press was within the
/// double-click window.
pub open spec fn table_press_spec(row: usize, control: bool, last: Option<usize>, recent: bool) -> RowPress {
    if control {
        RowPress::SecondaryClick
    } else if recent && last == Some(row) {
        RowPress::Activate
    } else {
        RowPress::Select
    }
}

/// Decide a left press on a table row (see [`table_press_spec`]).
pub fn table_press(row: usize, control: bool, last: Option<usize>, recent: bool) -> (r: RowPress)
    ensures
        r == table_press_spec(row, control, last, recent),
{
    if control {
        return RowPress::SecondaryClick;
    }
    let same = match last {
        Some(r) => r == row,
        None => false,
    };
    if recent && same {
        RowPress::Activate
    } else {
        RowPress::Select
    }
}

/// Control held on a left press is the secondary click, whatever was pressed
/// before: it never selects or activates.
pub proof fn law_control_press_is_secondary(row: usize, last: Option<usize>, recent: bool)
    ensures
        table_press_spec(row, true, last, recent) == RowPress::SecondaryClick,
{
}

/// A press with Control held is the secondary click; otherwise it activates
/// exactly when the remembered press was recent and on the very same row,
/// and selects in every other case.
pub proof fn law_table_press(row: usize, control: bool, last: Option<usize>, recent: bool)
    ensures
        table_press_spec(row, control, last, recent) is SecondaryClick <==> control,
        table_press_spec(row, control, last, recent) is Activate <==> (!control && recent
            && last is Some && last->0 == row),
        table_press_spec(row, control, last, recent) is Select <==> (!control && !(recent
            && last is Some && last->0 == row)),
{
}

} // verus!
