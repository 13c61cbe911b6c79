//! The dropdown menu model shared by the menu bar and the context menu: top
//! level [`Menu`]s of [`Item`]s (actions with optional shortcut hints,
//! submenus that fly out to the right, separators), and where an expanded
//! submenu's flyout is anchored beside its parent row.
use vstd::prelude::*;

verus! {

/// The bar's height in logical pixels.
pub const BAR_HEIGHT: u64 = 34;

/// Top-level menus are laid out left-to-right at this fixed width.
pub const MENU_WIDTH: u64 = 56;

/// The fixed width of a dropdown panel (also where a flyout is anchored).
pub const PANEL_WIDTH: u64 = 200;

/// Height of an action or submenu row, for anchoring a flyout.
pub const ROW_H: u64 = 27;

/// Height of a separator row.
pub const SEP_H: u64 = 3;

/// Padding inside a dropdown panel.
pub const PANEL_PAD: u64 = 4;

/// One entry inside a menu's dropdown panel.
pub enum Item<M> {
    /// A clickable action: a `label`, an optional right-aligned `shortcut`
    /// hint, and the message it emits.
    Action { label: String, shortcut: Option<String>, on_select: M },
    /// A nested submenu that opens as a flyout to the right. `expanded`
    /// (host-owned) controls whether the flyout is shown; `on_hover` is emitted
    /// when the pointer enters the row.
    Submenu { label: String, items: Vec<Item<M>>, expanded: bool, on_hover: M },
    /// A horizontal divider between groups of actions.
    Separator,
}

impl<M> Item<M> {
    /// An action item with no shortcut hint.
    pub fn action(label: &str, on_select: M) -> (r: Self)
        ensures
            r matches Item::Action { label: l, shortcut: None, on_select: m } && l@ == label@ && m
                == on_select,
    {
        Item::Action { label: label.to_owned(), shortcut: None, on_select }
    }

    /// An action item with a muted shortcut hint on the right.
    pub fn shortcut(label: &str, shortcut: &str, on_select: M) -> (r: Self)
        ensures
            r matches Item::Action { label: l, shortcut: Some(s), on_select: m } && l@ == label@
                && s@ == shortcut@ && m == on_select,
    {
        Item::Action { label: label.to_owned(), shortcut: Some(shortcut.to_owned()), on_select }
    }

    /// A submenu that flies out to the right when `expanded`; `on_hover`
    /// expands it.
    pub fn submenu(label: &str, items: Vec<Item<M>>, expanded: bool, on_hover: M) -> (r: Self)
        ensures
            r matches Item::Submenu { label: l, items: i, expanded: e, on_hover: h } && l@ == label@
                && i == items && e == expanded && h == on_hover,
    {
        Item::Submenu { label: label.to_owned(), items, expanded, on_hover }
    }

    /// A divider between groups.
    pub fn separator() -> (r: Self)
        ensures
            r is Separator,
    {
        Item::Separator
    }

    /// The row's laid-out height (for anchoring a flyout).
    pub fn height(&self) -> (r: u64)
        ensures
            r == item_height(*self),
    {
        match self {
            Item::Separator => SEP_H,
            _ => ROW_H,
        }
    }
}

/// The laid-out height of an item's row.
pub open spec fn item_height<M>(item: Item<M>) -> u64 {
    if item is Separator {
        SEP_H
    } else {
        ROW_H
    }
}

/// Whether the item is a submenu the host has expanded.
pub open spec fn is_expanded<M>(item: Item<M>) -> bool {
    item matches Item::Submenu { expanded, .. } && expanded
}

/// The summed row heights of `items`.
pub open spec fn rows_height<M>(items: Seq<Item<M>>) -> nat
    decreases items.len(),
{
    if items.len() == 0 {
        0
    } else {
        rows_height(items.drop_last()) + item_height(items.last()) as nat
    }
}

/// One top-level menu: a `title` and the `items` in its dropdown.
pub struct Menu<M> {
    /// The bar title (e.g. "File").
    pub title: String,
    /// The dropdown's entries, top to bottom.
    pub items: Vec<Item<M>>,
}

impl<M> Menu<M> {
    /// A menu with the given title and items.
    pub fn new(title: &str, items: Vec<Item<M>>) -> (r: Self)
        ensures
            r.title@ == title@,
            r.items == items,
    {
        Menu { title: title.to_owned(), items }
    }
}

/// Every row is at most a full row high.
proof fn lemma_rows_height_bound<M>(items: Seq<Item<M>>)
    ensures
        rows_height(items) <= items.len() * ROW_H,
    decreases items.len(),
{
    if items.len() > 0 {
        lemma_rows_height_bound(items.drop_last());
    }
}

/// The first expanded submenu among `items` (only one flyout level shows),
/// as its index and the y-offset of its row from the top of the parent panel
/// (the panel padding plus the heights of the rows above it); `None` when no
/// submenu is expanded.
pub fn submenu_flyout<M>(items: &[Item<M>]) -> (r: Option<(usize, u128)>)
    ensures
        match r {
            None => forall|i: int| 0 <= i < items@.len() ==> !is_expanded(#[trigger] items@[i]),
            Some((i, y)) => {
                &&& i < items@.len()
                &&& is_expanded(items@[i as int])
                &&& forall|j: int| 0 <= j < i ==> !is_expanded(#[trigger] items@[j])
                &&& y == PANEL_PAD + rows_height(items@.take(i as int))
            },
        },
{
    let mut y: u128 = PANEL_PAD as u128;
    let mut i: usize = 0;
    while i < items.len()
        invariant
            i <= items@.len(),
            y == PANEL_PAD + rows_height(items@.take(i as int)),
            forall|j: int| 0 <= j < i ==> !is_expanded(#[trigger] items@[j]),
        decreases items@.len() - i,
    {
        if let Item::Submenu { expanded: true, .. } = &items[i] {
            return Some((i, y));
        }
        proof {
            assert(items@.take(i + 1).drop_last() =~= items@.take(i as int));
            lemma_rows_height_bound(items@.take(i as int));
            assert(i * ROW_H <= 0xffff_ffff_ffff_ffff * 27) by (nonlinear_arith)
                requires
                    i <= 0xffff_ffff_ffff_ffff,
            ;
        }
        y = y + items[i].height() as u128;
        i = i + 1;
    }
    None
}

/// The menu a press on the title of menu `index` leaves open, given the
/// open menu: the open menu's title closes it; any other title opens that
/// menu (switching from the open one).
pub open spec fn title_target(open: Option<usize>, index: usize) -> Option<usize> {
    if open == Some(index) {
        None
    } else {
        Some(index)
    }
}

/// What a press on the title of menu `index` asks for (see
/// [`title_target`]).
pub fn title_press(open: Option<usize>, index: usize) -> (r: Option<usize>)
    ensures
        r == title_target(open, index),
{
    match open {
        Some(o) => if o == index {
            None
        } else {
            Some(index)
        },
        None => Some(index),
    }
}

/// A title toggles its menu: a press on the title of a menu that is not open
/// opens it, and the next press on the same title closes it.
pub proof fn law_title_press_toggles(open: Option<usize>, index: usize)
    ensures
        title_target(open, index) == Some(index) ==> title_target(title_target(open, index), index)
            == None::<usize>,
        title_target(None, index) == Some(index),
        title_target(Some(index), index) == None::<usize>,
{
}

/// The rows above a flyout take 27 pixels each, except separators, which
/// take 3: the heights add up to 27 per row less 24 per separator. Only an
/// expanded submenu flies out.
pub proof fn law_row_heights<M>(items: Seq<Item<M>>, item: Item<M>)
    ensures
        rows_height(items) + 24 * items.filter(|x: Item<M>| x is Separator).len() == 27
            * items.len(),
        is_expanded(item) <==> (item is Submenu && item->Submenu_expanded),
    decreases items.len(),
{
    reveal_with_fuel(Seq::<_>::filter, 1);
    if items.len() > 0 {
        law_row_heights(items.drop_last(), item);
    }
}

} // verus!
