//! The spreadsheet grid's cell model: text alignment, the rectangular
//! selection and its normalized bounds, and the bijective base-26 column
//! names shown in the frozen header strip (A, B, …, Z, AA, AB, …), and what a
//! left press on a cell does.
use vstd::prelude::*;
use crate::text::{ascii_chars, ascii_string};

verus! {

/// Horizontal alignment of a cell's text.
#[derive(Clone, Copy, Debug, PartialEq, Eq, Structural)]
pub enum CellAlign {
    Left,
    Center,
    Right,
}

impl Default for CellAlign {
    /// Left-aligned.
    fn default() -> (r: Self)
        ensures
            r == CellAlign::Left,
    {
        CellAlign::Left
    }
}

/// A rectangular selection, in `(row, column)` cell coordinates. `anchor` is
/// where the selection started; `extent` is the opposite corner (equal to
/// `anchor` for a single cell). Corners normalize, so the two may be in any
/// order.
#[derive(Clone, Copy, Debug, PartialEq, Eq)]
pub struct Selection {
    pub anchor: (usize, usize),
    pub extent: (usize, usize),
}

/// The smaller of two indices.
pub open spec fn min_index(a: usize, b: usize) -> usize {
    if a <= b {
        a
    } else {
        b
    }
}

/// The larger of two indices.
pub open spec fn max_index(a: usize, b: usize) -> usize {
    if a <= b {
        b
    } else {
        a
    }
}

impl Selection {
    /// The one-cell selection at `(row, col)`.
    pub fn cell(row: usize, col: usize) -> (r: Self)
        ensures
            r.anchor == (row, col),
            r.extent == (row, col),
    {
        Selection { anchor: (row, col), extent: (row, col) }
    }

    /// The inclusive `(row_min, row_max, col_min, col_max)` span (corners
    /// normalize, so it's valid for any anchor/extent order).
    pub fn bounds(&self) -> (r: (usize, usize, usize, usize))
        ensures
            r == (
                min_index(self.anchor.0, self.extent.0),
                max_index(self.anchor.0, self.extent.0),
                min_index(self.anchor.1, self.extent.1),
                max_index(self.anchor.1, self.extent.1),
            ),
    {
        let (r0, r1) = if self.anchor.0 <= self.extent.0 {
            (self.anchor.0, self.extent.0)
        } else {
            (self.extent.0, self.anchor.0)
        };
        let (c0, c1) = if self.anchor.1 <= self.extent.1 {
            (self.anchor.1, self.extent.1)
        } else {
            (self.extent.1, self.anchor.1)
        };
        (r0, r1, c0, c1)
    }
}

/// The letter for base-26 digit `d` (0 → 'A', 25 → 'Z').
pub open spec fn column_letter(d: int) -> char {
    (65 + d) as char
}

/// The name of column `index`: bijective base 26, so 0 → A, 25 → Z, 26 → AA,
/// 701 → ZZ, 702 → AAA.
pub open spec fn column_name_spec(index: nat) -> Seq<char>
    decreases index,
{
    if index < 26 {
        seq![column_letter(index as int)]
    } else {
        column_name_spec((index / 26 - 1) as nat).push(column_letter((index % 26) as int))
    }
}

/// The column a name stands for: the inverse of [`column_name_spec`].
pub open spec fn column_index(name: Seq<char>) -> int
    decreases name.len(),
{
    if name.len() <= 1 {
        name[0] as int - 65
    } else {
        (column_index(name.drop_last()) + 1) * 26 + (name.last() as int - 65)
    }
}

/// A name made of one or more letters `A`..=`Z`.
pub open spec fn is_column_name(name: Seq<char>) -> bool {
    &&& name.len() >= 1
    &&& forall|i: int| 0 <= i < name.len() ==> 'A' <= #[trigger] name[i] <= 'Z'
}

proof fn lemma_div_mod_26(i: int)
    requires
        i >= 0,
    ensures
        (i / 26) * 26 + i % 26 == i,
        0 <= i % 26 < 26,
{
    vstd::arithmetic::div_mod::lemma_fundamental_div_mod(i, 26);
}

proof fn lemma_div_mod_26_converse(q: int, r: int)
    requires
        q >= 0,
        0 <= r < 26,
    ensures
        (q * 26 + r) / 26 == q,
        (q * 26 + r) % 26 == r,
{
    vstd::arithmetic::div_mod::lemma_fundamental_div_mod_converse(q * 26 + r, 26, q, r);
}

/// Column names are letters.
pub proof fn lemma_column_name_letters(index: nat)
    ensures
        is_column_name(column_name_spec(index)),
    decreases index,
{
    if index >= 26 {
        lemma_column_name_letters((index / 26 - 1) as nat);
        lemma_div_mod_26(index as int);
    }
}

/// Reading a column's name back gives the column: names are one-to-one.
pub proof fn law_column_name_round_trip(index: nat)
    ensures
        column_index(column_name_spec(index)) == index,
    decreases index,
{
    if index >= 26 {
        let q = (index / 26 - 1) as nat;
        law_column_name_round_trip(q);
        lemma_div_mod_26(index as int);
        lemma_column_name_letters(q);
        let name = column_name_spec(index);
        assert(name.drop_last() =~= column_name_spec(q));
    }
}

/// Every name of one or more capital letters names exactly one column:
/// together with [`law_column_name_round_trip`], the naming is a bijection
/// between column indices and such names.
pub proof fn law_column_name_onto(name: Seq<char>)
    requires
        is_column_name(name),
    ensures
        column_index(name) >= 0,
        column_name_spec(column_index(name) as nat) == name,
    decreases name.len(),
{
    if name.len() == 1 {
        assert(seq![column_letter(column_index(name))] =~= name);
    } else {
        let prefix = name.drop_last();
        assert(is_column_name(prefix)) by {
            assert forall|i: int| 0 <= i < prefix.len() implies 'A' <= #[trigger] prefix[i]
                <= 'Z' by {
                assert(prefix[i] == name[i]);
            }
        }
        law_column_name_onto(prefix);
        let q = column_index(prefix);
        let d = name.last() as int - 65;
        assert('A' <= name[name.len() - 1] <= 'Z');
        lemma_div_mod_26_converse(q + 1, d);
        let index = column_index(name);
        assert(index >= 26);
        assert(index / 26 - 1 == q);
        assert(column_name_spec(index as nat) =~= name);
    }
}

/// The ASCII code of base-26 digit `d`'s letter.
fn letter_byte(d: usize) -> (b: u8)
    requires
        d < 26,
    ensures
        b == 65 + d,
{
    65u8 + (d as u8)
}

/// The characters `digits` spell when read from the last byte to the first.
pub open spec fn reversed_chars(digits: Seq<u8>) -> Seq<char> {
    Seq::new(digits.len(), |j: int| digits[digits.len() - 1 - j] as char)
}

/// The name shown over column `index` in the header strip: bijective base 26
/// (0 → A, 25 → Z, 26 → AA, …).
pub fn column_name(index: usize) -> (r: String)
    ensures
        r@ == column_name_spec(index as nat),
{
    let mut n = index;
    let mut digits: Vec<u8> = Vec::new();
    proof {
        lemma_div_mod_26(n as int);
    }
    digits.push(letter_byte(n % 26));
    proof {
        assert(column_name_spec(n as nat) =~= (if n < 26 {
            Seq::<char>::empty()
        } else {
            column_name_spec((n / 26 - 1) as nat)
        }) + reversed_chars(digits@));
    }
    while n >= 26
        invariant
            n >= 26 ==> column_name_spec(index as nat) == column_name_spec((n / 26 - 1) as nat)
                + reversed_chars(digits@),
            n < 26 ==> column_name_spec(index as nat) == reversed_chars(digits@),
            digits@.len() >= 1,
            forall|j: int| 0 <= j < digits@.len() ==> #[trigger] digits@[j] < 0x80,
            n <= index,
        decreases n,
    {
        n = n / 26 - 1;
        proof {
            lemma_div_mod_26(n as int);
        }
        let ghost before = digits@;
        digits.push(letter_byte(n % 26));
        proof {
            assert(reversed_chars(digits@) =~= seq![column_letter((n % 26) as int)]
                + reversed_chars(before));
            if n >= 26 {
                assert(column_name_spec(n as nat) =~= column_name_spec((n / 26 - 1) as nat).push(
                    column_letter((n % 26) as int),
                ));
                assert(column_name_spec((n / 26 - 1) as nat) + reversed_chars(digits@)
                    =~= column_name_spec(n as nat) + reversed_chars(before));
            } else {
                assert(seq![column_letter(n as int)] + reversed_chars(before) =~= reversed_chars(
                    digits@,
                ));
            }
        }
    }
    let count = digits.len();
    let mut bytes: Vec<u8> = Vec::new();
    let mut k = count;
    while k > 0
        invariant
            k <= count,
            count == digits@.len(),
            bytes@.len() == count - k,
            forall|j: int| 0 <= j < bytes@.len() ==> #[trigger] bytes@[j] == digits@[count - 1 - j],
            forall|j: int| 0 <= j < digits@.len() ==> #[trigger] digits@[j] < 0x80,
        decreases k,
    {
        k = k - 1;
        bytes.push(digits[k]);
    }
    proof {
        assert(ascii_chars(bytes@) =~= reversed_chars(digits@));
    }
    ascii_string(bytes)
}


/// What one cell shows: its text, alignment, and optional per-cell colors
/// (`None` uses the palette's `ink` for text and `bg` for the fill).
#[derive(Clone)]
pub struct GridCell {
    pub text: String,
    pub align: CellAlign,
    pub text_color: Option<iced::Color>,
    pub background: Option<iced::Color>,
}

impl Default for GridCell {
    /// An empty, left-aligned cell with palette colors.
    fn default() -> (r: Self)
        ensures
            r.text@ == Seq::<char>::empty(),
            r.align == CellAlign::Left,
            r.text_color is None,
            r.background is None,
    {
        GridCell { text: String::new(), align: CellAlign::Left, text_color: None, background: None }
    }
}

impl GridCell {
    /// A left-aligned cell showing `text`.
    pub fn new(text: &str) -> (r: Self)
        ensures
            r.text@ == text@,
            r.align == CellAlign::Left,
            r.text_color is None,
            r.background is None,
    {
        GridCell { text: text.to_owned(), align: CellAlign::Left, text_color: None, background: None }
    }

    /// A right-aligned cell — the natural default for numbers.
    pub fn right(text: &str) -> (r: Self)
        ensures
            r.text@ == text@,
            r.align == CellAlign::Right,
            r.text_color is None,
            r.background is None,
    {
        GridCell { text: text.to_owned(), align: CellAlign::Right, text_color: None, background: None }
    }

    /// This cell with alignment `align`.
    pub fn align(self, align: CellAlign) -> (r: Self)
        ensures
            r.text == self.text,
            r.align == align,
            r.text_color == self.text_color,
            r.background == self.background,
    {
        GridCell { align, ..self }
    }

    /// This cell with text color `color`.
    pub fn text_color(self, color: iced::Color) -> (r: Self)
        ensures
            r.text == self.text,
            r.align == self.align,
            r.text_color == Some(color),
            r.background == self.background,
    {
        GridCell { text_color: Some(color), ..self }
    }

    /// This cell with fill `color`.
    pub fn background(self, color: iced::Color) -> (r: Self)
        ensures
            r.text == self.text,
            r.align == self.align,
            r.text_color == self.text_color,
            r.background == Some(color),
    {
        GridCell { background: Some(color), ..self }
    }
}

/// What a left press on a grid cell does.
#[derive(Clone, Copy, Debug, PartialEq, Eq, Structural)]
pub enum CellPress {
    /// A plain select (the host extends the selection when Shift is held).
    /// The press is remembered, with its time, for double-click detection.
    Select,
    /// A second press on the same cell within the double-click window:
    /// activate the cell (inline edit). The remembered press is forgotten, so
    /// a further press selects again.
    Activate,
}

/// What a left press on cell (`row`, `col`) of a `rows` × `cols` grid does,
/// given the cell of the remembered press (if any) and whether that press was
/// within the double-click window: nothing outside the grid, activation on a
/// second press of the same cell in time, a select otherwise.
pub open spec fn grid_press_spec(
    rows: usize,
    cols: usize,
    row: usize,
    col: usize,
    last: Option<(usize, usize)>,
    recent: bool,
) -> Option<CellPress> {
    if row >= rows || col >= cols {
        None
    } else if recent && last == Some((row, col)) {
        Some(CellPress::Activate)
    } else {
        Some(CellPress::Select)
    }
}

/// Decide a left press on a grid cell (see [`grid_press_spec`]).
pub fn grid_press(
    rows: usize,
    cols: usize,
    row: usize,
    col: usize,
    last: Option<(usize, usize)>,
    recent: bool,
) -> (r: Option<CellPress>)
    ensures
        r == grid_press_spec(rows, cols, row, col, last, recent),
{
    if row >= rows || col >= cols {
        return None;
    }
    let same = match last {
        Some((r, c)) => r == row && c == col,
        None => false,
    };
    if recent && same {
        Some(CellPress::Activate)
    } else {
        Some(CellPress::Select)
    }
}

/// A double click is two presses: the first on a cell selects it, and a
/// second on the same cell within the window activates it; a press right
/// after an activation (nothing remembered) selects again.
pub proof fn law_double_click_activates(rows: usize, cols: usize, row: usize, col: usize, recent: bool)
    requires
        row < rows,
        col < cols,
    ensures
        grid_press_spec(rows, cols, row, col, None, recent) == Some(CellPress::Select),
        grid_press_spec(rows, cols, row, col, Some((row, col)), true) == Some(
            CellPress::Activate,
        ),
{
}

/// A press inside the grid always does something, and it activates exactly
/// when the remembered press was recent and on the very same cell (a recent
/// press on a neighbouring cell selects); a press outside the grid does
/// nothing.
pub proof fn law_grid_press(
    rows: usize,
    cols: usize,
    row: usize,
    col: usize,
    last: Option<(usize, usize)>,
    recent: bool,
)
    ensures
        (row >= rows || col >= cols) ==> grid_press_spec(rows, cols, row, col, last, recent) is None,
        (row < rows && col < cols) ==> grid_press_spec(rows, cols, row, col, last, recent) is Some,
        grid_press_spec(rows, cols, row, col, last, recent) == Some(CellPress::Activate) <==> (row
            < rows && col < cols && recent && last is Some && (last->0).0 == row && (last->0).1
            == col),
{
}

} // verus!
