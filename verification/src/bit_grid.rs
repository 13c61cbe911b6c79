//! The bit editor's model: named bit ranges ([`BitBand`]s) over a register's
//! bits, which band a bit belongs to, each band's `[hi:lo]` legend bounds, and
//! the tint a band is drawn in, and the order the cells are laid out in.
use vstd::prelude::*;
use crate::theme::Palette;

verus! {

/// A named contiguous range of bits — one field in the layout. `start` is
/// the low bit (0 = LSB); the range is `start ..= start + len - 1`. `color`
/// tints the field's cells; `None` takes a distinct default from the palette.
#[derive(Clone)]
pub struct BitBand {
    pub label: String,
    pub start: usize,
    pub len: usize,
    pub color: Option<iced::Color>,
}

impl BitBand {
    /// A band named `label` over `len` bits from bit `start`, with the
    /// default tint.
    pub fn new(label: &str, start: usize, len: usize) -> (r: Self)
        ensures
            r.label@ == label@,
            r.start == start,
            r.len == len,
            r.color is None,
    {
        BitBand { label: label.to_owned(), start, len, color: None }
    }

    /// Tint this band with `color`.
    pub fn color(self, color: iced::Color) -> (r: Self)
        ensures
            r.label == self.label,
            r.start == self.start,
            r.len == self.len,
            r.color == Some(color),
    {
        BitBand { label: self.label, start: self.start, len: self.len, color: Some(color) }
    }

    /// The inclusive high/low bit indices, for a `[hi:lo]` legend label. A
    /// zero-length band degrades to `[start:start]`.
    pub fn high_low(&self) -> (r: (usize, usize))
        requires
            self.start + self.len <= usize::MAX + 1,
        ensures
            r == (if self.len == 0 {
                self.start
            } else {
                (self.start + self.len - 1) as usize
            }, self.start),
    {
        let below = if self.len == 0 {
            0
        } else {
            self.len - 1
        };
        (self.start + below, self.start)
    }
}

/// Whether `bit` lies in `band`'s range.
pub open spec fn in_band(band: BitBand, bit: usize) -> bool {
    band.start <= bit < band.start + band.len
}

/// The index of the band containing `bit`, if any (the first match wins).
pub fn band_of(bands: &[BitBand], bit: usize) -> (r: Option<usize>)
    ensures
        match r {
            None => forall|i: int| 0 <= i < bands@.len() ==> !in_band(#[trigger] bands@[i], bit),
            Some(i) => i < bands@.len() && in_band(bands@[i as int], bit) && forall|j: int|
                0 <= j < i ==> !in_band(#[trigger] bands@[j], bit),
        },
{
    let mut i: usize = 0;
    while i < bands.len()
        invariant
            i <= bands@.len(),
            forall|j: int| 0 <= j < i ==> !in_band(#[trigger] bands@[j], bit),
        decreases bands@.len() - i,
    {
        let b = &bands[i];
        if bit >= b.start && bit - b.start < b.len {
            return Some(i);
        }
        i = i + 1;
    }
    None
}

/// The default tints, rotated through by band index.
pub open spec fn default_band_color(palette: Palette, index: int) -> iced::Color {
    let k = index % 4;
    if k == 0 {
        palette.accent
    } else if k == 1 {
        palette.success
    } else if k == 2 {
        palette.warn
    } else {
        palette.danger
    }
}

/// The tint for band `index`: its explicit color, else a distinct default
/// rotated through the palette's accent tokens.
pub fn band_color(bands: &[BitBand], index: usize, palette: &Palette) -> (r: iced::Color)
    requires
        index < bands@.len(),
    ensures
        r == match bands@[index as int].color {
            Some(c) => c,
            None => default_band_color(*palette, index as int),
        },
{
    if let Some(color) = bands[index].color {
        return color;
    }
    let k = index % 4;
    if k == 0 {
        palette.accent
    } else if k == 1 {
        palette.success
    } else if k == 2 {
        palette.warn
    } else {
        palette.danger
    }
}

/// The tint a set bit lights up in: its band's tint (the first band
/// containing it), else the palette's accent.
pub fn cell_tint(bands: &[BitBand], bit: usize, palette: &Palette) -> (r: iced::Color)
    ensures
        (forall|i: int| 0 <= i < bands@.len() ==> !in_band(#[trigger] bands@[i], bit)) ==> r
            == palette.accent,
        forall|i: int|
            0 <= i < bands@.len() && in_band(#[trigger] bands@[i], bit) && (forall|j: int|
                0 <= j < i ==> !in_band(#[trigger] bands@[j], bit)) ==> r == match bands@[i].color {
                Some(c) => c,
                None => default_band_color(*palette, i),
            },
{
    match band_of(bands, bit) {
        Some(i) => band_color(bands, i, palette),
        None => palette.accent,
    }
}

/// One slot of the bit row: a nibble gap, or the cell of a bit.
#[derive(Clone, Copy, Debug, PartialEq, Eq, Structural)]
pub enum BitSlot {
    /// The gap between two nibbles.
    Gap,
    /// The cell of this bit (0 = LSB).
    Bit(usize),
}

/// The first `n` display positions of a `width`-bit row, drawn high → low
/// like a register: position `d` shows bit `width - 1 - d`, preceded by a
/// gap when that bit starts a new nibble (other than at the very start).
pub open spec fn slots_upto(width: nat, n: nat) -> Seq<BitSlot>
    decreases n,
{
    if n == 0 {
        Seq::empty()
    } else {
        let d = (n - 1) as nat;
        let bit = (width - 1 - d) as usize;
        slots_upto(width, d) + (if d > 0 && bit % 4 == 3 {
            seq![BitSlot::Gap]
        } else {
            Seq::empty()
        }) + seq![BitSlot::Bit(bit)]
    }
}

/// The row of a `width`-bit register, in display order: most significant bit
/// first, with a gap between nibbles.
pub fn bit_slots(width: usize) -> (r: Vec<BitSlot>)
    ensures
        r@ == slots_upto(width as nat, width as nat),
{
    let mut out: Vec<BitSlot> = Vec::new();
    let mut display: usize = 0;
    while display < width
        invariant
            display <= width,
            out@ == slots_upto(width as nat, display as nat),
        decreases width - display,
    {
        let bit = width - 1 - display;
        let ghost before = out@;
        if display > 0 && bit % 4 == 3 {
            out.push(BitSlot::Gap);
        }
        out.push(BitSlot::Bit(bit));
        proof {
            let n = (display + 1) as nat;
            assert((n - 1) as nat == display as nat);
            if display > 0 && bit % 4 == 3 {
                assert(out@ =~= before + seq![BitSlot::Gap] + seq![BitSlot::Bit(bit)]);
            } else {
                assert(out@ =~= before + Seq::<BitSlot>::empty() + seq![BitSlot::Bit(bit)]);
            }
        }
        display = display + 1;
    }
    out
}

/// The bit cells of a row of slots, in order (the gaps left out).
pub open spec fn cells_of(s: Seq<BitSlot>) -> Seq<BitSlot> {
    s.filter(|x: BitSlot| x is Bit)
}

/// The cells of the first `n` display positions show bits `width - 1`,
/// `width - 2`, … in turn.
proof fn lemma_cells_upto(width: nat, n: nat)
    requires
        n <= width,
    ensures
        cells_of(slots_upto(width, n)) == Seq::new(n, |d: int| BitSlot::Bit((width - 1 - d) as usize)),
    decreases n,
{
    let pred = |x: BitSlot| x is Bit;
    if n == 0 {
        assert(cells_of(Seq::<BitSlot>::empty()) =~= Seq::<BitSlot>::empty());
    } else {
        let d = (n - 1) as nat;
        let bit = (width - 1 - d) as usize;
        lemma_cells_upto(width, d);
        let gap: Seq<BitSlot> = if d > 0 && bit % 4 == 3 {
            seq![BitSlot::Gap]
        } else {
            Seq::empty()
        };
        let head = slots_upto(width, d);
        assert(head + gap + seq![BitSlot::Bit(bit)] =~= head + (gap + seq![BitSlot::Bit(bit)]));
        Seq::filter_distributes_over_add(head, gap + seq![BitSlot::Bit(bit)], pred);
        Seq::filter_distributes_over_add(gap, seq![BitSlot::Bit(bit)], pred);
        reveal_with_fuel(Seq::<_>::filter, 2);
        assert(gap.filter(pred) =~= Seq::<BitSlot>::empty());
        assert(seq![BitSlot::Bit(bit)].filter(pred) =~= seq![BitSlot::Bit(bit)]);
        assert(cells_of(slots_upto(width, n)) =~= Seq::new(
            n,
            |i: int| BitSlot::Bit((width - 1 - i) as usize),
        ));
    }
}

/// A register is drawn high → low: the cells of a `width`-bit row show each
/// bit exactly once, the most significant first.
pub proof fn law_cells_run_high_to_low(width: usize)
    ensures
        cells_of(slots_upto(width as nat, width as nat)) == Seq::new(
            width as nat,
            |d: int| BitSlot::Bit((width - 1 - d) as usize),
        ),
{
    lemma_cells_upto(width as nat, width as nat);
}

/// A band of `len > 0` bits from `start` holds its low bit and its high bit
/// (the `[hi:lo]` bounds) and no bit just outside them.
pub proof fn law_band_bounds(b: BitBand)
    requires
        b.len > 0,
        b.start + b.len <= usize::MAX,
    ensures
        in_band(b, b.start),
        in_band(b, (b.start + b.len - 1) as usize),
        !in_band(b, (b.start + b.len) as usize),
        b.start > 0 ==> !in_band(b, (b.start - 1) as usize),
        forall|bit: usize| #[trigger] in_band(b, bit) ==> b.start <= bit <= b.start + b.len - 1,
{
}

} // verus!
