//! The visual language's data: the built-in dark/light [`ThemeChoice`] and how
//! it is persisted as text, the nine semantic [`Palette`] tokens read and
//! written by name, and `#rrggbb` / `#rrggbbaa` hex colors.
use vstd::prelude::*;
use vstd::utf8::*;
use crate::text::{ascii_chars, ascii_string};

verus! {

/// The built-in dark/light choice.
#[derive(Clone, Copy, Debug, PartialEq, Eq, Structural)]
pub enum ThemeChoice {
    /// Dracula (dark) — the default.
    Dark,
    /// GitHub (light).
    Light,
}

impl Default for ThemeChoice {
    /// Dark.
    fn default() -> (r: Self)
        ensures
            r == ThemeChoice::Dark,
    {
        ThemeChoice::Dark
    }
}

impl ThemeChoice {
    /// The other choice — handy for a toggle.
    pub fn toggled(self) -> (r: Self)
        ensures
            r == match self {
                ThemeChoice::Dark => ThemeChoice::Light,
                ThemeChoice::Light => ThemeChoice::Dark,
            },
    {
        match self {
            ThemeChoice::Dark => ThemeChoice::Light,
            ThemeChoice::Light => ThemeChoice::Dark,
        }
    }

    /// The text a choice is persisted as: `dark` or `light`.
    pub fn saved_text(self) -> (r: &'static str)
        ensures
            r@ == match self {
                ThemeChoice::Dark => "dark"@,
                ThemeChoice::Light => "light"@,
            },
    {
        match self {
            ThemeChoice::Dark => "dark",
            ThemeChoice::Light => "light",
        }
    }

    /// Read a persisted choice: `light` (ignoring surrounding whitespace)
    /// reads as [`ThemeChoice::Light`]; anything else — including the empty
    /// text of a missing file — reads as [`ThemeChoice::Dark`].
    pub fn from_saved(text: &str) -> (r: Self)
        ensures
            r == choice_from_text(text@),
    {
        let chars = collect_chars(text);
        let n = chars.len();
        let mut start: usize = 0;
        proof {
            assert(chars@.skip(0) =~= chars@);
        }
        while start < n && is_whitespace_char(chars[start])
            invariant
                start <= n,
                n == chars@.len(),
                trim_start(chars@) == trim_start(chars@.skip(start as int)),
            decreases n - start,
        {
            proof {
                assert(chars@.skip(start as int).drop_first() =~= chars@.skip(start + 1));
            }
            start = start + 1;
        }
        proof {
            assert(trim_start(chars@) == chars@.skip(start as int)) by {
                if start < n {
                    assert(chars@.skip(start as int)[0] == chars@[start as int]);
                } else {
                    assert(chars@.skip(start as int) =~= Seq::<char>::empty());
                }
            }
        }
        let mut end: usize = n;
        while end > start && is_whitespace_char(chars[end - 1])
            invariant
                start <= end <= n,
                n == chars@.len(),
                trim_end(chars@.skip(start as int)) == trim_end(chars@.subrange(
                    start as int,
                    end as int,
                )),
            decreases end,
        {
            proof {
                assert(chars@.subrange(start as int, end as int).drop_last() =~= chars@.subrange(
                    start as int,
                    end - 1,
                ));
            }
            end = end - 1;
        }
        proof {
            assert(chars@.subrange(start as int, n as int) =~= chars@.skip(start as int));
            let mid = chars@.subrange(start as int, end as int);
            assert(trim_end(mid) == mid) by {
                if end > start {
                    assert(mid.last() == chars@[end - 1]);
                } else {
                    assert(mid =~= Seq::<char>::empty());
                }
            }
        }
        let light = end - start == 5 && chars[start] == 'l' && chars[start + 1] == 'i'
            && chars[start + 2] == 'g' && chars[start + 3] == 'h' && chars[start + 4] == 't';
        proof {
            let mid = chars@.subrange(start as int, end as int);
            if light {
                assert(mid =~= light_word());
            } else if mid == light_word() {
                assert(mid[0] == 'l' && mid[1] == 'i' && mid[2] == 'g' && mid[3] == 'h' && mid[4]
                    == 't');
            }
        }
        if light {
            ThemeChoice::Light
        } else {
            ThemeChoice::Dark
        }
    }
}

/// The characters of `text`, in order.
pub fn collect_chars(text: &str) -> (r: Vec<char>)
    ensures
        r@ == text@,
{
    broadcast use vstd::string::group_string_axioms;

    let mut chars: Vec<char> = Vec::new();
    let mut it = text.chars();
    loop
        invariant_except_break
            chars@.len() <= text@.len(),
            vstd::std_specs::iter::IteratorSpec::remaining(&it) == text@.skip(chars@.len() as int),
            chars@ == text@.take(chars@.len() as int),
        ensures
            chars@ == text@,
        decreases text@.len() - chars@.len(),
    {
        match it.next() {
            None => {
                proof {
                    assert(text@.take(chars@.len() as int) =~= text@);
                }
                break;
            },
            Some(c) => {
                proof {
                    let k = chars@.len() as int;
                    assert(text@.skip(k)[0] == text@[k]);
                    assert(text@.skip(k).drop_first() =~= text@.skip(k + 1));
                    assert(text@.take(k + 1) =~= text@.take(k).push(c));
                }
                chars.push(c);
            },
        }
    }
    chars
}

/// Whether `c` has the Unicode `White_Space` property (what `char::is_whitespace`
/// and so `str::trim` go by).
pub open spec fn is_whitespace(c: char) -> bool {
    let u = c as u32;
    ||| 0x09 <= u <= 0x0D
    ||| u == 0x20
    ||| u == 0x85
    ||| u == 0xA0
    ||| u == 0x1680
    ||| 0x2000 <= u <= 0x200A
    ||| u == 0x2028
    ||| u == 0x2029
    ||| u == 0x202F
    ||| u == 0x205F
    ||| u == 0x3000
}

/// Exec form of [`is_whitespace`].
pub fn is_whitespace_char(c: char) -> (r: bool)
    ensures
        r == is_whitespace(c),
{
    let u = c as u32;
    (0x09 <= u && u <= 0x0D) || u == 0x20 || u == 0x85 || u == 0xA0 || u == 0x1680 || (0x2000
        <= u && u <= 0x200A) || u == 0x2028 || u == 0x2029 || u == 0x202F || u == 0x205F || u
        == 0x3000
}

/// `s` without its leading whitespace.
pub open spec fn trim_start(s: Seq<char>) -> Seq<char>
    decreases s.len(),
{
    if s.len() > 0 && is_whitespace(s[0]) {
        trim_start(s.drop_first())
    } else {
        s
    }
}

/// `s` without its trailing whitespace.
pub open spec fn trim_end(s: Seq<char>) -> Seq<char>
    decreases s.len(),
{
    if s.len() > 0 && is_whitespace(s.last()) {
        trim_end(s.drop_last())
    } else {
        s
    }
}

/// `s` without leading or trailing whitespace (`str::trim`).
pub open spec fn trim(s: Seq<char>) -> Seq<char> {
    trim_end(trim_start(s))
}

/// The characters of the word `light`.
pub open spec fn light_word() -> Seq<char> {
    seq!['l', 'i', 'g', 'h', 't']
}

/// The choice a persisted text reads as.
pub open spec fn choice_from_text(text: Seq<char>) -> ThemeChoice {
    if trim(text) == light_word() {
        ThemeChoice::Light
    } else {
        ThemeChoice::Dark
    }
}

/// A persisted choice reads back as itself.
pub proof fn law_saved_choice_round_trip(c: ThemeChoice)
    ensures
        choice_from_text(
            match c {
                ThemeChoice::Dark => "dark"@,
                ThemeChoice::Light => "light"@,
            },
        ) == c,
{
    reveal_strlit("dark");
    reveal_strlit("light");
    let d = "dark"@;
    let l = "light"@;
    assert(trim_start(l) == l);
    assert(trim_end(l) == l);
    assert(l =~= light_word());
    assert(trim_start(d) == d);
    assert(trim_end(d) == d);
    assert(d != light_word()) by {
        assert(d.len() != light_word().len());
    }
}

/// Toggling twice gives back the choice it started from.
pub proof fn law_toggle_involution(c: ThemeChoice)
    ensures
        (match (match c {
            ThemeChoice::Dark => ThemeChoice::Light,
            ThemeChoice::Light => ThemeChoice::Dark,
        }) {
            ThemeChoice::Dark => ThemeChoice::Light,
            ThemeChoice::Light => ThemeChoice::Dark,
        }) == c,
{
}


#[verifier::external_type_specification]
#[verifier::external_body]
pub struct ExColor(iced::Color);

/// Whether two strings hold the same characters.
pub fn str_eq(a: &str, b: &str) -> (r: bool)
    ensures
        r == (a@ == b@),
{
    let x = a.as_bytes();
    let y = b.as_bytes();
    proof {
        assert(x@ == encode_utf8(a@));
        assert(y@ == encode_utf8(b@));
        encode_utf8_decode_utf8(a@);
        encode_utf8_decode_utf8(b@);
    }
    if x.len() != y.len() {
        return false;
    }
    let mut i: usize = 0;
    while i < x.len()
        invariant
            x@.len() == y@.len(),
            x@ == encode_utf8(a@),
            y@ == encode_utf8(b@),
            i <= x@.len(),
            forall|j: int| 0 <= j < i ==> x@[j] == y@[j],
        decreases x@.len() - i,
    {
        if x[i] != y[i] {
            proof {
                assert(x@[i as int] != y@[i as int]);
                assert(x@ != y@);
            }
            return false;
        }
        i = i + 1;
    }
    proof {
        assert(x@ =~= y@);
    }
    true
}

/// The nine semantic colors every component draws with — one coherent set
/// per theme.
#[derive(Clone, Copy)]
pub struct Palette {
    /// The window background.
    pub bg: iced::Color,
    /// Raised surfaces — cards, panels.
    pub surface: iced::Color,
    /// Primary text.
    pub ink: iced::Color,
    /// Secondary / caption text.
    pub muted: iced::Color,
    /// Hairline borders and dividers.
    pub hairline: iced::Color,
    /// The brand / call-to-action color.
    pub accent: iced::Color,
    /// Success / healthy state.
    pub success: iced::Color,
    /// Warning / caution state.
    pub warn: iced::Color,
    /// Error / destructive state.
    pub danger: iced::Color,
}

/// The nine palette token names, in display order — for a theme editor's
/// rows and for serializing the palette.
pub const PALETTE_KEYS: [&'static str; 9] = [
    "bg",
    "surface",
    "ink",
    "muted",
    "hairline",
    "accent",
    "success",
    "warn",
    "danger",
];

/// The position of the token named `key` in display order, or `None` for an
/// unknown name.
pub open spec fn token_slot(key: Seq<char>) -> Option<int> {
    if key == "bg"@ {
        Some(0)
    } else if key == "surface"@ {
        Some(1)
    } else if key == "ink"@ {
        Some(2)
    } else if key == "muted"@ {
        Some(3)
    } else if key == "hairline"@ {
        Some(4)
    } else if key == "accent"@ {
        Some(5)
    } else if key == "success"@ {
        Some(6)
    } else if key == "warn"@ {
        Some(7)
    } else if key == "danger"@ {
        Some(8)
    } else {
        None
    }
}

/// The token at `slot` (display order).
pub open spec fn token(p: Palette, slot: int) -> iced::Color {
    if slot == 0 {
        p.bg
    } else if slot == 1 {
        p.surface
    } else if slot == 2 {
        p.ink
    } else if slot == 3 {
        p.muted
    } else if slot == 4 {
        p.hairline
    } else if slot == 5 {
        p.accent
    } else if slot == 6 {
        p.success
    } else if slot == 7 {
        p.warn
    } else {
        p.danger
    }
}

/// `p` with the token at `slot` replaced by `c`.
pub open spec fn with_token(p: Palette, slot: int, c: iced::Color) -> Palette {
    Palette {
        bg: if slot == 0 { c } else { p.bg },
        surface: if slot == 1 { c } else { p.surface },
        ink: if slot == 2 { c } else { p.ink },
        muted: if slot == 3 { c } else { p.muted },
        hairline: if slot == 4 { c } else { p.hairline },
        accent: if slot == 5 { c } else { p.accent },
        success: if slot == 6 { c } else { p.success },
        warn: if slot == 7 { c } else { p.warn },
        danger: if slot == 8 { c } else { p.danger },
    }
}

/// The token position `key` names, computed.
fn slot_of(key: &str) -> (r: Option<usize>)
    ensures
        match token_slot(key@) {
            None => r is None,
            Some(s) => r == Some(s as usize),
        },
{
    if str_eq(key, "bg") {
        Some(0)
    } else if str_eq(key, "surface") {
        Some(1)
    } else if str_eq(key, "ink") {
        Some(2)
    } else if str_eq(key, "muted") {
        Some(3)
    } else if str_eq(key, "hairline") {
        Some(4)
    } else if str_eq(key, "accent") {
        Some(5)
    } else if str_eq(key, "success") {
        Some(6)
    } else if str_eq(key, "warn") {
        Some(7)
    } else if str_eq(key, "danger") {
        Some(8)
    } else {
        None
    }
}

impl Palette {
    /// Read a token by its [`PALETTE_KEYS`] name; `None` for an unknown key.
    pub fn color(&self, key: &str) -> (r: Option<iced::Color>)
        ensures
            match token_slot(key@) {
                None => r is None,
                Some(s) => r == Some(token(*self, s)),
            },
    {
        match slot_of(key) {
            None => None,
            Some(0) => Some(self.bg),
            Some(1) => Some(self.surface),
            Some(2) => Some(self.ink),
            Some(3) => Some(self.muted),
            Some(4) => Some(self.hairline),
            Some(5) => Some(self.accent),
            Some(6) => Some(self.success),
            Some(7) => Some(self.warn),
            Some(_) => Some(self.danger),
        }
    }

    /// Set a token by its [`PALETTE_KEYS`] name; unknown keys are ignored.
    pub fn set(&mut self, key: &str, c: iced::Color)
        ensures
            match token_slot(key@) {
                None => *final(self) == *old(self),
                Some(s) => *final(self) == with_token(*old(self), s, c),
            },
    {
        match slot_of(key) {
            None => {},
            Some(0) => self.bg = c,
            Some(1) => self.surface = c,
            Some(2) => self.ink = c,
            Some(3) => self.muted = c,
            Some(4) => self.hairline = c,
            Some(5) => self.accent = c,
            Some(6) => self.success = c,
            Some(7) => self.warn = c,
            Some(_) => self.danger = c,
        }
    }
}

/// Reading a token back after setting it by name gives the value written,
/// and every other token keeps its value.
pub proof fn law_set_then_read(p: Palette, slot: int, other: int, c: iced::Color)
    requires
        0 <= slot < 9,
        0 <= other < 9,
    ensures
        token(with_token(p, slot, c), slot) == c,
        other != slot ==> token(with_token(p, slot, c), other) == token(p, other),
{
}

/// Every advertised key names a token, each a different one, in display
/// order.
pub proof fn law_palette_keys_resolve()
    ensures
        token_slot("bg"@) == Some(0int),
        token_slot("surface"@) == Some(1int),
        token_slot("ink"@) == Some(2int),
        token_slot("muted"@) == Some(3int),
        token_slot("hairline"@) == Some(4int),
        token_slot("accent"@) == Some(5int),
        token_slot("success"@) == Some(6int),
        token_slot("warn"@) == Some(7int),
        token_slot("danger"@) == Some(8int),
{
    reveal_strlit("bg");
    reveal_strlit("surface");
    reveal_strlit("ink");
    reveal_strlit("muted");
    reveal_strlit("hairline");
    reveal_strlit("accent");
    reveal_strlit("success");
    reveal_strlit("warn");
    reveal_strlit("danger");
    assert("bg"@.len() == 2);
    assert("surface"@.len() == 7 && "surface"@[2] == 'r');
    assert("ink"@.len() == 3);
    assert("muted"@.len() == 5);
    assert("hairline"@.len() == 8);
    assert("accent"@.len() == 6 && "accent"@[0] == 'a');
    assert("success"@.len() == 7 && "success"@[2] == 'c');
    assert("warn"@.len() == 4);
    assert("danger"@.len() == 6 && "danger"@[0] == 'd');
}


/// A color written in hex: its red, green and blue bytes, and the alpha byte
/// when one was written (`#rrggbbaa`); `None` is opaque (`#rrggbb`).
#[derive(Clone, Copy, Debug, PartialEq, Eq)]
pub struct HexColor {
    pub r: u8,
    pub g: u8,
    pub b: u8,
    pub a: Option<u8>,
}

/// The value of the hex digit with ASCII code `c` (either case).
pub open spec fn hex_digit_value(c: u8) -> Option<int> {
    if 48 <= c <= 57 {
        Some(c - 48)
    } else if 97 <= c <= 102 {
        Some(c - 87)
    } else if 65 <= c <= 70 {
        Some(c - 55)
    } else {
        None
    }
}

/// The byte a two-character field spells: two hex digits (either case),
/// high digit first; `None` for any other field (a sign is not a digit).
pub open spec fn hex_pair(hi: u8, lo: u8) -> Option<u8> {
    match (hex_digit_value(hi), hex_digit_value(lo)) {
        (Some(h), Some(l)) => Some((h * 16 + l) as u8),
        _ => None,
    }
}

/// The color the bytes `b` spell: `#` then three or four two-character hex
/// fields; `None` for anything else.
pub open spec fn parse_hex_spec(b: Seq<u8>) -> Option<HexColor> {
    if (b.len() == 7 || b.len() == 9) && b[0] == 35 {
        match (hex_pair(b[1], b[2]), hex_pair(b[3], b[4]), hex_pair(b[5], b[6])) {
            (Some(r), Some(g), Some(bl)) => if b.len() == 7 {
                Some(HexColor { r, g, b: bl, a: None })
            } else {
                match hex_pair(b[7], b[8]) {
                    Some(a) => Some(HexColor { r, g, b: bl, a: Some(a) }),
                    None => None,
                }
            },
            _ => None,
        }
    } else {
        None
    }
}

/// Exec form of [`hex_digit_value`].
fn digit_value(c: u8) -> (r: Option<u8>)
    ensures
        match hex_digit_value(c) {
            None => r is None,
            Some(v) => r == Some(v as u8),
        },
{
    if 48 <= c && c <= 57 {
        Some(c - 48)
    } else if 97 <= c && c <= 102 {
        Some(c - 87)
    } else if 65 <= c && c <= 70 {
        Some(c - 55)
    } else {
        None
    }
}

/// Exec form of [`hex_pair`].
fn pair_value(hi: u8, lo: u8) -> (r: Option<u8>)
    ensures
        r == hex_pair(hi, lo),
{
    match (digit_value(hi), digit_value(lo)) {
        (Some(h), Some(l)) => Some(h * 16 + l),
        _ => None,
    }
}

/// Parse `#rrggbb` or `#rrggbbaa` (hex digits in either case).
pub fn parse_hex(s: &str) -> (r: Option<HexColor>)
    ensures
        r == parse_hex_spec(encode_utf8(s@)),
{
    let b = s.as_bytes();
    proof {
        assert(b@ == encode_utf8(s@));
    }
    let n = b.len();
    if !((n == 7 || n == 9) && b[0] == 35) {
        return None;
    }
    let r = pair_value(b[1], b[2]);
    let g = pair_value(b[3], b[4]);
    let bl = pair_value(b[5], b[6]);
    match (r, g, bl) {
        (Some(r), Some(g), Some(bl)) => {
            if n == 7 {
                Some(HexColor { r, g, b: bl, a: None })
            } else {
                match pair_value(b[7], b[8]) {
                    Some(a) => Some(HexColor { r, g, b: bl, a: Some(a) }),
                    None => None,
                }
            }
        },
        _ => None,
    }
}

/// The lowercase hex digit for `d` (`0..16`), as an ASCII code.
pub open spec fn hex_digit_byte(d: int) -> u8 {
    if d < 10 {
        (48 + d) as u8
    } else {
        (87 + d) as u8
    }
}

/// The two lowercase hex digits of `x`.
pub open spec fn hex_byte_digits(x: u8) -> Seq<u8> {
    seq![hex_digit_byte((x / 16) as int), hex_digit_byte((x % 16) as int)]
}

/// The bytes of `#rrggbb` (when `a` is 255, opaque) or `#rrggbbaa`, in
/// lowercase.
pub open spec fn hex_string_bytes(r: u8, g: u8, b: u8, a: u8) -> Seq<u8> {
    seq![35u8] + hex_byte_digits(r) + hex_byte_digits(g) + hex_byte_digits(b) + if a == 255 {
        Seq::<u8>::empty()
    } else {
        hex_byte_digits(a)
    }
}

/// Exec form of [`hex_digit_byte`].
fn digit_byte(d: u8) -> (r: u8)
    requires
        d < 16,
    ensures
        r == hex_digit_byte(d as int),
        r < 0x80,
{
    if d < 10 {
        48 + d
    } else {
        87 + d
    }
}

/// Format a color's bytes as `#rrggbb` when `a` is 255 (opaque) or
/// `#rrggbbaa` otherwise, in lowercase.
pub fn hex_string(r: u8, g: u8, b: u8, a: u8) -> (s: String)
    ensures
        s@ == ascii_chars(hex_string_bytes(r, g, b, a)),
{
    let mut v: Vec<u8> = Vec::new();
    v.push(35);
    v.push(digit_byte(r / 16));
    v.push(digit_byte(r % 16));
    v.push(digit_byte(g / 16));
    v.push(digit_byte(g % 16));
    v.push(digit_byte(b / 16));
    v.push(digit_byte(b % 16));
    if a != 255 {
        v.push(digit_byte(a / 16));
        v.push(digit_byte(a % 16));
    }
    proof {
        assert(v@ =~= hex_string_bytes(r, g, b, a));
    }
    ascii_string(v)
}

/// Reading a hex digit back gives its value.
proof fn lemma_digit_round_trip(d: int)
    requires
        0 <= d < 16,
    ensures
        hex_digit_value(hex_digit_byte(d)) == Some(d),
{
}

/// The two digits of a byte read back as the byte.
proof fn lemma_byte_round_trip(x: u8)
    ensures
        hex_pair(hex_byte_digits(x)[0], hex_byte_digits(x)[1]) == Some(x),
{
    lemma_digit_round_trip((x / 16) as int);
    lemma_digit_round_trip((x % 16) as int);
    assert((x / 16) * 16 + x % 16 == x);
}

/// Formatting a color and parsing the text back gives the same bytes, with
/// an alpha of 255 read as opaque.
pub proof fn law_hex_format_then_parse(r: u8, g: u8, b: u8, a: u8)
    ensures
        parse_hex_spec(hex_string_bytes(r, g, b, a)) == Some(
            HexColor { r, g, b, a: if a == 255 { None } else { Some(a) } },
        ),
{
    let s = hex_string_bytes(r, g, b, a);
    lemma_byte_round_trip(r);
    lemma_byte_round_trip(g);
    lemma_byte_round_trip(b);
    lemma_byte_round_trip(a);
    assert(s[1] == hex_byte_digits(r)[0] && s[2] == hex_byte_digits(r)[1]);
    assert(s[3] == hex_byte_digits(g)[0] && s[4] == hex_byte_digits(g)[1]);
    assert(s[5] == hex_byte_digits(b)[0] && s[6] == hex_byte_digits(b)[1]);
    if a != 255 {
        assert(s[7] == hex_byte_digits(a)[0] && s[8] == hex_byte_digits(a)[1]);
    }
}

/// Whether `c` is the ASCII code of a hex digit (either case).
pub open spec fn is_hex_digit(c: u8) -> bool {
    hex_digit_value(c) is Some
}

/// The ASCII code `c` with an upper-case letter lowered.
pub open spec fn ascii_lower(c: u8) -> u8 {
    if 65 <= c <= 90 {
        (c + 32) as u8
    } else {
        c
    }
}

/// Well-formed hex text: `#` and six hex digits, or `#` and eight where the
/// alpha field is not `ff` (either case), which formats as opaque.
pub open spec fn is_hex_text(b: Seq<u8>) -> bool {
    &&& b.len() == 7 || b.len() == 9
    &&& b[0] == 35
    &&& forall|i: int| 1 <= i < b.len() ==> is_hex_digit(#[trigger] b[i])
    &&& b.len() == 9 ==> hex_pair(b[7], b[8]) != Some(255u8)
}

/// A pair of hex digits reads as a byte whose digits are the pair lowered.
proof fn lemma_pair_round_trip(hi: u8, lo: u8)
    requires
        is_hex_digit(hi),
        is_hex_digit(lo),
    ensures
        hex_pair(hi, lo) matches Some(x) && hex_byte_digits(x) == seq![
            ascii_lower(hi),
            ascii_lower(lo),
        ],
{
    let h = hex_digit_value(hi)->0;
    let l = hex_digit_value(lo)->0;
    let x = (h * 16 + l) as u8;
    assert(x / 16 == h && x % 16 == l);
    assert(hex_byte_digits(x) =~= seq![ascii_lower(hi), ascii_lower(lo)]);
}

/// Parsing hex text and formatting the color gives the text back in
/// lowercase (so canonical lowercase text comes back unchanged).
pub proof fn law_hex_parse_then_format(b: Seq<u8>)
    requires
        is_hex_text(b),
    ensures
        parse_hex_spec(b) matches Some(c) && hex_string_bytes(
            c.r,
            c.g,
            c.b,
            match c.a {
                None => 255u8,
                Some(a) => a,
            },
        ) == b.map_values(|c: u8| ascii_lower(c)),
{
    assert(is_hex_digit(b[1]) && is_hex_digit(b[2]));
    assert(is_hex_digit(b[3]) && is_hex_digit(b[4]));
    assert(is_hex_digit(b[5]) && is_hex_digit(b[6]));
    lemma_pair_round_trip(b[1], b[2]);
    lemma_pair_round_trip(b[3], b[4]);
    lemma_pair_round_trip(b[5], b[6]);
    let c = parse_hex_spec(b)->0;
    if b.len() == 9 {
        assert(is_hex_digit(b[7]) && is_hex_digit(b[8]));
        lemma_pair_round_trip(b[7], b[8]);
    }
    assert(hex_string_bytes(
        c.r,
        c.g,
        c.b,
        match c.a {
            None => 255u8,
            Some(a) => a,
        },
    ) =~= b.map_values(|c: u8| ascii_lower(c)));
}

/// Whether byte `c` is an ASCII hex digit, by its code: `0`-`9`, `a`-`f`, or
/// `A`-`F`.
pub open spec fn is_ascii_hex(c: u8) -> bool {
    (0x30 <= c <= 0x39) || (0x61 <= c <= 0x66) || (0x41 <= c <= 0x46)
}

/// Hex parsing accepts exactly `#` followed by six or eight ASCII hex digits
/// (either case): any other text, including a sign or a non-ASCII byte in a
/// field, is rejected. An accepted channel is the field's value in base 16,
/// high digit first.
pub proof fn law_parse_hex_accepts_exactly(b: Seq<u8>)
    ensures
        parse_hex_spec(b) is Some <==> ((b.len() == 7 || b.len() == 9) && b[0] == 0x23 && forall|
            i: int,
        | 1 <= i < b.len() ==> is_ascii_hex(#[trigger] b[i])),
        parse_hex_spec(b) matches Some(c) ==> 16 * hex_digit_value(b[1])->0 + hex_digit_value(b[2])->0
            == c.r && 16 * hex_digit_value(b[3])->0 + hex_digit_value(b[4])->0 == c.g && 16
            * hex_digit_value(b[5])->0 + hex_digit_value(b[6])->0 == c.b,
        forall|c: u8| is_ascii_hex(c) <==> hex_digit_value(c) is Some,
        forall|c: u8| #![auto] 0x30 <= c <= 0x39 ==> hex_digit_value(c) == Some(c - 0x30),
        forall|c: u8| #![auto] 0x61 <= c <= 0x66 ==> hex_digit_value(c) == Some(c - 0x61 + 10),
        forall|c: u8| #![auto] 0x41 <= c <= 0x46 ==> hex_digit_value(c) == Some(c - 0x41 + 10),
{
    if (b.len() == 7 || b.len() == 9) && b[0] == 0x23 && parse_hex_spec(b) is Some {
        assert forall|i: int| 1 <= i < b.len() implies is_ascii_hex(#[trigger] b[i]) by {
            if i == 1 || i == 2 {
                assert(hex_pair(b[1], b[2]) is Some);
            } else if i == 3 || i == 4 {
                assert(hex_pair(b[3], b[4]) is Some);
            } else if i == 5 || i == 6 {
                assert(hex_pair(b[5], b[6]) is Some);
            } else {
                assert(hex_pair(b[7], b[8]) is Some);
            }
        }
    }
    if (b.len() == 7 || b.len() == 9) && b[0] == 0x23 && forall|i: int|
        1 <= i < b.len() ==> is_ascii_hex(#[trigger] b[i]) {
        assert(is_ascii_hex(b[1]) && is_ascii_hex(b[2]) && is_ascii_hex(b[3]));
        assert(is_ascii_hex(b[4]) && is_ascii_hex(b[5]) && is_ascii_hex(b[6]));
        if b.len() == 9 {
            assert(is_ascii_hex(b[7]) && is_ascii_hex(b[8]));
        }
    }
    if parse_hex_spec(b) is Some {
        let c = parse_hex_spec(b)->0;
        let h1 = hex_digit_value(b[1])->0;
        let l1 = hex_digit_value(b[2])->0;
        assert(0 <= h1 < 16 && 0 <= l1 < 16);
        let h2 = hex_digit_value(b[3])->0;
        let l2 = hex_digit_value(b[4])->0;
        assert(0 <= h2 < 16 && 0 <= l2 < 16);
        let h3 = hex_digit_value(b[5])->0;
        let l3 = hex_digit_value(b[6])->0;
        assert(0 <= h3 < 16 && 0 <= l3 < 16);
    }
}

/// Whether every character of `s` is ASCII white space by its code: tab,
/// line feed, vertical tab, form feed, carriage return or space.
pub open spec fn ascii_blank(s: Seq<char>) -> bool {
    forall|i: int| 0 <= i < s.len() ==> ((0x09 <= (#[trigger] s[i] as u32) && (s[i] as u32) <= 0x0D)
        || s[i] == ' ')
}

/// Leading blanks are dropped from the front of `p + x` when `x` does not
/// start with white space.
proof fn lemma_trim_start_blank(p: Seq<char>, x: Seq<char>)
    requires
        ascii_blank(p),
        x.len() > 0 && !is_whitespace(x[0]),
    ensures
        trim_start(p + x) == x,
    decreases p.len(),
{
    if p.len() == 0 {
        assert(p + x =~= x);
    } else {
        assert((p + x)[0] == p[0]);
        assert((p + x).drop_first() =~= p.drop_first() + x);
        assert(ascii_blank(p.drop_first())) by {
            assert forall|i: int| 0 <= i < p.drop_first().len() implies ((0x09 <= (
            #[trigger] p.drop_first()[i] as u32) && (p.drop_first()[i] as u32) <= 0x0D)
                || p.drop_first()[i] == ' ') by {
                assert(p.drop_first()[i] == p[i + 1]);
            }
        }
        assert(p[0] == p[0]);
        lemma_trim_start_blank(p.drop_first(), x);
    }
}

/// Trailing blanks are dropped from the back of `x + q` when `x` does not
/// end with white space.
proof fn lemma_trim_end_blank(x: Seq<char>, q: Seq<char>)
    requires
        ascii_blank(q),
        x.len() > 0 && !is_whitespace(x.last()),
    ensures
        trim_end(x + q) == x,
    decreases q.len(),
{
    if q.len() == 0 {
        assert(x + q =~= x);
    } else {
        assert((x + q).last() == q.last());
        assert((x + q).drop_last() =~= x + q.drop_last());
        assert(ascii_blank(q.drop_last())) by {
            assert forall|i: int| 0 <= i < q.drop_last().len() implies ((0x09 <= (
            #[trigger] q.drop_last()[i] as u32) && (q.drop_last()[i] as u32) <= 0x0D)
                || q.drop_last()[i] == ' ') by {
                assert(q.drop_last()[i] == q[i]);
            }
        }
        assert(q.last() == q[q.len() - 1]);
        lemma_trim_end_blank(x, q.drop_last());
    }
}

/// The word `light` reads as the light choice with any ASCII white space
/// around it (a trailing newline from an editor, say); the empty text of a
/// missing file reads as dark.
pub proof fn law_light_with_blanks(p: Seq<char>, q: Seq<char>)
    requires
        ascii_blank(p),
        ascii_blank(q),
    ensures
        choice_from_text(p + light_word() + q) == ThemeChoice::Light,
        choice_from_text(Seq::<char>::empty()) == ThemeChoice::Dark,
        choice_from_text(seq!['d', 'a', 'r', 'k']) == ThemeChoice::Dark,
{
    let w = light_word();
    assert((w + q)[0] == 'l');
    assert(p + w + q =~= p + (w + q));
    lemma_trim_start_blank(p, w + q);
    lemma_trim_end_blank(w, q);
    assert(trim_start(Seq::<char>::empty()) =~= Seq::<char>::empty());
    assert(trim_end(Seq::<char>::empty()) =~= Seq::<char>::empty());
    assert(Seq::<char>::empty() != w) by {
        assert(w.len() == 5);
    }
    let d = seq!['d', 'a', 'r', 'k'];
    assert(trim_start(d) == d);
    assert(trim_end(d) == d);
    assert(d != w) by {
        assert(d.len() != w.len());
    }
}

} // verus!
