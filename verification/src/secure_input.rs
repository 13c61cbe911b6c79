//! The editing rules of the masked password field: what each key does to the
//! caret and to the caller's [`SecretBuf`]. The widget itself (layout, drawing,
//! focus, the clipboard read) lives with the GUI toolkit; it turns a key press
//! into an [`EditKey`], applies it here, and acts on the [`KeyOutcome`].
use vstd::prelude::*;
use vstd::utf8::*;
use crate::secret::{SecretBuf, SECRET_CAPACITY, char_width, encoded_len, lemma_encode_append};

verus! {

/// Whether `c` is a control character: Unicode general category `Cc`, which
/// is exactly U+0000..=U+001F and U+007F..=U+009F.
pub open spec fn is_control(c: char) -> bool {
    (c as u32) <= 0x1F || (0x7F <= (c as u32) && (c as u32) <= 0x9F)
}

/// Exec form of [`is_control`].
pub fn is_control_char(c: char) -> (r: bool)
    ensures
        r == is_control(c),
{
    let u = c as u32;
    u <= 0x1F || (0x7F <= u && u <= 0x9F)
}

/// The characters of `s` that are not control characters, in order.
pub open spec fn printable(s: Seq<char>) -> Seq<char> {
    s.filter(keep_char())
}

/// The filter that keeps non-control characters.
pub open spec fn keep_char() -> spec_fn(char) -> bool {
    |c: char| !is_control(c)
}

/// Whether appending `more` to a secret of `chars` stays within capacity.
pub open spec fn fits(chars: Seq<char>, more: Seq<char>) -> bool {
    encoded_len(chars) + encoded_len(more) <= SECRET_CAPACITY
}

/// One key press, as the field understands it.
pub enum EditKey {
    /// A printable key produced this character (command keys not held).
    Text(char),
    /// Backspace: delete the character before the caret.
    Backspace,
    /// Delete: delete the character at the caret.
    Delete,
    /// Home: caret to the start.
    Home,
    /// End: caret to the end.
    End,
    /// Left arrow; `to_start` when the platform's command modifier is held.
    Left { to_start: bool },
    /// Right arrow; `to_end` when the platform's command modifier is held.
    Right { to_end: bool },
    /// Enter: submit.
    Enter,
    /// Escape: leave the field (the secret is kept).
    Escape,
    /// Any other key: ignored.
    Other,
}

/// What a key did: the new caret (in characters), whether the secret was
/// edited (the widget then reports `on_edit`), whether to submit, and whether
/// the field gives up focus.
pub struct KeyOutcome {
    pub cursor: usize,
    pub edited: bool,
    pub submit: bool,
    pub blur: bool,
}

/// The caret clamped to the secret's length.
pub open spec fn clamp_cursor(cursor: usize, len: nat) -> int {
    if cursor < len {
        cursor as int
    } else {
        len as int
    }
}

/// The effect of `key` on a secret of `chars` with the caret at `cursor`
/// (clamped to the end first): the new characters and the new caret, whether
/// the secret changed, whether to submit, whether to blur.
pub open spec fn key_effect(chars: Seq<char>, cursor: usize, key: EditKey) -> (
    Seq<char>,
    int,
    bool,
    bool,
    bool,
) {
    let c = clamp_cursor(cursor, chars.len());
    let len = chars.len() as int;
    match key {
        EditKey::Text(ch) => if is_control(ch) {
            (chars, c, false, false, false)
        } else if fits(chars, seq![ch]) {
            (chars.insert(c, ch), c + 1, true, false, false)
        } else {
            (chars, c, false, false, false)
        },
        EditKey::Backspace => if c > 0 {
            (chars.remove(c - 1), c - 1, true, false, false)
        } else {
            (chars, c, false, false, false)
        },
        EditKey::Delete => if c < len {
            (chars.remove(c), c, true, false, false)
        } else {
            (chars, c, false, false, false)
        },
        EditKey::Home => (chars, 0, false, false, false),
        EditKey::End => (chars, len, false, false, false),
        EditKey::Left { to_start } => (
            chars,
            if to_start || c == 0 {
                0
            } else {
                c - 1
            },
            false,
            false,
            false,
        ),
        EditKey::Right { to_end } => (
            chars,
            if to_end || c == len {
                len
            } else {
                c + 1
            },
            false,
            false,
            false,
        ),
        EditKey::Enter => (chars, c, false, true, false),
        EditKey::Escape => (chars, c, false, false, true),
        EditKey::Other => (chars, c, false, false, false),
    }
}

/// Encoding one more character adds its width.
proof fn lemma_fits_single(chars: Seq<char>, ch: char)
    ensures
        encoded_len(seq![ch]) == char_width(ch),
{
    crate::secret::lemma_encode_single(ch);
}

/// Apply `key` to `secret` with the caret at `cursor` (clamped to the end
/// first, since the host may have shortened the secret between renders).
pub fn apply_key(secret: &mut SecretBuf, cursor: usize, key: EditKey) -> (r: KeyOutcome)
    requires
        old(secret).wf(),
    ensures
        final(secret).wf(),
        ({
            let e = key_effect(old(secret)@, cursor, key);
            &&& final(secret)@ == e.0
            &&& r.cursor == e.1
            &&& r.edited == e.2
            &&& r.submit == e.3
            &&& r.blur == e.4
        }),
        final(secret).storage_view().len() == old(secret).storage_view().len(),
{
    let len = secret.len();
    let cursor = if cursor < len {
        cursor
    } else {
        len
    };
    let none = KeyOutcome { cursor, edited: false, submit: false, blur: false };
    match key {
        EditKey::Text(ch) => {
            if is_control_char(ch) {
                return none;
            }
            proof {
                lemma_fits_single(secret@, ch);
            }
            if secret.insert(cursor, ch) {
                KeyOutcome { cursor: cursor + 1, edited: true, submit: false, blur: false }
            } else {
                none
            }
        },
        EditKey::Backspace => {
            if cursor > 0 {
                let ok = secret.remove(cursor - 1);
                KeyOutcome { cursor: cursor - 1, edited: ok, submit: false, blur: false }
            } else {
                none
            }
        },
        EditKey::Delete => {
            let ok = secret.remove(cursor);
            KeyOutcome { cursor, edited: ok, submit: false, blur: false }
        },
        EditKey::Home => KeyOutcome { cursor: 0, edited: false, submit: false, blur: false },
        EditKey::End => KeyOutcome { cursor: len, edited: false, submit: false, blur: false },
        EditKey::Left { to_start } => {
            let c = if to_start || cursor == 0 {
                0
            } else {
                cursor - 1
            };
            KeyOutcome { cursor: c, edited: false, submit: false, blur: false }
        },
        EditKey::Right { to_end } => {
            let c = if to_end || cursor == len {
                len
            } else {
                cursor + 1
            };
            KeyOutcome { cursor: c, edited: false, submit: false, blur: false }
        },
        EditKey::Enter => KeyOutcome { cursor, edited: false, submit: true, blur: false },
        EditKey::Escape => KeyOutcome { cursor, edited: false, submit: false, blur: true },
        EditKey::Other => none,
    }
}


/// `zeroize::Zeroize::zeroize` on a `String`: its bytes (and spare
/// capacity) are overwritten with zeroes and its length is set to zero, so it
/// ends up empty.
#[verifier::external_body]
fn wipe_string(s: &mut String)
    ensures
        final(s)@ == Seq::<char>::empty(),
{
    zeroize::Zeroize::zeroize(s);
}

/// The named keys the field reacts to (after modifiers), and every other key.
#[derive(Clone, Copy, Debug, PartialEq, Eq, Structural)]
pub enum NamedKey {
    Enter,
    Backspace,
    Delete,
    Home,
    End,
    ArrowLeft,
    ArrowRight,
    Escape,
    Other,
}

/// A key press as plain values: the key's Latin letter (layout-independent),
/// the first character of the text it produced, its named meaning, and the
/// modifiers: the platform command key, Alt, and the macOS Command key.
#[derive(Clone, Copy, Debug)]
pub struct KeyPress {
    pub latin: Option<char>,
    pub text: Option<char>,
    pub named: NamedKey,
    pub command: bool,
    pub alt: bool,
    pub macos_command: bool,
}

/// What a key press means to a focused field.
pub enum KeyRoute {
    /// Command-V: paste the clipboard in.
    Paste,
    /// Command-C, -X or -A: deliberately dead, but consumed so nothing else
    /// reacts (a secret is never copied out or selected).
    Swallow,
    /// An edit or caret move, applied with [`apply_key`]; consumed.
    Edit(EditKey),
    /// Not the field's: left for others.
    Ignore,
}

/// The routing of a key press, in the toolkit text input's order: command
/// shortcuts first, then printable text (not with the command key; a control
/// character is not text), then the named keys.
pub open spec fn route_spec(k: KeyPress) -> KeyRoute {
    if k.latin == Some('v') && k.command && !k.alt {
        KeyRoute::Paste
    } else if (k.latin == Some('c') || k.latin == Some('x') || k.latin == Some('a')) && k.command {
        KeyRoute::Swallow
    } else if !k.command && k.text is Some && !is_control(k.text->0) {
        KeyRoute::Edit(EditKey::Text(k.text->0))
    } else {
        match k.named {
            NamedKey::Enter => KeyRoute::Edit(EditKey::Enter),
            NamedKey::Backspace => KeyRoute::Edit(EditKey::Backspace),
            NamedKey::Delete => KeyRoute::Edit(EditKey::Delete),
            NamedKey::Home => KeyRoute::Edit(EditKey::Home),
            NamedKey::End => KeyRoute::Edit(EditKey::End),
            NamedKey::ArrowLeft => KeyRoute::Edit(EditKey::Left { to_start: k.macos_command }),
            NamedKey::ArrowRight => KeyRoute::Edit(EditKey::Right { to_end: k.macos_command }),
            NamedKey::Escape => KeyRoute::Edit(EditKey::Escape),
            NamedKey::Other => KeyRoute::Ignore,
        }
    }
}

/// Route a key press (see [`route_spec`]).
pub fn route_key(k: KeyPress) -> (r: KeyRoute)
    ensures
        r == route_spec(k),
{
    let is_v = match k.latin {
        Some(c) => c == 'v',
        None => false,
    };
    let is_dead = match k.latin {
        Some(c) => c == 'c' || c == 'x' || c == 'a',
        None => false,
    };
    if is_v && k.command && !k.alt {
        return KeyRoute::Paste;
    }
    if is_dead && k.command {
        return KeyRoute::Swallow;
    }
    if !k.command {
        if let Some(ch) = k.text {
            if !is_control_char(ch) {
                return KeyRoute::Edit(EditKey::Text(ch));
            }
        }
    }
    match k.named {
        NamedKey::Enter => KeyRoute::Edit(EditKey::Enter),
        NamedKey::Backspace => KeyRoute::Edit(EditKey::Backspace),
        NamedKey::Delete => KeyRoute::Edit(EditKey::Delete),
        NamedKey::Home => KeyRoute::Edit(EditKey::Home),
        NamedKey::End => KeyRoute::Edit(EditKey::End),
        NamedKey::ArrowLeft => KeyRoute::Edit(EditKey::Left { to_start: k.macos_command }),
        NamedKey::ArrowRight => KeyRoute::Edit(EditKey::Right { to_end: k.macos_command }),
        NamedKey::Escape => KeyRoute::Edit(EditKey::Escape),
        NamedKey::Other => KeyRoute::Ignore,
    }
}

/// How many leading characters of `more` fit, inserted one at a time, into a
/// secret whose encoding already takes `base` bytes: insertion stops at the
/// first character that does not fit.
pub open spec fn accepted(base: nat, more: Seq<char>) -> nat
    decreases more.len(),
{
    if more.len() == 0 {
        0
    } else if base + char_width(more[0]) <= SECRET_CAPACITY {
        1 + accepted(base + char_width(more[0]), more.drop_first())
    } else {
        0
    }
}

/// When all of `a` fits, what fits of `a + b` is all of `a` then what fits
/// of `b` after it.
proof fn lemma_accepted_append(base: nat, a: Seq<char>, b: Seq<char>)
    requires
        accepted(base, a) == a.len(),
    ensures
        accepted(base, a + b) == a.len() + accepted(base + encoded_len(a), b),
    decreases a.len(),
{
    if a.len() == 0 {
        assert(a + b =~= b);
        assert(encode_utf8(a) =~= Seq::<u8>::empty());
    } else {
        assert((a + b)[0] == a[0]);
        assert((a + b).drop_first() =~= a.drop_first() + b);
        lemma_accepted_append(base + char_width(a[0]), a.drop_first(), b);
        assert(encode_utf8(a) == encode_scalar(a[0] as u32) + encode_utf8(a.drop_first()));
    }
}

/// The printable characters of a prefix grow by the next character when it
/// is printable.
proof fn lemma_printable_step(s: Seq<char>, p: int)
    requires
        0 <= p < s.len(),
    ensures
        printable(s.take(p + 1)) == if is_control(s[p]) {
            printable(s.take(p))
        } else {
            printable(s.take(p)).push(s[p])
        },
{
    reveal_with_fuel(Seq::<_>::filter, 1);
    assert(s.take(p + 1).drop_last() =~= s.take(p));
    assert(s.take(p + 1).last() == s[p]);
}

/// Paste `content` at the caret (clamped to the end first): its printable
/// characters are inserted in order until one does not fit, and the rest is
/// dropped. The pasted text is wiped afterwards. Returns the new caret and
/// whether anything was inserted.
pub fn paste(secret: &mut SecretBuf, cursor: usize, content: &mut String) -> (r: (usize, bool))
    requires
        old(secret).wf(),
    ensures
        final(secret).wf(),
        final(content)@ == Seq::<char>::empty(),
        ({
            let chars = old(secret)@;
            let c = clamp_cursor(cursor, chars.len());
            let more = printable(old(content)@);
            let k = accepted(encoded_len(chars), more) as int;
            &&& final(secret)@ == chars.take(c) + more.take(k) + chars.skip(c)
            &&& r.0 == c + k
            &&& r.1 == (k > 0)
        }),
        final(secret).storage_view().len() == old(secret).storage_view().len(),
{
    broadcast use vstd::string::group_string_axioms;

    let ghost chars = secret@;
    let ghost base = encoded_len(chars);
    let ghost text = content@;
    let len = secret.len();
    let start = if cursor < len {
        cursor
    } else {
        len
    };
    let ghost c = start as int;
    let mut cur = start;
    let mut edited = false;
    let view: &str = content.as_str();
    let mut it = view.chars();
    let ghost mut p: int = 0;
    proof {
        assert(text.take(0) =~= Seq::<char>::empty());
        reveal_with_fuel(Seq::<_>::filter, 1);
        assert(printable(text.take(0)) =~= Seq::<char>::empty());
        assert(chars.take(c) + Seq::<char>::empty() + chars.skip(c) =~= chars);
    }
    loop
        invariant_except_break
            0 <= p <= text.len(),
            vstd::std_specs::iter::IteratorSpec::remaining(&it) == text.skip(p),
            secret.wf(),
            secret.storage_view().len() == old(secret).storage_view().len(),
            accepted(base, printable(text.take(p))) == printable(text.take(p)).len(),
            secret@ == chars.take(c) + printable(text.take(p)) + chars.skip(c),
            cur == c + printable(text.take(p)).len(),
            edited == (printable(text.take(p)).len() > 0),
            0 <= c <= chars.len(),
            base == encoded_len(chars),
        ensures
            secret.wf(),
            secret.storage_view().len() == old(secret).storage_view().len(),
            ({
                let more = printable(text);
                let k = accepted(base, more) as int;
                &&& secret@ == chars.take(c) + more.take(k) + chars.skip(c)
                &&& cur == c + k
                &&& edited == (k > 0)
            }),
        decreases text.len() - p,
    {
        match it.next() {
            None => {
                proof {
                    assert(text.take(p) =~= text);
                    assert(printable(text).take(printable(text).len() as int)
                        =~= printable(text));
                }
                break;
            },
            Some(ch) => {
                proof {
                    assert(text.skip(p)[0] == text[p]);
                    assert(text.skip(p).drop_first() =~= text.skip(p + 1));
                    lemma_printable_step(text, p);
                }
                if !is_control_char(ch) {
                    let ghost before = printable(text.take(p));
                    proof {
                        lemma_encode_append(chars.take(c), before);
                        lemma_encode_append(chars.take(c) + before, chars.skip(c));
                        crate::secret::lemma_encode_split(chars, c);
                        lemma_accepted_append(base, before, seq![ch]);
                        lemma_fits_single(chars, ch);
                        assert(seq![ch].drop_first() =~= Seq::<char>::empty());
                        assert(before + seq![ch] =~= before.push(ch));
                        assert(chars.take(c) + chars.skip(c) =~= chars);
                        lemma_encode_append(chars.take(c), chars.skip(c));
                        assert(encoded_len(secret@) == base + encoded_len(before));
                        secret.lemma_len_bound();
                        assert(accepted(base + encoded_len(before) + char_width(ch), Seq::<char>::empty()) == 0);
                    }
                    if !secret.insert(cur, ch) {
                        proof {
                            let more = printable(text);
                            let rest = text.skip(p + 1);
                            assert(text =~= text.take(p + 1) + rest);
                            assert(more =~= before.push(ch) + printable(rest)) by {
                                Seq::filter_distributes_over_add(
                                    text.take(p + 1),
                                    rest,
                                    keep_char(),
                                );
                            }
                            assert(before.push(ch) + printable(rest) =~= before + (seq![ch]
                                + printable(rest)));
                            lemma_accepted_append(base, before, seq![ch] + printable(rest));
                            assert((seq![ch] + printable(rest))[0] == ch);
                            assert(more.take(before.len() as int) =~= before);
                        }
                        break;
                    }
                    proof {
                        assert(chars.take(c) + before.push(ch) + chars.skip(c) =~= (chars.take(c)
                            + before + chars.skip(c)).insert(c + before.len(), ch));
                    }
                    cur = cur + 1;
                    edited = true;
                }
                proof {
                    p = p + 1;
                }
            },
        }
    }
    wipe_string(content);
    (cur, edited)
}

/// The caret blinks on this period while the field is focused.
pub const CURSOR_BLINK_INTERVAL_MILLIS: u128 = 500;

/// Whether the caret shows, `elapsed_millis` after the last edit or caret
/// move: shown for the first period, hidden for the next, and so on.
pub fn caret_visible(elapsed_millis: u128) -> (r: bool)
    ensures
        r == ((elapsed_millis / CURSOR_BLINK_INTERVAL_MILLIS) % 2 == 0),
{
    (elapsed_millis / CURSOR_BLINK_INTERVAL_MILLIS) % 2 == 0
}

/// How long after a redraw, `elapsed_millis` after the last edit or caret
/// move, the next one is due to keep the caret blinking: the time to the
/// next period boundary.
pub fn millis_until_blink(elapsed_millis: u128) -> (r: u128)
    ensures
        r == CURSOR_BLINK_INTERVAL_MILLIS - elapsed_millis % CURSOR_BLINK_INTERVAL_MILLIS,
{
    CURSOR_BLINK_INTERVAL_MILLIS - elapsed_millis % CURSOR_BLINK_INTERVAL_MILLIS
}

/// The next redraw lands on a blink: the wait is positive and at most one
/// period, and after it the caret shows the other way round.
pub proof fn law_redraw_lands_on_a_blink(elapsed_millis: u128)
    ensures
        ({
            let period = CURSOR_BLINK_INTERVAL_MILLIS as int;
            let e = elapsed_millis as int;
            let wait = period - e % period;
            let next = e + wait;
            &&& 0 < wait <= period
            &&& next % period == 0
            &&& ((next / period) % 2 == 0) != ((e / period) % 2 == 0)
        }),
{
    let e = elapsed_millis as int;
    let q = e / 500;
    let m = e % 500;
    assert(e == q * 500 + m && 0 <= m < 500) by (nonlinear_arith)
        requires
            q == e / 500,
            m == e % 500,
            e >= 0,
    ;
    let next = e + (500 - m);
    assert(next == (q + 1) * 500) by (nonlinear_arith)
        requires
            e == q * 500 + m,
            next == e + (500 - m),
    ;
    assert(next / 500 == q + 1 && next % 500 == 0) by (nonlinear_arith)
        requires
            next == (q + 1) * 500,
            q >= 0,
    ;
}

/// The control characters are exactly Unicode category `Cc`: U+0000..=U+001F
/// and U+007F..=U+009F. Everything else — the space, letters, digits,
/// punctuation, any non-ASCII letter — is printable.
pub proof fn law_control_is_category_cc(c: char)
    ensures
        is_control(c) <==> ((c as u32) < 0x20 || (0x7F <= (c as u32) && (c as u32) < 0xA0)),
        !is_control(' '),
{
}

/// Text of printable characters passes the paste filter whole: every
/// character with a code from U+0020 to U+007E or from U+00A0 up is kept, in
/// order.
pub proof fn law_printable_keeps_visible_text(s: Seq<char>)
    requires
        forall|i: int|
            0 <= i < s.len() ==> ((0x20 <= (#[trigger] s[i] as u32) && (s[i] as u32) < 0x7F) || 0xA0
                <= (s[i] as u32)),
    ensures
        printable(s) == s,
    decreases s.len(),
{
    reveal_with_fuel(Seq::<_>::filter, 1);
    if s.len() > 0 {
        let t = s.drop_last();
        assert forall|i: int| 0 <= i < t.len() implies ((0x20 <= (#[trigger] t[i] as u32) && (t[i]
            as u32) < 0x7F) || 0xA0 <= (t[i] as u32)) by {
            assert(t[i] == s[i]);
        }
        law_printable_keeps_visible_text(t);
        assert(s[s.len() - 1] == s.last());
        assert(t.push(s.last()) =~= s);
    }
}

/// Key routing: a key press without the command key whose text is a
/// printable character types that character, whatever its letter; a copy,
/// cut or select-all is swallowed only with the command key; paste is
/// command-V without Alt.
pub proof fn law_route_key(k: KeyPress)
    ensures
        (!k.command && k.text is Some && !((k.text->0 as u32) < 0x20 || (0x7F <= (k.text->0 as u32)
            && (k.text->0 as u32) < 0xA0))) ==> route_spec(k) == KeyRoute::Edit(
            EditKey::Text(k.text->0),
        ),
        route_spec(k) is Swallow ==> k.command,
        route_spec(k) is Paste <==> (k.command && !k.alt && k.latin == Some('v')),
        (k.command && (k.latin == Some('c') || k.latin == Some('x') || k.latin == Some('a')))
            ==> route_spec(k) is Swallow,
        route_spec(k) is Ignore ==> k.named == NamedKey::Other,
        route_spec(k) == KeyRoute::Edit(EditKey::Enter) ==> k.named == NamedKey::Enter,
        route_spec(k) == KeyRoute::Edit(EditKey::Escape) ==> k.named == NamedKey::Escape,
{
}

/// What each key does to the secret and the caret, with the caret `c`
/// clamped to the secret first: only Enter submits; only Escape leaves the
/// field, keeping the secret; a printable character that fits is inserted at
/// the caret and the caret moves past it; Backspace removes the character
/// before the caret and Delete the one at it; Home, End and the arrows only
/// move the caret; and the edited flag is set exactly when the secret
/// changed.
pub proof fn law_key_effects(chars: Seq<char>, cursor: usize, key: EditKey)
    ensures
        ({
            let e = key_effect(chars, cursor, key);
            let c = if (cursor as int) < chars.len() {
                cursor as int
            } else {
                chars.len() as int
            };
            &&& e.3 <==> key is Enter
            &&& e.4 <==> key is Escape
            &&& key is Escape ==> e.0 == chars && !e.2 && e.1 == c
            &&& key is Enter ==> e.0 == chars && !e.2 && e.1 == c
            &&& e.2 <==> e.0 != chars
            &&& 0 <= e.1 <= e.0.len()
            &&& (key is Text && !((key->0 as u32) < 0x20 || (0x7F <= (key->0 as u32) && (key->0
                as u32) < 0xA0)) && encoded_len(chars) + char_width(key->0) <= SECRET_CAPACITY) ==> (
            e.0 == chars.take(c) + seq![key->0] + chars.skip(c) && e.1 == c + 1)
            &&& (key is Text && ((key->0 as u32) < 0x20 || (0x7F <= (key->0 as u32) && (key->0
                as u32) < 0xA0))) ==> (e.0 == chars && e.1 == c)
            &&& (key is Backspace && c > 0) ==> (e.0 == chars.take(c - 1) + chars.skip(c) && e.1
                == c - 1)
            &&& (key is Delete && c < chars.len()) ==> (e.0 == chars.take(c) + chars.skip(c + 1)
                && e.1 == c)
            &&& key is Home ==> e.0 == chars && e.1 == 0
            &&& key is End ==> e.0 == chars && e.1 == chars.len()
            &&& key matches EditKey::Left { to_start } ==> e.0 == chars && e.1 == (if to_start {
                0
            } else if c > 0 {
                c - 1
            } else {
                0
            })
            &&& key matches EditKey::Right { to_end } ==> e.0 == chars && e.1 == (if to_end {
                chars.len() as int
            } else if c < chars.len() {
                c + 1
            } else {
                chars.len() as int
            })
        }),
{
    let e = key_effect(chars, cursor, key);
    let c = if (cursor as int) < chars.len() {
        cursor as int
    } else {
        chars.len() as int
    };
    match key {
        EditKey::Text(ch) => {
            if !is_control(ch) && fits(chars, seq![ch]) {
                assert(chars.insert(c, ch) =~= chars.take(c) + seq![ch] + chars.skip(c));
                assert(chars.insert(c, ch).len() != chars.len());
            }
            lemma_fits_single(chars, ch);
        },
        EditKey::Backspace => {
            if c > 0 {
                assert(chars.remove(c - 1) =~= chars.take(c - 1) + chars.skip(c));
                assert(chars.remove(c - 1).len() != chars.len());
            }
        },
        EditKey::Delete => {
            if c < chars.len() {
                assert(chars.remove(c) =~= chars.take(c) + chars.skip(c + 1));
                assert(chars.remove(c).len() != chars.len());
            }
        },
        _ => {},
    }
}

/// A paste keeps the longest run of leading characters that fits: the first
/// `accepted(base, more)` characters fit beside `base` bytes within the
/// capacity, and one more would not (there is one more only when something
/// was left out).
pub proof fn law_paste_keeps_the_longest_fitting_prefix(base: nat, more: Seq<char>)
    ensures
        accepted(base, more) <= more.len(),
        base <= SECRET_CAPACITY ==> base + encoded_len(more.take(accepted(base, more) as int))
            <= SECRET_CAPACITY,
        accepted(base, more) < more.len() ==> base + encoded_len(
            more.take((accepted(base, more) + 1) as int),
        ) > SECRET_CAPACITY,
    decreases more.len(),
{
    let k = accepted(base, more);
    if more.len() > 0 {
        let w = char_width(more[0]);
        let rest = more.drop_first();
        crate::secret::lemma_encode_single(more[0]);
        if base + w <= SECRET_CAPACITY {
            law_paste_keeps_the_longest_fitting_prefix(base + w, rest);
            let j = accepted(base + w, rest);
            assert(more.take(k as int) =~= seq![more[0]] + rest.take(j as int));
            crate::secret::lemma_encode_append(seq![more[0]], rest.take(j as int));
            if k < more.len() {
                assert(more.take((k + 1) as int) =~= seq![more[0]] + rest.take((j + 1) as int));
                crate::secret::lemma_encode_append(seq![more[0]], rest.take((j + 1) as int));
            }
        } else {
            assert(more.take(0) =~= Seq::<char>::empty());
            assert(encode_utf8(Seq::<char>::empty()) =~= Seq::<u8>::empty());
            assert(more.take(1) =~= seq![more[0]]);
        }
    } else {
        assert(more.take(0) =~= Seq::<char>::empty());
        assert(encode_utf8(Seq::<char>::empty()) =~= Seq::<u8>::empty());
    }
}

} // verus!
