//! Small string helpers shared by the models: case folding (std's, named),
//! building a `String` from ASCII bytes or from characters, and joining two
//! strings.
use vstd::prelude::*;
use vstd::utf8::*;

verus! {

/// What `str::to_lowercase` returns for a string of these characters (the
/// Unicode lowercase mapping, applied character by character, with its
/// context-dependent rules).
pub uninterp spec fn lowercase(s: Seq<char>) -> Seq<char>;

/// `str::to_lowercase`: the lowercase form of `s`, a pure function of the
/// characters of `s`.
#[verifier::external_body]
pub(crate) fn to_lower(s: &str) -> (r: String)
    ensures
        r@ == lowercase(s@),
{
    s.to_lowercase()
}

/// `String::from_utf8`: a `String` owning `bytes` when they are valid UTF-8
/// (holding the characters they decode to), `None` otherwise.
#[verifier::external_body]
pub(crate) fn string_from_utf8(bytes: Vec<u8>) -> (r: Option<String>)
    ensures
        r is Some <==> valid_utf8(bytes@),
        r matches Some(s) ==> s@ == decode_utf8(bytes@),
{
    String::from_utf8(bytes).ok()
}

/// The characters whose codes are the given ASCII bytes.
pub open spec fn ascii_chars(bytes: Seq<u8>) -> Seq<char> {
    Seq::new(bytes.len(), |i: int| bytes[i] as char)
}

/// Bytes below 0x80 are valid UTF-8 and decode to the characters with the
/// same codes.
pub proof fn lemma_ascii_bytes(bytes: Seq<u8>)
    requires
        forall|i: int| 0 <= i < bytes.len() ==> #[trigger] bytes[i] < 0x80,
    ensures
        valid_utf8(bytes),
        decode_utf8(bytes) == ascii_chars(bytes),
{
    let cs = ascii_chars(bytes);
    assert(is_ascii_chars(cs));
    is_ascii_chars_encode_utf8(cs);
    assert(encode_utf8(cs) =~= bytes) by {
        assert forall|i: int| 0 <= i < bytes.len() implies encode_utf8(cs)[i] == bytes[i] by {
            assert(cs[i] as u8 == encode_utf8(cs)[i]);
            assert(cs[i] == bytes[i] as char);
            let b = bytes[i];
            assert((b as char) as u8 == b);
        }
    }
    encode_utf8_valid_utf8(cs);
    encode_utf8_decode_utf8(cs);
}

/// Build a `String` from ASCII bytes.
pub fn ascii_string(bytes: Vec<u8>) -> (r: String)
    requires
        forall|i: int| 0 <= i < bytes@.len() ==> #[trigger] bytes@[i] < 0x80,
    ensures
        r@ == ascii_chars(bytes@),
{
    let ghost b = bytes@;
    proof {
        lemma_ascii_bytes(b);
    }
    match string_from_utf8(bytes) {
        Some(s) => s,
        None => {
            proof {
                assert(false);
            }
            String::new()
        },
    }
}

/// The bytes of `v` followed by those of `extra`.
fn push_all(v: &mut Vec<u8>, extra: &[u8])
    ensures
        final(v)@ == old(v)@ + extra@,
{
    let mut i: usize = 0;
    while i < extra.len()
        invariant
            i <= extra@.len(),
            v@ == old(v)@ + extra@.take(i as int),
        decreases extra@.len() - i,
    {
        v.push(extra[i]);
        proof {
            assert(extra@.take(i + 1) =~= extra@.take(i as int).push(extra@[i as int]));
        }
        i = i + 1;
    }
    proof {
        assert(extra@.take(extra@.len() as int) =~= extra@);
    }
}

/// The characters of `a` followed by those of `b`, as a new `String`.
pub fn join(a: &str, b: &str) -> (r: String)
    ensures
        r@ == a@ + b@,
{
    let mut v: Vec<u8> = Vec::new();
    push_all(&mut v, a.as_bytes());
    push_all(&mut v, b.as_bytes());
    proof {
        assert(v@ =~= encode_utf8(a@) + encode_utf8(b@));
        crate::secret::lemma_encode_append(a@, b@);
        encode_utf8_valid_utf8(a@ + b@);
        encode_utf8_decode_utf8(a@ + b@);
    }
    match string_from_utf8(v) {
        Some(s) => s,
        None => {
            proof {
                assert(false);
            }
            String::new()
        },
    }
}

/// The first `n` characters of `chars`, as a new `String`.
pub fn string_of_chars(chars: &[char], n: usize) -> (r: String)
    requires
        n <= chars@.len(),
    ensures
        r@ == chars@.take(n as int),
{
    let mut v: Vec<u8> = Vec::new();
    let mut i: usize = 0;
    proof {
        assert(chars@.take(0) =~= Seq::<char>::empty());
    }
    while i < n
        invariant
            i <= n <= chars@.len(),
            v@ == encode_utf8(chars@.take(i as int)),
        decreases n - i,
    {
        let (bytes, width) = crate::secret::encode_char(chars[i]);
        let ghost before = v@;
        let mut j: usize = 0;
        while j < width
            invariant
                j <= width <= 4,
                v@ == before + bytes@.take(j as int),
            decreases width - j,
        {
            v.push(bytes[j]);
            proof {
                assert(bytes@.take(j + 1) =~= bytes@.take(j as int).push(bytes@[j as int]));
            }
            j = j + 1;
        }
        proof {
            let c = chars@[i as int];
            assert(chars@.take(i + 1) =~= chars@.take(i as int) + seq![c]);
            crate::secret::lemma_encode_append(chars@.take(i as int), seq![c]);
            crate::secret::lemma_encode_single(c);
        }
        i = i + 1;
    }
    proof {
        encode_utf8_valid_utf8(chars@.take(n as int));
        encode_utf8_decode_utf8(chars@.take(n as int));
    }
    match string_from_utf8(v) {
        Some(s) => s,
        None => {
            proof {
                assert(false);
            }
            String::new()
        },
    }
}

} // verus!
