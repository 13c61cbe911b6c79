//! The fixed-capacity home of a secret: a byte buffer that never grows, keeps
//! exactly the UTF-8 encoding of the secret's characters in a window of it, and
//! holds zero in every byte outside that occupied prefix (so an edit never leaves
//! a stale copy of secret bytes behind).
use vstd::prelude::*;
use vstd::utf8::*;

verus! {

broadcast use vstd::seq::group_seq_axioms;

/// The fixed capacity of a secret buffer, in bytes (UTF-8). Appends beyond it
/// are rejected rather than growing the buffer.
pub const SECRET_CAPACITY: usize = 4096;

#[verifier::external_type_specification]
#[verifier::external_body]
pub struct ExLockGuard(region::LockGuard);

/// The operating system's page size, as `region::page::size` reports it. The
/// value comes from the machine (it is read once and cached by `region`), so
/// nothing is promised of it here.
#[verifier::external_body]
fn os_page_size() -> usize {
    region::page::size()
}

/// How far the start of `storage` must advance to reach an address that is a
/// multiple of `align`: `<*const u8>::align_offset`. It depends on where the
/// allocator placed the buffer, so nothing is promised of the value. The std
/// function panics unless `align` is a power of two, which `requires` excludes.
#[verifier::external_body]
fn align_offset_of(storage: &Vec<u8>, align: usize) -> usize
    requires
        align > 0,
        align & ((align - 1) as usize) == 0,
{
    storage.as_ptr().align_offset(align)
}

/// Locks the `len` bytes of `storage` starting at `offset` into RAM with
/// `region::lock`, which rounds the range out to whole pages of the size that
/// `region::page::size` caches. Whether the OS grants the lock is outside the
/// program, so the result may be `None` for any input; `region` returns its
/// error for a zero `len` (excluded here). The callers only lock after
/// `os_page_size` returned a nonzero size, the same cached value `region` divides
/// by.
#[verifier::external_body]
fn lock_range(storage: &Vec<u8>, offset: usize, len: usize) -> Option<region::LockGuard>
    requires
        len > 0,
        offset + len <= storage.len(),
{
    region::lock(storage[offset..].as_ptr(), len).ok()
}

/// Overwrites `storage[start..]` with zeroes through `zeroize`'s slice impl
/// (volatile writes the optimizer may not drop). The bytes before `start` and
/// the length are untouched. The slice impl's only check (that the length fits
/// an `isize`) holds for every `Vec<u8>`, so the call neither panics nor opens
/// invariants.
#[verifier::external_body]
fn zeroize_from(storage: &mut Vec<u8>, start: usize)
    requires
        start <= old(storage).len(),
    ensures
        final(storage).len() == old(storage).len(),
        forall|i: int|
            0 <= i < final(storage).len() ==> #[trigger] final(storage)@[i] == if start <= i {
                0u8
            } else {
                old(storage)@[i]
            },
    opens_invariants none
    no_unwind
{
    zeroize::Zeroize::zeroize(&mut storage[start..]);
}

/// The bytes the UTF-8 encoding of `c` takes.
pub open spec fn char_width(c: char) -> nat {
    encode_scalar(c as u32).len()
}

/// The byte offset of character `index` in the encoding of `chars` (the
/// length of the encoding of the first `index` characters).
pub open spec fn byte_offset(chars: Seq<char>, index: int) -> nat {
    encode_utf8(chars.take(index)).len()
}

/// The number of bytes needed for the encoding of `chars`.
pub open spec fn encoded_len(chars: Seq<char>) -> nat {
    encode_utf8(chars).len()
}

/// The character index `index` clamped to the end of `chars`.
pub open spec fn clamp_index(chars: Seq<char>, index: int) -> int {
    if index < chars.len() {
        index
    } else {
        chars.len() as int
    }
}

/// The encoding of a concatenation is the concatenation of the encodings.
pub proof fn lemma_encode_append(a: Seq<char>, b: Seq<char>)
    ensures
        encode_utf8(a + b) == encode_utf8(a) + encode_utf8(b),
    decreases a.len(),
{
    if a.len() == 0 {
        assert(a + b =~= b);
    } else {
        assert((a + b).drop_first() =~= a.drop_first() + b);
        lemma_encode_append(a.drop_first(), b);
        assert(encode_utf8(a + b) =~= encode_scalar(a[0] as u32) + encode_utf8(a.drop_first() + b));
    }
}

/// Every character takes between one and four bytes.
pub proof fn lemma_char_width(c: char)
    ensures
        1 <= char_width(c) <= 4,
{
}

/// An encoding is at least as long as the characters it encodes.
pub proof fn lemma_encoded_len_ge(chars: Seq<char>)
    ensures
        chars.len() <= encoded_len(chars),
    decreases chars.len(),
{
    if chars.len() > 0 {
        lemma_encoded_len_ge(chars.drop_first());
    }
}

/// Splitting the characters at `i` splits the encoding at `byte_offset(chars, i)`.
pub proof fn lemma_encode_split(chars: Seq<char>, i: int)
    requires
        0 <= i <= chars.len(),
    ensures
        encode_utf8(chars) == encode_utf8(chars.take(i)) + encode_utf8(chars.skip(i)),
{
    assert(chars =~= chars.take(i) + chars.skip(i));
    lemma_encode_append(chars.take(i), chars.skip(i));
}

/// The encoding of the characters after `i` starts with the encoding of
/// character `i`.
pub proof fn lemma_encode_at(chars: Seq<char>, i: int)
    requires
        0 <= i < chars.len(),
    ensures
        encode_utf8(chars.skip(i)) == encode_scalar(chars[i] as u32) + encode_utf8(
            chars.skip(i + 1),
        ),
        byte_offset(chars, i + 1) == byte_offset(chars, i) + char_width(chars[i]),
{
    assert(chars.skip(i).drop_first() =~= chars.skip(i + 1));
    assert(chars.take(i + 1) =~= chars.take(i).push(chars[i]));
    assert(chars.take(i).push(chars[i]) =~= chars.take(i) + seq![chars[i]]);
    lemma_encode_append(chars.take(i), seq![chars[i]]);
    lemma_encode_single(chars[i]);
}

/// The encoding of a single character is its scalar encoding.
pub proof fn lemma_encode_single(c: char)
    ensures
        encode_utf8(seq![c]) == encode_scalar(c as u32),
{
    let s = seq![c];
    assert(s.drop_first() =~= Seq::<char>::empty());
    assert(encode_utf8(Seq::<char>::empty()) =~= Seq::<u8>::empty());
    assert(s[0] == c);
    assert(encode_utf8(s) =~= encode_scalar(c as u32) + encode_utf8(s.drop_first()));
    assert(encode_scalar(c as u32) + Seq::<u8>::empty() =~= encode_scalar(c as u32));
}

/// The width of a character's encoding is read off its leading byte.
proof fn lemma_width_from_leading_byte(c: char)
    ensures
        ({
            let b = encode_scalar(c as u32)[0];
            &&& is_leading_byte_width_1(b) ==> char_width(c) == 1
            &&& is_leading_byte_width_2(b) ==> char_width(c) == 2
            &&& is_leading_byte_width_3(b) ==> char_width(c) == 3
            &&& !is_leading_byte_width_1(b) && !is_leading_byte_width_2(b)
                && !is_leading_byte_width_3(b) ==> char_width(c) == 4
        }),
{
    let chars = seq![c];
    encode_utf8_first_scalar(chars);
    lemma_encode_single(c);
}

/// The width of the character whose encoding starts with `lead`.
fn width_of_leading_byte(lead: u8) -> (w: usize)
    ensures
        is_leading_byte_width_1(lead) ==> w == 1,
        is_leading_byte_width_2(lead) ==> w == 2,
        is_leading_byte_width_3(lead) ==> w == 3,
        !is_leading_byte_width_1(lead) && !is_leading_byte_width_2(lead)
            && !is_leading_byte_width_3(lead) ==> w == 4,
{
    if lead <= 0x7f {
        1
    } else if 0xc0 <= lead && lead <= 0xdf {
        2
    } else if 0xe0 <= lead && lead <= 0xef {
        3
    } else {
        4
    }
}

/// The UTF-8 encoding of `c`: the bytes in the first `len` slots of the array.
pub fn encode_char(c: char) -> (r: ([u8; 4], usize))
    ensures
        r.1 == char_width(c),
        r.0@.take(r.1 as int) == encode_scalar(c as u32),
{
    let u = c as u32;
    proof {
        char_is_scalar(c);
    }
    if u <= 0x7f {
        let r = [(u & 0x7F) as u8, 0, 0, 0];
        assert(r@.take(1) =~= encode_scalar(u));
        (r, 1)
    } else if u <= 0x7ff {
        let r = [0xC0 | ((u >> 6) & 0x1F) as u8, 0x80 | (u & 0x3F) as u8, 0, 0];
        assert(r@.take(2) =~= encode_scalar(u));
        (r, 2)
    } else if u <= 0xffff {
        let r = [
            0xE0 | ((u >> 12) & 0x0F) as u8,
            0x80 | ((u >> 6) & 0x3F) as u8,
            0x80 | (u & 0x3F) as u8,
            0,
        ];
        assert(r@.take(3) =~= encode_scalar(u));
        (r, 3)
    } else {
        let r = [
            0xF0 | ((u >> 18) & 0x7) as u8,
            0x80 | ((u >> 12) & 0x3F) as u8,
            0x80 | ((u >> 6) & 0x3F) as u8,
            0x80 | (u & 0x3F) as u8,
        ];
        assert(r@.take(4) =~= encode_scalar(u));
        (r, 4)
    }
}

/// Whether `page` is a usable page size: a power of two.
pub open spec fn is_page_size(page: usize) -> bool {
    page > 0 && page & ((page - 1) as usize) == 0
}

/// The window for a page size: `SECRET_CAPACITY` rounded up to a whole
/// number of pages, provided the page size is a power of two and the window
/// plus one page of slack fits a `usize`; `None` otherwise.
pub open spec fn window_size_spec(page: int) -> Option<int> {
    if page <= 0 || page > usize::MAX || !is_page_size(page as usize) {
        None
    } else {
        let cap = SECRET_CAPACITY as int;
        let w = if cap % page == 0 {
            cap
        } else {
            cap + (page - cap % page)
        };
        if page + w > usize::MAX {
            None
        } else {
            Some(w)
        }
    }
}

/// The window for page size `page` (see [`window_size_spec`]); the result is
/// a multiple of the page and at least the capacity.
pub fn window_size(page: usize) -> (r: Option<usize>)
    ensures
        match window_size_spec(page as int) {
            None => r is None,
            Some(w) => r == Some(w as usize),
        },
        r matches Some(w) ==> w % page == 0 && w >= SECRET_CAPACITY && w < SECRET_CAPACITY + page
            && page + w <= usize::MAX,
{
    if page == 0 || page & (page - 1) != 0 {
        return None;
    }
    let rem = SECRET_CAPACITY % page;
    let w = if rem == 0 {
        SECRET_CAPACITY
    } else {
        match SECRET_CAPACITY.checked_add(page - rem) {
            Some(w) => w,
            None => return None,
        }
    };
    proof {
        let cap = SECRET_CAPACITY as int;
        let p = page as int;
        let q = cap / p;
        vstd::arithmetic::div_mod::lemma_fundamental_div_mod(cap, p);
        assert(cap == p * q + rem);
        if rem != 0 {
            assert(w == (q + 1) * p) by (nonlinear_arith)
                requires
                    cap == p * q + rem,
                    w == cap + (p - rem),
            ;
            vstd::arithmetic::div_mod::lemma_mod_multiples_basic(q + 1, p);
        } else {
            assert(w == q * p) by (nonlinear_arith)
                requires
                    cap == p * q + rem,
                    rem == 0,
                    w == cap,
            ;
            vstd::arithmetic::div_mod::lemma_mod_multiples_basic(q, p);
        }
        assert((w as int) % p == 0);
    }
    match page.checked_add(w) {
        Some(_) => Some(w),
        None => None,
    }
}

/// Where the window starts in storage whose address is `found` bytes short
/// of a page boundary: there, when that is within the slack page; else at
/// the start.
pub fn window_offset(found: usize, page: usize) -> (r: usize)
    ensures
        r == if found < page {
            found
        } else {
            0
        },
{
    if found < page {
        found
    } else {
        0
    }
}

/// The single app-owned home of a secret. The storage is allocated once and
/// never grows; the secret's UTF-8 bytes sit at the start of a window inside
/// it, and every other byte of the storage is zero.
pub struct SecretBuf {
    /// Keeps the window's pages locked into RAM while it lives (`None` when
    /// the OS refused the lock).
    guard: Option<region::LockGuard>,
    /// The backing allocation: the window plus up to one page of slack.
    storage: Vec<u8>,
    /// Where the window starts within `storage`.
    offset: usize,
    /// The window's length: at least `SECRET_CAPACITY`.
    window: usize,
    /// Occupied prefix of the window, in bytes.
    byte_len: usize,
    /// Occupied prefix of the window, in characters.
    char_len: usize,
    /// The characters the occupied prefix encodes.
    chars: Ghost<Seq<char>>,
    /// The range asked to be locked, as its start, its length and the page
    /// size it was laid out for; `None` when no lock was asked for.
    lock_asked: Ghost<Option<(int, int, int)>>,
}

impl View for SecretBuf {
    type V = Seq<char>;

    closed spec fn view(&self) -> Seq<char> {
        self.chars@
    }
}

impl SecretBuf {
    /// The whole backing storage.
    pub closed spec fn storage_view(&self) -> Seq<u8> {
        self.storage@
    }

    /// Where the window begins in the storage.
    pub closed spec fn window_start(&self) -> int {
        self.offset as int
    }

    /// The window's length.
    pub closed spec fn window_len(&self) -> int {
        self.window as int
    }

    /// The storage range the buffer asked the OS to lock into RAM, as its
    /// start, its length and the page size it was laid out for; `None` when
    /// no lock was asked for (the page size was unusable).
    pub closed spec fn lock_request(&self) -> Option<(int, int, int)> {
        self.lock_asked@
    }

    /// The window sits inside the storage and holds at least the capacity.
    pub closed spec fn layout_ok(&self) -> bool {
        &&& self.offset + self.window <= self.storage@.len()
        &&& self.window >= SECRET_CAPACITY
    }

    /// The buffer's invariant: the occupied prefix of the window is the UTF-8
    /// encoding of the secret, the counters match it, it fits the capacity,
    /// and every storage byte outside it is zero.
    pub closed spec fn wf(&self) -> bool {
        &&& self.layout_ok()
        &&& self.byte_len == encoded_len(self.chars@)
        &&& self.char_len == self.chars@.len()
        &&& self.byte_len <= SECRET_CAPACITY
        &&& self.storage@.subrange(self.offset as int, self.offset + self.byte_len) == encode_utf8(
            self.chars@,
        )
        &&& forall|i: int|
            0 <= i < self.storage@.len() && !(self.offset <= i < self.offset + self.byte_len)
                ==> #[trigger] self.storage@[i] == 0u8
    }

    /// The bytes of the storage that lie outside the occupied prefix of the
    /// window are all zero: no stale secret byte survives an edit.
    pub proof fn law_no_stale_bytes(&self, i: int)
        requires
            self.wf(),
            0 <= i < self.storage_view().len(),
            !(self.window_start() <= i < self.window_start() + encoded_len(self@)),
        ensures
            self.storage_view()[i] == 0u8,
    {
    }

    /// An empty well-formed buffer's storage is all zero.
    proof fn law_no_stale_bytes_all(&self)
        requires
            self.wf(),
            self@ == Seq::<char>::empty(),
        ensures
            forall|i: int|
                0 <= i < self.storage_view().len() ==> #[trigger] self.storage_view()[i] == 0u8,
    {
        assert(encoded_len(self.chars@) == 0) by {
            assert(encode_utf8(Seq::<char>::empty()) =~= Seq::<u8>::empty());
        }
    }

    /// A well-formed buffer holds at most `SECRET_CAPACITY` characters.
    pub proof fn lemma_len_bound(&self)
        requires
            self.wf(),
        ensures
            self@.len() <= encoded_len(self@) <= SECRET_CAPACITY,
    {
        lemma_encoded_len_ge(self.chars@);
    }

    /// An empty buffer over `storage`, whose window starts at `offset`.
    fn empty_over(
        storage: Vec<u8>,
        offset: usize,
        window: usize,
        guard: Option<region::LockGuard>,
        lock_asked: Ghost<Option<(int, int, int)>>,
    ) -> (r: Self)
        requires
            offset + window <= storage.len(),
            window >= SECRET_CAPACITY,
            forall|i: int| 0 <= i < storage.len() ==> #[trigger] storage@[i] == 0u8,
        ensures
            r.wf(),
            r@ == Seq::<char>::empty(),
            r.storage_view().len() == storage.len(),
            r.window_start() == offset,
            r.window_len() == window,
            r.lock_request() == lock_asked@,
    {
        let r = SecretBuf {
            guard,
            storage,
            offset,
            window,
            byte_len: 0,
            char_len: 0,
            chars: Ghost(Seq::empty()),
            lock_asked,
        };
        assert(r.storage@.subrange(offset as int, offset as int) =~= encode_utf8(r.chars@));
        r
    }

    /// A new, empty buffer: one page of slack plus a window of
    /// `SECRET_CAPACITY` rounded up to whole pages ([`window_size`]), the
    /// window starting where the storage's address meets a page boundary
    /// ([`window_offset`]) and locked into RAM when the OS allows it. Should the
    /// page size the OS reports be unusable (see [`window_size_spec`]), the
    /// window is the bare capacity at the start of the storage and no lock is
    /// asked for.
    pub fn new() -> (r: Self)
        ensures
            r.wf(),
            r@ == Seq::<char>::empty(),
            r.window_len() >= SECRET_CAPACITY,
            r.window_start() + r.window_len() <= r.storage_view().len(),
            forall|i: int|
                0 <= i < r.storage_view().len() ==> #[trigger] r.storage_view()[i] == 0u8,
            match r.lock_request() {
                Some((start, len, page)) => {
                    &&& start == r.window_start()
                    &&& len == r.window_len()
                    &&& window_size_spec(page) == Some(len)
                    &&& len % page == 0
                    &&& 0 <= start < page
                    &&& r.storage_view().len() == page + len
                },
                None => r.window_start() == 0 && r.window_len() == SECRET_CAPACITY,
            },
    {
        let page = os_page_size();
        if let Some(window) = window_size(page) {
            let total = page + window;
            let storage: Vec<u8> = vec![0u8; total];
            let found = align_offset_of(&storage, page);
            let offset = window_offset(found, page);
            let guard = lock_range(&storage, offset, window);
            let asked = Ghost(Some((offset as int, window as int, page as int)));
            let r = Self::empty_over(storage, offset, window, guard, asked);
            proof {
                r.law_no_stale_bytes_all();
            }
            return r;
        }
        let storage: Vec<u8> = vec![0u8; SECRET_CAPACITY];
        let r = Self::empty_over(storage, 0, SECRET_CAPACITY, None, Ghost(None));
        proof {
            r.law_no_stale_bytes_all();
        }
        r
    }

    /// The number of characters held.
    pub fn len(&self) -> (r: usize)
        requires
            self.wf(),
        ensures
            r == self@.len(),
            r <= SECRET_CAPACITY,
    {
        proof {
            lemma_encoded_len_ge(self.chars@);
        }
        self.char_len
    }

    /// The number of bytes the secret's encoding takes.
    pub fn byte_len(&self) -> (r: usize)
        requires
            self.wf(),
        ensures
            r == encoded_len(self@),
    {
        self.byte_len
    }

    /// Whether the buffer holds no secret.
    pub fn is_empty(&self) -> (r: bool)
        requires
            self.wf(),
        ensures
            r == (self@.len() == 0),
    {
        proof {
            lemma_encoded_len_ge(self.chars@);
        }
        self.byte_len == 0
    }

    /// The whole window the secret lives in (occupied prefix and zeroed rest).
    pub fn bytes(&self) -> (r: &[u8])
        requires
            self.wf(),
        ensures
            r@ == self.storage_view().subrange(
                self.window_start(),
                self.window_start() + self.window_len(),
            ),
    {
        let n = self.storage.len();
        assert(self.offset + self.window <= n);
        &self.storage.as_slice()[self.offset..self.offset + self.window]
    }

    /// The secret's UTF-8 bytes: the occupied prefix of the window.
    pub fn secret_bytes(&self) -> (r: &[u8])
        requires
            self.wf(),
        ensures
            r@ == encode_utf8(self@),
    {
        let n = self.storage.len();
        assert(self.offset + self.byte_len <= n);
        &self.storage.as_slice()[self.offset..self.offset + self.byte_len]
    }

    /// The whole backing storage.
    pub fn storage(&self) -> (r: &[u8])
        ensures
            r@ == self.storage_view(),
    {
        self.storage.as_slice()
    }

    /// The byte offset of character `index`; the byte length at or past the
    /// end.
    pub fn byte_of_char(&self, index: usize) -> (r: usize)
        requires
            self.wf(),
        ensures
            r == byte_offset(self@, clamp_index(self@, index as int)),
    {
        let ghost chars = self.chars@;
        let target = if index < self.char_len {
            index
        } else {
            self.char_len
        };
        let n = self.storage.len();
        let mut i: usize = 0;
        let mut p: usize = 0;
        while i < target
            invariant
                self.wf(),
                n == self.storage@.len(),
                chars == self.chars@,
                target <= chars.len(),
                i <= target,
                p == byte_offset(chars, i as int),
            decreases target - i,
        {
            proof {
                lemma_encode_split(chars, i as int);
                lemma_encode_at(chars, i as int);
                lemma_width_from_leading_byte(chars[i as int]);
                lemma_encode_split(chars, i + 1);
                assert(self.storage@[self.offset + p] == encode_utf8(chars)[p as int]);
                assert(encode_utf8(chars)[p as int] == encode_scalar(chars[i as int] as u32)[0]);
                lemma_char_width(chars[i as int]);
            }
            let lead = self.storage[self.offset + p];
            let w = width_of_leading_byte(lead);
            p = p + w;
            i = i + 1;
        }
        p
    }
}


impl SecretBuf {
    /// Zeroize the occupied bytes and reset to empty: afterwards every byte
    /// of the storage is zero.
    pub fn clear(&mut self)
        requires
            old(self).wf(),
        ensures
            final(self).wf(),
            final(self)@ == Seq::<char>::empty(),
            forall|i: int|
                0 <= i < final(self).storage_view().len() ==> #[trigger] final(self).storage_view()[i]
                    == 0u8,
            final(self).storage_view().len() == old(self).storage_view().len(),
            final(self).window_start() == old(self).window_start(),
            final(self).window_len() == old(self).window_len(),
    {
        let n = self.storage.len();
        assert(self.offset + self.byte_len <= n);
        let start = self.offset;
        zeroize_from(&mut self.storage, start);
        self.byte_len = 0;
        self.char_len = 0;
        self.chars = Ghost(Seq::empty());
        assert(self.storage@.subrange(start as int, start as int) =~= encode_utf8(self.chars@));
    }

    /// Insert `ch` before character `index` (clamped to the end). Returns
    /// `false`, leaving the buffer unchanged, if the encoded character does not
    /// fit in the remaining capacity.
    pub fn insert(&mut self, index: usize, ch: char) -> (r: bool)
        requires
            old(self).wf(),
        ensures
            final(self).wf(),
            r == (encoded_len(old(self)@) + char_width(ch) <= SECRET_CAPACITY),
            r ==> final(self)@ == old(self)@.insert(clamp_index(old(self)@, index as int), ch),
            !r ==> *final(self) == *old(self),
            final(self).storage_view().len() == old(self).storage_view().len(),
            final(self).window_start() == old(self).window_start(),
            final(self).window_len() == old(self).window_len(),
    {
        let (encoded, width) = encode_char(ch);
        if self.byte_len + width > SECRET_CAPACITY {
            return false;
        }
        let ghost chars = self.chars@;
        let ghost old_storage = self.storage@;
        let ghost at_char = clamp_index(chars, index as int);
        let at = self.byte_of_char(index);
        let byte_len = self.byte_len;
        let offset = self.offset;
        let n = self.storage.len();
        proof {
            lemma_encode_split(chars, at_char);
            lemma_char_width(ch);
            lemma_encoded_len_ge(chars);
        }
        // Shift the tail right within the one allocation.
        let mut k = byte_len;
        while k > at
            invariant
                at <= k <= byte_len,
                byte_len + width <= SECRET_CAPACITY,
                offset + SECRET_CAPACITY <= n,
                n == self.storage@.len(),
                self.offset == offset,
                self.window == old(self).window,
                self.byte_len == byte_len,
                self.char_len == old(self).char_len,
                self.chars == old(self).chars,
                forall|q: int|
                    0 <= q < n ==> #[trigger] self.storage@[q] == if offset + k + width <= q
                        < offset + byte_len + width {
                        old_storage[q - width]
                    } else {
                        old_storage[q]
                    },
            decreases k,
        {
            k = k - 1;
            let b = self.storage[offset + k];
            self.storage.set(offset + k + width, b);
        }
        // Drop the character into the gap.
        let mut j: usize = 0;
        while j < width
            invariant
                j <= width,
                width <= 4,
                at + width <= byte_len + width <= SECRET_CAPACITY,
                offset + SECRET_CAPACITY <= n,
                n == self.storage@.len(),
                self.offset == offset,
                self.window == old(self).window,
                self.byte_len == byte_len,
                self.char_len == old(self).char_len,
                self.chars == old(self).chars,
                encoded@.take(width as int) == encode_scalar(ch as u32),
                forall|q: int|
                    0 <= q < n ==> #[trigger] self.storage@[q] == if offset + at <= q < offset
                        + at + j {
                        encoded@[q - offset - at]
                    } else if offset + at + width <= q < offset + byte_len + width {
                        old_storage[q - width]
                    } else {
                        old_storage[q]
                    },
            decreases width - j,
        {
            self.storage.set(offset + at + j, encoded[j]);
            j = j + 1;
        }
        self.byte_len = byte_len + width;
        self.char_len = self.char_len + 1;
        self.chars = Ghost(chars.insert(at_char, ch));
        proof {
            let new_chars = chars.insert(at_char, ch);
            assert(new_chars =~= chars.take(at_char) + (seq![ch] + chars.skip(at_char)));
            lemma_encode_append(chars.take(at_char), seq![ch] + chars.skip(at_char));
            lemma_encode_append(seq![ch], chars.skip(at_char));
            lemma_encode_single(ch);
            let enc = encode_scalar(ch as u32);
            let left = encode_utf8(chars.take(at_char));
            let right = encode_utf8(chars.skip(at_char));
            assert(encode_utf8(new_chars) =~= left + enc + right);
            let old_prefix = old_storage.subrange(offset as int, offset + byte_len);
            assert(old_prefix == left + right);
            assert(left.len() == at);
            assert(enc.len() == width);
            let sub = self.storage@.subrange(offset as int, offset + byte_len + width);
            assert(sub =~= left + enc + right) by {
                assert forall|q: int| 0 <= q < byte_len + width implies #[trigger] sub[q] == (left
                    + enc + right)[q] by {
                    assert(sub[q] == self.storage@[offset + q]);
                    if q < at {
                        assert(old_storage[offset + q] == old_prefix[q]);
                        assert((left + right)[q] == left[q]);
                    } else if q < at + width {
                        assert(encoded@[q - at] == encoded@.take(width as int)[q - at]);
                    } else {
                        assert(old_storage[offset + q - width] == old_prefix[q - width]);
                        assert((left + right)[q - width] == right[q - width - at]);
                    }
                }
            }
            assert forall|q: int|
                0 <= q < self.storage@.len() && !(self.offset <= q < self.offset
                    + self.byte_len) implies #[trigger] self.storage@[q] == 0u8 by {
                assert(!(offset <= q < offset + byte_len));
            }
        }
        true
    }

    /// Remove the character at `index`. Returns `false`, leaving the buffer
    /// unchanged, if `index` is out of range. The vacated tail bytes are
    /// zeroized.
    pub fn remove(&mut self, index: usize) -> (r: bool)
        requires
            old(self).wf(),
        ensures
            final(self).wf(),
            r == (index < old(self)@.len()),
            r ==> final(self)@ == old(self)@.remove(index as int),
            !r ==> *final(self) == *old(self),
            final(self).storage_view().len() == old(self).storage_view().len(),
            final(self).window_start() == old(self).window_start(),
            final(self).window_len() == old(self).window_len(),
    {
        if index >= self.char_len {
            return false;
        }
        let ghost chars = self.chars@;
        proof {
            lemma_encoded_len_ge(chars);
        }
        let ghost old_storage = self.storage@;
        let at = self.byte_of_char(index);
        let end = self.byte_of_char(index + 1);
        proof {
            lemma_encode_split(chars, index as int);
            lemma_encode_at(chars, index as int);
            lemma_encode_split(chars, index + 1);
            lemma_char_width(chars[index as int]);
        }
        let removed = end - at;
        let byte_len = self.byte_len;
        let offset = self.offset;
        let n = self.storage.len();
        let mut p = at;
        while p < byte_len - removed
            invariant
                at <= p <= byte_len - removed,
                at + removed == end <= byte_len <= SECRET_CAPACITY,
                offset + SECRET_CAPACITY <= n,
                n == self.storage@.len(),
                self.offset == offset,
                self.window == old(self).window,
                self.byte_len == byte_len,
                self.char_len == old(self).char_len,
                self.chars == old(self).chars,
                forall|q: int|
                    0 <= q < n ==> #[trigger] self.storage@[q] == if offset + at <= q < offset
                        + p {
                        old_storage[q + removed]
                    } else {
                        old_storage[q]
                    },
            decreases byte_len - removed - p,
        {
            let b = self.storage[offset + p + removed];
            self.storage.set(offset + p, b);
            p = p + 1;
        }
        let ghost shifted = self.storage@;
        zeroize_from(&mut self.storage, offset + byte_len - removed);
        self.byte_len = byte_len - removed;
        self.char_len = self.char_len - 1;
        self.chars = Ghost(chars.remove(index as int));
        proof {
            let new_chars = chars.remove(index as int);
            assert(new_chars =~= chars.take(index as int) + chars.skip(index + 1));
            lemma_encode_append(chars.take(index as int), chars.skip(index + 1));
            let left = encode_utf8(chars.take(index as int));
            let mid = encode_scalar(chars[index as int] as u32);
            let right = encode_utf8(chars.skip(index + 1));
            assert(encode_utf8(chars) =~= left + (mid + right));
            let old_prefix = old_storage.subrange(offset as int, offset + byte_len);
            assert(old_prefix == left + (mid + right));
            assert(left.len() == at);
            assert(mid.len() == removed);
            let sub = self.storage@.subrange(offset as int, offset + self.byte_len);
            assert(sub =~= left + right) by {
                assert forall|q: int| 0 <= q < self.byte_len implies #[trigger] sub[q] == (left
                    + right)[q] by {
                    assert(sub[q] == self.storage@[offset + q]);
                    if q < at {
                        assert(old_storage[offset + q] == old_prefix[q]);
                    } else {
                        assert(old_storage[offset + q + removed] == old_prefix[q + removed]);
                        assert((left + (mid + right))[q + removed] == right[q - at]);
                    }
                }
            }
            assert forall|q: int|
                0 <= q < self.storage@.len() && !(self.offset <= q < self.offset
                    + self.byte_len) implies #[trigger] self.storage@[q] == 0u8 by {
                if !(offset + byte_len - removed <= q < offset + byte_len) {
                    assert(!(offset <= q < offset + byte_len));
                }
            }
        }
        true
    }

    /// Append `s`, all or nothing: returns `false`, leaving the buffer
    /// unchanged, if its encoding does not fit.
    pub fn push_str(&mut self, s: &str) -> (r: bool)
        requires
            old(self).wf(),
        ensures
            final(self).wf(),
            r == (encoded_len(old(self)@) + encoded_len(s@) <= SECRET_CAPACITY),
            r ==> final(self)@ == old(self)@ + s@,
            !r ==> *final(self) == *old(self),
            final(self).storage_view().len() == old(self).storage_view().len(),
            final(self).window_start() == old(self).window_start(),
            final(self).window_len() == old(self).window_len(),
    {
        let bytes = s.as_bytes();
        let count = bytes.len();
        if count > SECRET_CAPACITY || self.byte_len > SECRET_CAPACITY - count {
            return false;
        }
        let ghost chars = self.chars@;
        let ghost old_storage = self.storage@;
        let byte_len = self.byte_len;
        let offset = self.offset;
        let n = self.storage.len();
        let mut j: usize = 0;
        while j < count
            invariant
                j <= count,
                count == bytes@.len(),
                byte_len + count <= SECRET_CAPACITY,
                offset + SECRET_CAPACITY <= n,
                n == self.storage@.len(),
                self.offset == offset,
                self.window == old(self).window,
                self.byte_len == byte_len,
                self.char_len == old(self).char_len,
                self.chars == old(self).chars,
                forall|q: int|
                    0 <= q < n ==> #[trigger] self.storage@[q] == if offset + byte_len <= q
                        < offset + byte_len + j {
                        bytes@[q - offset - byte_len]
                    } else {
                        old_storage[q]
                    },
            decreases count - j,
        {
            self.storage.set(offset + byte_len + j, bytes[j]);
            j = j + 1;
        }
        proof {
            lemma_encoded_len_ge(s@);
            lemma_encoded_len_ge(chars);
            lemma_encode_append(chars, s@);
        }
        let added = s.unicode_len();
        self.byte_len = byte_len + count;
        self.char_len = self.char_len + added;
        self.chars = Ghost(chars + s@);
        proof {
            assert(self.storage@.subrange(offset as int, offset + self.byte_len) =~= encode_utf8(
                chars,
            ) + bytes@) by {
                assert forall|q: int| 0 <= q < self.byte_len implies #[trigger] self.storage@[offset
                    + q] == (encode_utf8(chars) + bytes@)[q] by {
                    if q < byte_len {
                        assert(old_storage.subrange(offset as int, offset + byte_len)[q]
                            == old_storage[offset + q]);
                        assert((encode_utf8(chars) + bytes@)[q] == encode_utf8(chars)[q]);
                    } else {
                        assert((encode_utf8(chars) + bytes@)[q] == bytes@[q - byte_len]);
                    }
                }
            }
            assert forall|q: int|
                0 <= q < self.storage@.len() && !(self.offset <= q < self.offset
                    + self.byte_len) implies #[trigger] self.storage@[q] == 0u8 by {
                assert(!(offset <= q < offset + byte_len));
            }
        }
        true
    }

    /// Overwrite the whole backing storage with zeroes (what dropping the
    /// buffer does), so bytes from any earlier, longer secret are gone too,
    /// and reset to empty.
    pub fn wipe(&mut self)
        requires
            old(self).wf(),
        ensures
            final(self).wf(),
            final(self)@ == Seq::<char>::empty(),
            final(self).storage_view().len() == old(self).storage_view().len(),
            final(self).window_start() == old(self).window_start(),
            final(self).window_len() == old(self).window_len(),
            forall|i: int|
                0 <= i < final(self).storage_view().len() ==> #[trigger] final(self).storage_view()[i]
                    == 0u8,
    {
        zeroize_from(&mut self.storage, 0);
        self.byte_len = 0;
        self.char_len = 0;
        self.chars = Ghost(Seq::empty());
        assert(self.storage@.subrange(self.offset as int, self.offset as int) =~= encode_utf8(
            self.chars@,
        ));
    }
}

impl Default for SecretBuf {
    /// A new, empty buffer (see [`SecretBuf::new`]).
    fn default() -> (r: Self)
        ensures
            r.wf(),
            r@ == Seq::<char>::empty(),
    {
        Self::new()
    }
}

impl Drop for SecretBuf {
    /// Wipe the whole storage before it is freed.
    fn drop(&mut self)
        ensures
            forall|i: int|
                0 <= i < final(self).storage_view().len() ==> #[trigger] final(self).storage_view()[i]
                    == 0u8,
        opens_invariants none
        no_unwind
    {
        zeroize_from(&mut self.storage, 0);
    }
}
/// Removing the character just inserted gives back the secret as it was:
/// `remove(i)` undoes a successful `insert(i, ch)` at an index within the
/// secret (an index past the end is clamped, and the character lands at the
/// end).
pub proof fn law_insert_then_remove_restores(chars: Seq<char>, index: int, ch: char)
    requires
        0 <= index,
    ensures
        ({
            let at = clamp_index(chars, index);
            chars.insert(at, ch).remove(at) == chars
        }),
{
    let at = clamp_index(chars, index);
    assert(chars.insert(at, ch).remove(at) =~= chars);
}

} // verus!
