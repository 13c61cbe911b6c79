use rime::secret::{window_offset, window_size, SecretBuf, SECRET_CAPACITY};

#[test]
fn starts_empty() {
    let secret = SecretBuf::new();
    assert_eq!(secret.len(), 0);
    assert!(secret.is_empty());
    assert!(secret.secret_bytes().is_empty());
}

#[test]
fn insert_and_read_back() {
    let mut secret = SecretBuf::new();
    for (i, ch) in "hunter2".chars().enumerate() {
        assert!(secret.insert(i, ch));
    }
    assert_eq!(secret.len(), 7);
    assert_eq!(secret.secret_bytes(), b"hunter2");
}

#[test]
fn insert_at_cursor_positions() {
    let mut secret = SecretBuf::new();
    assert!(secret.insert(0, 'c'));
    assert!(secret.insert(0, 'a')); // front
    assert!(secret.insert(1, 'b')); // middle
    assert!(secret.insert(99, 'd')); // past the end clamps to append
    assert_eq!(secret.secret_bytes(), b"abcd");
}

#[test]
fn multibyte_characters_count_as_one() {
    let mut secret = SecretBuf::new();
    assert!(secret.push_str("pässwörd"));
    assert_eq!(secret.len(), 8); // characters, not bytes
    assert_eq!(secret.secret_bytes().len(), 10); // two 2-byte chars
    assert!(secret.remove(1)); // remove the 2-byte 'ä'
    assert_eq!(secret.len(), 7);
    assert_eq!(secret.secret_bytes(), "psswörd".as_bytes());
}

#[test]
fn remove_out_of_range_is_rejected() {
    let mut secret = SecretBuf::new();
    assert!(!secret.remove(0));
    assert!(secret.push_str("ab"));
    assert!(!secret.remove(2));
    assert_eq!(secret.len(), 2);
}

#[test]
fn appends_beyond_capacity_are_rejected() {
    let mut secret = SecretBuf::new();
    let fill = "x".repeat(SECRET_CAPACITY);
    assert!(secret.push_str(&fill));
    // Full: a char insert and a further append both bounce, leaving the
    // contents untouched.
    assert!(!secret.insert(0, 'y'));
    assert!(!secret.push_str("y"));
    assert_eq!(secret.len(), SECRET_CAPACITY);
    assert!(secret.secret_bytes().iter().all(|&b| b == b'x'));
}

#[test]
fn multibyte_insert_that_does_not_fit_is_rejected() {
    let mut secret = SecretBuf::new();
    assert!(secret.push_str(&"x".repeat(SECRET_CAPACITY - 1)));
    // One byte free; a 2-byte char must not squeeze in.
    assert!(!secret.insert(0, 'ä'));
    assert!(secret.insert(0, 'y'));
    assert_eq!(secret.len(), SECRET_CAPACITY);
}

#[test]
fn push_str_is_all_or_nothing() {
    let mut secret = SecretBuf::new();
    assert!(secret.push_str(&"x".repeat(SECRET_CAPACITY - 2)));
    assert!(!secret.push_str("abc"));
    assert_eq!(secret.secret_bytes().len(), SECRET_CAPACITY - 2);
}

#[test]
fn never_reallocates() {
    let mut secret = SecretBuf::new();
    let base = secret.secret_bytes().as_ptr();
    assert!(secret.push_str(&"x".repeat(SECRET_CAPACITY)));
    // The storage address is unchanged after filling to capacity: the buffer
    // grew in place (it was pre-allocated), so no secret bytes were copied to
    // a new allocation by a realloc.
    assert_eq!(secret.secret_bytes().as_ptr(), base);
    secret.clear();
    assert_eq!(secret.secret_bytes().as_ptr(), base);
}

#[test]
fn clear_zeroizes_the_storage() {
    let mut secret = SecretBuf::new();
    assert!(secret.push_str("hunter2"));
    secret.clear();
    assert_eq!(secret.len(), 0);
    assert!(secret.is_empty());
    // Inspect the whole backing buffer (not just the occupied prefix, which is
    // now empty): every byte of the old secret must be gone.
    assert!(secret.bytes().iter().all(|&b| b == 0));
}

#[test]
fn remove_zeroizes_the_vacated_tail() {
    let mut secret = SecretBuf::new();
    assert!(secret.push_str("abc"));
    assert!(secret.remove(0));
    assert_eq!(secret.secret_bytes(), b"bc");
    // The stale third byte left behind by the shift must be wiped.
    assert_eq!(secret.bytes()[2], 0);
}

#[test]
fn drop_wipes_via_the_same_path_clear_uses() {
    // Zeroize-on-drop itself frees the memory, so it cannot be observed from
    // safe code; instead verify the wipe the drop runs (a whole-storage wipe)
    // in place.
    let mut buf = SecretBuf::default();
    assert!(buf.push_str("secret"));
    buf.wipe(); // what Drop runs
    assert!(buf.storage().iter().all(|&b| b == 0));
}

#[test]
fn the_locked_window_is_page_aligned_and_page_sized() {
    // mlock/munlock act on whole pages, so the window must be page-aligned and
    // a whole number of pages; otherwise locking would reach into a neighbour's
    // allocation and unlocking on drop would strip its protection.
    let page = region::page::size();
    let secret = SecretBuf::new();
    let window = secret.bytes();
    assert_eq!(window.as_ptr().align_offset(page), 0);
    assert_eq!(window.len() % page, 0);
    assert!(window.len() >= SECRET_CAPACITY);
    // The window lies wholly inside the backing allocation.
    let storage = secret.storage();
    let start = window.as_ptr() as usize - storage.as_ptr() as usize;
    assert!(start + window.len() <= storage.len());
}

#[test]
fn distinct_secrets_never_share_a_locked_page() {
    let page = region::page::size();
    let buffers: Vec<_> = (0..8).map(|_| SecretBuf::new()).collect();
    let mut windows: Vec<(usize, usize)> = buffers
        .iter()
        .map(|b| (b.bytes().as_ptr() as usize, b.bytes().len()))
        .collect();
    windows.sort_unstable();
    for pair in windows.windows(2) {
        let ((start, len), (next, _)) = (pair[0], pair[1]);
        assert!(
            start + len <= next,
            "windows overlap: {start:#x}+{len:#x} runs into {next:#x}"
        );
        assert_eq!(start % page, 0);
    }
}

#[test]
fn byte_offsets_count_whole_characters() {
    let mut secret = SecretBuf::new();
    assert!(secret.push_str("aé€😀z"));
    assert_eq!(secret.byte_of_char(0), 0);
    assert_eq!(secret.byte_of_char(1), 1);
    assert_eq!(secret.byte_of_char(2), 3);
    assert_eq!(secret.byte_of_char(3), 6);
    assert_eq!(secret.byte_of_char(4), 10);
    assert_eq!(secret.byte_of_char(5), 11);
    assert_eq!(secret.byte_of_char(99), 11);
    assert_eq!(secret.byte_len(), 11);
}

#[test]
fn storage_outside_the_secret_stays_zero_across_edits() {
    let mut secret = SecretBuf::new();
    assert!(secret.push_str("päss"));
    assert!(secret.insert(2, '€'));
    assert!(secret.remove(0));
    assert!(secret.remove(3));
    assert_eq!(secret.secret_bytes(), "ä€s".as_bytes());
    let used = secret.byte_len();
    assert!(secret.bytes()[used..].iter().all(|&b| b == 0));
}

#[test]
fn removing_what_was_just_inserted_restores_the_secret() {
    let mut buf = SecretBuf::new();
    assert!(buf.push_str("pässwörd"));
    for index in [0, 3, 8, 50] {
        assert!(buf.insert(index, '€'));
        let at = index.min(buf.len() - 1);
        assert!(buf.remove(at));
        assert_eq!(buf.secret_bytes(), "pässwörd".as_bytes());
    }
    assert!(buf.storage().iter().filter(|&&b| b != 0).count() == "pässwörd".len());
}

#[test]
fn wiping_zeroes_everything_and_empties_the_buffer() {
    let mut buf = SecretBuf::new();
    assert!(buf.push_str("hunter2"));
    buf.wipe();
    assert!(buf.is_empty());
    assert_eq!(buf.byte_len(), 0);
    assert!(buf.storage().iter().all(|&b| b == 0));
    assert!(buf.push_str("ok"));
    assert_eq!(buf.secret_bytes(), b"ok");
}

#[test]
fn the_window_is_the_capacity_rounded_up_to_whole_pages() {
    assert_eq!(window_size(4096), Some(4096));
    assert_eq!(window_size(16384), Some(16384));
    assert_eq!(window_size(1024), Some(4096));
    assert_eq!(window_size(3000), None, "not a power of two");
    assert_eq!(window_size(0), None);
    assert_eq!(window_size(1usize << (usize::BITS - 1)), None, "slack plus window overflows");
    assert_eq!(window_offset(12, 4096), 12);
    assert_eq!(window_offset(4096, 4096), 0);
}
