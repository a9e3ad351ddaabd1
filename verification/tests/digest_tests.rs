use ova_verify::digest::{sha1_hex_chunked, EntryDigest, BUFFER_SIZE, MAX_MESSAGE_LEN};

#[test]
fn sha1_of_known_messages() {
    assert_eq!(sha1_hex_chunked(b"", BUFFER_SIZE), "da39a3ee5e6b4b0d3255bfef95601890afd80709");
    assert_eq!(sha1_hex_chunked(b"abc", BUFFER_SIZE), "a9993e364706816aba3e25717850c26c9cd0d89d");
    assert_eq!(
        sha1_hex_chunked(b"hello world", BUFFER_SIZE),
        "2aae6c35c94fcfb415dbe95f408b9ce91ee846ed"
    );
    assert_eq!(
        sha1_hex_chunked(b"abcdbcdecdefdefgefghfghighijhijkijkljklmklmnlmnomnopnopq", 7),
        "84983e441c3bd26ebaae4aa1f95129e5e54670f1"
    );
}

#[test]
fn sha1_does_not_depend_on_the_chunk_size() {
    let data = vec![b'a'; 1_000_000];
    let expected = "34aa973cd4c4daa4f61eeb2bdbad27316534016f";
    assert_eq!(sha1_hex_chunked(&data, 1), expected);
    assert_eq!(sha1_hex_chunked(&data, 8192), expected);
    assert_eq!(sha1_hex_chunked(&data, data.len()), expected);
    assert_eq!(sha1_hex_chunked(&data, 0), expected);
    assert_eq!(sha1_hex_chunked(&data, 63), expected);
    assert_eq!(sha1_hex_chunked(&data, usize::MAX), expected);
}

#[test]
fn sha1_of_nothing_with_any_chunk_size() {
    let expected = "da39a3ee5e6b4b0d3255bfef95601890afd80709";
    assert_eq!(sha1_hex_chunked(&[], 0), expected);
    assert_eq!(sha1_hex_chunked(&[], 1), expected);
    assert_eq!(sha1_hex_chunked(&[], 8192), expected);
}

#[test]
fn sha1_tells_a_changed_byte() {
    assert_eq!(
        sha1_hex_chunked(b"The quick brown fox jumps over the lazy dog", BUFFER_SIZE),
        "2fd4e1c67a2d28fced849ee1bb76e7391b93eb12"
    );
    assert_eq!(
        sha1_hex_chunked(b"The quick brown fox jumps over the lazy cog", BUFFER_SIZE),
        "de9f2c7fd25e1b3afad3e85a0bd17d9b100db4b3"
    );
}

#[test]
fn entry_digest_absorbs_piece_by_piece() {
    let mut d = EntryDigest::new();
    assert_eq!(d.len(), 0);
    d.update(b"hello");
    d.update(b"");
    d.update(b" ");
    d.update(b"world");
    assert_eq!(d.len(), 11);
    assert_eq!(d.finish(), "2aae6c35c94fcfb415dbe95f408b9ce91ee846ed");
}

#[test]
fn entry_digest_fresh_state_is_the_digest_of_nothing() {
    assert_eq!(EntryDigest::new().finish(), "da39a3ee5e6b4b0d3255bfef95601890afd80709");
}

#[test]
fn entry_digest_try_update_absorbs_within_the_limit() {
    let mut d = EntryDigest::new();
    assert!(d.try_update(b"ab"));
    assert!(d.try_update(b"c"));
    assert_eq!(d.len(), 3);
    assert_eq!(d.finish(), "a9993e364706816aba3e25717850c26c9cd0d89d");
}

#[test]
fn entry_digests_are_independent() {
    let mut first = EntryDigest::new();
    let mut second = EntryDigest::new();
    first.update(b"abc");
    second.update(b"hello world");
    assert_eq!(first.finish(), "a9993e364706816aba3e25717850c26c9cd0d89d");
    assert_eq!(second.finish(), "2aae6c35c94fcfb415dbe95f408b9ce91ee846ed");
}

#[test]
fn digest_is_forty_lower_case_hex_digits() {
    let hex = sha1_hex_chunked(b"anything at all", 4);
    assert_eq!(hex.len(), 40);
    assert!(hex.chars().all(|c| c.is_ascii_digit() || ('a'..='f').contains(&c)));
}

#[test]
fn limits() {
    assert_eq!(BUFFER_SIZE, 8192);
    assert_eq!(MAX_MESSAGE_LEN, (1u64 << 61) - 1);
}
