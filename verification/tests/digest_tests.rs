use clcache_server::digest::{digest_hex_of_bytes, to_hex_lower, DigestJob};

#[test]
fn hex_rendering_exact() {
    assert_eq!(to_hex_lower(&[]), b"".to_vec());
    assert_eq!(to_hex_lower(&[0x00, 0xff, 0x1a]), b"00ff1a".to_vec());
    assert_eq!(to_hex_lower(&[0x09, 0x0a, 0xf0]), b"090af0".to_vec());
}

#[test]
fn digest_known_vector_empty() {
    assert_eq!(
        digest_hex_of_bytes(b""),
        b"d41d8cd98f00b204e9800998ecf8427e".to_vec()
    );
}

#[test]
fn digest_known_vector_abc() {
    assert_eq!(
        digest_hex_of_bytes(b"abc"),
        b"900150983cd24fb0d6963f7d28e17f72".to_vec()
    );
}

#[test]
fn digest_known_vector_foo_bar() {
    assert_eq!(
        digest_hex_of_bytes(b"foo"),
        b"acbd18db4cc2f85cedef654fccc4a4d8".to_vec()
    );
    assert_eq!(
        digest_hex_of_bytes(b"bar"),
        b"37b51d194a7513e45b56f6524f2d51f2".to_vec()
    );
}

#[test]
fn digest_streaming_matches_one_shot() {
    let mut job = DigestJob::new();
    job.update(b"hello ");
    job.update(b"world");
    let streamed = job.finish();
    let whole = digest_hex_of_bytes(b"hello world");
    assert_eq!(streamed, whole);
    assert_eq!(streamed, b"5eb63bbbe01eeed093cb22bb8f5acdc3".to_vec());
}

#[test]
fn digest_is_32_lowercase_hex() {
    let d = digest_hex_of_bytes(b"anything at all");
    assert_eq!(d.len(), 32);
    for b in d {
        assert!((b'0'..=b'9').contains(&b) || (b'a'..=b'f').contains(&b));
    }
}
