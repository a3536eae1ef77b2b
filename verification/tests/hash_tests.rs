use pazzfraze::secure_hash;

/// Pins the exact byte-concatenation order and counter endianness of the two
/// derivation phases to a known-answer vector: any deviation in the
/// construction silently changes every derived password.
#[test]
fn digest_known_answer() {
    let d = secure_hash(b"correct horse", b"example.com");
    let expected: [u8; 64] = [
        0xfd, 0x6d, 0x29, 0x3a, 0x40, 0xeb, 0x20, 0x0a, 0xb2, 0xfc, 0x0c, 0x5f, 0x46, 0x7b,
        0xc8, 0xec, 0x71, 0xd7, 0xb0, 0x7a, 0xb7, 0xa8, 0x80, 0xd4, 0x19, 0xde, 0x6f, 0x8c,
        0x3e, 0xe3, 0x5a, 0x5b, 0x24, 0xbe, 0xcb, 0xbc, 0x1a, 0x5b, 0x30, 0xd9, 0x9e, 0x5d,
        0x5c, 0xca, 0x26, 0xaa, 0x7a, 0xcb, 0x08, 0x34, 0xa1, 0xd8, 0xf4, 0x77, 0x44, 0x1d,
        0x92, 0x34, 0xa1, 0x97, 0x92, 0x49, 0xa7, 0xd0,
    ];
    assert_eq!(d.as_slice(), expected.as_slice());
}

/// Empty master and domain are accepted and give the pinned digest prefix.
#[test]
fn digest_accepts_empty_inputs() {
    let d = secure_hash(b"", b"");
    assert_eq!(d.len(), 64);
    assert_eq!(&d[..8], &[0x32, 0xeb, 0x9f, 0x8d, 0xdb, 0xad, 0x0c, 0x7f]);
}

/// Changing one byte of the domain changes the digest.
#[test]
fn digest_is_domain_sensitive() {
    let base = secure_hash(b"master", b"example.com");
    let other = secure_hash(b"master", b"example.con");
    let third = secure_hash(b"master", b"Example.com");
    assert_ne!(base, other);
    assert_ne!(base, third);
    assert_ne!(other, third);
}
