use sha2::Digest;
use vstd::prelude::*;

verus! {

/// Little-endian encoding of a 32-bit counter, as it is fed into the
/// master-strengthening rounds.
pub open spec fn le32(i: u32) -> Seq<u8> {
    seq![
        (i & 0xff) as u8,
        ((i >> 8) & 0xff) as u8,
        ((i >> 16) & 0xff) as u8,
        ((i >> 24) & 0xff) as u8,
    ]
}

/// Big-endian encoding of a 32-bit counter, as it is fed into the
/// domain-binding rounds.
pub open spec fn be32(i: u32) -> Seq<u8> {
    seq![
        ((i >> 24) & 0xff) as u8,
        ((i >> 16) & 0xff) as u8,
        ((i >> 8) & 0xff) as u8,
        (i & 0xff) as u8,
    ]
}

fn le32_bytes(i: u32) -> (r: Vec<u8>)
    ensures
        r@ == le32(i),
{
    let mut v: Vec<u8> = Vec::new();
    v.push((i & 0xff) as u8);
    v.push(((i >> 8) & 0xff) as u8);
    v.push(((i >> 16) & 0xff) as u8);
    v.push(((i >> 24) & 0xff) as u8);
    proof {
        assert(v@ =~= le32(i));
    }
    v
}

fn be32_bytes(i: u32) -> (r: Vec<u8>)
    ensures
        r@ == be32(i),
{
    let mut v: Vec<u8> = Vec::new();
    v.push(((i >> 24) & 0xff) as u8);
    v.push(((i >> 16) & 0xff) as u8);
    v.push(((i >> 8) & 0xff) as u8);
    v.push((i & 0xff) as u8);
    proof {
        assert(v@ =~= be32(i));
    }
    v
}

fn append_bytes(dst: &mut Vec<u8>, src: &[u8])
    ensures
        final(dst)@ == old(dst)@ + src@,
{
    let mut i: usize = 0;
    while i < src.len()
        invariant
            i <= src@.len(),
            dst@ == old(dst)@ + src@.take(i as int),
        decreases src@.len() - i,
    {
        let b = src[i];
        dst.push(b);
        proof {
            assert(src@.take(i + 1) =~= src@.take(i as int).push(src@[i as int]));
        }
        i = i + 1;
    }
    proof {
        assert(src@.take(src@.len() as int) =~= src@);
    }
}

/// The fixed 64-byte application salt. It must stay byte-identical across
/// implementations: every derived password depends on it.
pub open spec fn salt() -> Seq<u8> {
    seq![
        0x8eu8, 0xbf, 0x78, 0x79, 0xc9, 0xe9, 0xac, 0xe7, 0x91, 0xb6, 0xb4, 0xc9, 0x2b, 0x9b,
        0x50, 0xe7, 0x60, 0xe5, 0x76, 0x01, 0x73, 0x59, 0x49, 0x9c, 0x74, 0x18, 0x4e, 0x01,
        0x38, 0xcc, 0x7c, 0x69, 0x03, 0x46, 0x9d, 0xc1, 0xbd, 0xf0, 0x28, 0x99, 0xab, 0xa9,
        0xda, 0xf2, 0x82, 0x0b, 0xbe, 0x3d, 0xc4, 0x8c, 0xea, 0x56, 0x03, 0x35, 0x6c, 0xa3,
        0x05, 0x86, 0x59, 0x9e, 0xec, 0xe8, 0xbe, 0xa4,
    ]
}

fn salt_bytes() -> (r: Vec<u8>)
    ensures
        r@ == salt(),
{
    let v: Vec<u8> = vec![
        0x8eu8, 0xbf, 0x78, 0x79, 0xc9, 0xe9, 0xac, 0xe7, 0x91, 0xb6, 0xb4, 0xc9, 0x2b, 0x9b,
        0x50, 0xe7, 0x60, 0xe5, 0x76, 0x01, 0x73, 0x59, 0x49, 0x9c, 0x74, 0x18, 0x4e, 0x01,
        0x38, 0xcc, 0x7c, 0x69, 0x03, 0x46, 0x9d, 0xc1, 0xbd, 0xf0, 0x28, 0x99, 0xab, 0xa9,
        0xda, 0xf2, 0x82, 0x0b, 0xbe, 0x3d, 0xc4, 0x8c, 0xea, 0x56, 0x03, 0x35, 0x6c, 0xa3,
        0x05, 0x86, 0x59, 0x9e, 0xec, 0xe8, 0xbe, 0xa4,
    ];
    proof {
        assert(v@ =~= salt());
    }
    v
}

/// The SHA-512 digest of a byte sequence, named but not written out: the
/// trusted wrapper below is the only place that says what it is.
pub uninterp spec fn sha512_of(data: Seq<u8>) -> Seq<u8>;

/// Relies on sha2::Sha512::digest: the SHA-512 digest of the input bytes,
/// a 64-byte value that depends on the input alone.
#[verifier::external_body]
fn sha512(data: &[u8]) -> (r: Vec<u8>)
    ensures
        r@ == sha512_of(data@),
        r@.len() == 64,
{
    sha2::Sha512::digest(data).to_vec()
}

/// Number of key-strengthening rounds in each of the two phases.
pub const ROUNDS: u32 = 25000;

/// The master-strengthening chain after `r` rounds: round `i` rehashes the
/// running hash together with a fresh salt derived from the little-endian
/// round counter and with the master bytes.
pub open spec fn stretched(master: Seq<u8>, r: nat) -> Seq<u8>
    decreases r,
{
    if r == 0 {
        sha512_of(salt() + master)
    } else {
        let round_salt = sha512_of(salt() + le32((r - 1) as u32));
        sha512_of(round_salt + stretched(master, (r - 1) as nat) + master)
    }
}

/// The domain-binding chain after `r` rounds, on top of a fully stretched
/// master hash `mh`: round `i` uses a big-endian counter and the opposite
/// counter/salt order, an intentional domain separation from the first phase.
pub open spec fn domain_bound(master: Seq<u8>, domain: Seq<u8>, mh: Seq<u8>, r: nat) -> Seq<u8>
    decreases r,
{
    if r == 0 {
        sha512_of(salt() + domain + master)
    } else {
        let round_salt = sha512_of(be32((r - 1) as u32) + salt());
        sha512_of(round_salt + domain_bound(master, domain, mh, (r - 1) as nat) + mh + master + domain)
    }
}

/// What the whole derivation returns: the domain-binding chain run for the
/// full round count over the fully stretched master hash.
pub open spec fn secure_hash_spec(master: Seq<u8>, domain: Seq<u8>) -> Seq<u8> {
    domain_bound(master, domain, stretched(master, ROUNDS as nat), ROUNDS as nat)
}

/// The slow, salted, iterated-hash core: maps the master and domain bytes to
/// a 64-byte secret digest. Every byte sequence is accepted, the empty ones
/// included, and the exact concatenation order and counter endianness of the
/// two phases is part of the compatibility contract.
pub fn secure_hash(master: &[u8], domain: &[u8]) -> (r: Vec<u8>)
    ensures
        r@ == secure_hash_spec(master@, domain@),
        r@.len() == 64,
{
    let fixed_salt = salt_bytes();
    // Phase 1: strengthen the master password.
    let mut msg: Vec<u8> = Vec::new();
    append_bytes(&mut msg, fixed_salt.as_slice());
    append_bytes(&mut msg, master);
    let mut master_hash = sha512(msg.as_slice());
    proof {
        assert(salt() + master@ =~= msg@);
    }
    let mut i: u32 = 0;
    while i < ROUNDS
        invariant
            i <= ROUNDS,
            fixed_salt@ == salt(),
            master_hash@ == stretched(master@, i as nat),
            master_hash@.len() == 64,
        decreases ROUNDS - i,
    {
        let counter = le32_bytes(i);
        let mut salt_msg: Vec<u8> = Vec::new();
        append_bytes(&mut salt_msg, fixed_salt.as_slice());
        append_bytes(&mut salt_msg, counter.as_slice());
        let round_salt = sha512(salt_msg.as_slice());
        let mut round_msg: Vec<u8> = Vec::new();
        append_bytes(&mut round_msg, round_salt.as_slice());
        append_bytes(&mut round_msg, master_hash.as_slice());
        append_bytes(&mut round_msg, master);
        let next = sha512(round_msg.as_slice());
        proof {
            assert(salt_msg@ =~= salt() + le32(i));
            assert(round_msg@ =~= sha512_of(salt() + le32(i)) + stretched(master@, i as nat)
                + master@);
            assert(next@ == stretched(master@, (i + 1) as nat));
        }
        master_hash = next;
        i = i + 1;
    }
    // Phase 2: bind the domain to the strengthened master hash.
    let mut msg2: Vec<u8> = Vec::new();
    append_bytes(&mut msg2, fixed_salt.as_slice());
    append_bytes(&mut msg2, domain);
    append_bytes(&mut msg2, master);
    let mut final_hash = sha512(msg2.as_slice());
    proof {
        assert(salt() + domain@ + master@ =~= msg2@);
    }
    let ghost mh = master_hash@;
    let mut j: u32 = 0;
    while j < ROUNDS
        invariant
            j <= ROUNDS,
            fixed_salt@ == salt(),
            master_hash@ == mh,
            final_hash@ == domain_bound(master@, domain@, mh, j as nat),
            final_hash@.len() == 64,
        decreases ROUNDS - j,
    {
        let counter = be32_bytes(j);
        let mut salt_msg: Vec<u8> = Vec::new();
        append_bytes(&mut salt_msg, counter.as_slice());
        append_bytes(&mut salt_msg, fixed_salt.as_slice());
        let round_salt = sha512(salt_msg.as_slice());
        let mut round_msg: Vec<u8> = Vec::new();
        append_bytes(&mut round_msg, round_salt.as_slice());
        append_bytes(&mut round_msg, final_hash.as_slice());
        append_bytes(&mut round_msg, master_hash.as_slice());
        append_bytes(&mut round_msg, master);
        append_bytes(&mut round_msg, domain);
        let next = sha512(round_msg.as_slice());
        proof {
            assert(salt_msg@ =~= be32(j) + salt());
            assert(round_msg@ =~= sha512_of(be32(j) + salt())
                + domain_bound(master@, domain@, mh, j as nat) + mh + master@ + domain@);
            assert(next@ == domain_bound(master@, domain@, mh, (j + 1) as nat));
        }
        final_hash = next;
        j = j + 1;
    }
    final_hash
}

} // verus!
