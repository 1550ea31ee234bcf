//! HMAC-SHA1, the keyed hash under the one-time passwords.
//!
//! SHA-1 itself is computed by the `sha1_smol` crate. Its digest has a name here,
//! [`sha1_digest`], and no definition: the contracts say how the keyed hash is built
//! from it, not what it is.

use sha1_smol::Sha1;
use vstd::prelude::*;

verus! {

/// The block size of SHA-1 in bytes.
pub const BLOCK_SIZE: usize = 64;

/// The length of a SHA-1 digest in bytes.
pub const DIGEST_SIZE: usize = 20;

/// The SHA-1 digest of a message, as `sha1_smol` computes it.
pub uninterp spec fn sha1_digest(message: Seq<u8>) -> Seq<u8>;

/// Trusted: `Sha1::from(message).digest().bytes()` of `sha1_smol` is the digest of the
/// message. The crate feeds the whole message to a fresh state, pads it and gives the
/// twenty bytes of the final state; it reads nothing but the message.
#[verifier::external_body]
fn sha1(message: &[u8]) -> (digest: [u8; 20])
    ensures
        digest@ == sha1_digest(message@),
{
    Sha1::from(message).digest().bytes()
}

/// The key as one block: a key longer than a block is replaced by its digest, and
/// what is short of a block is filled with zeros.
pub open spec fn key_block(secret: Seq<u8>) -> Seq<u8> {
    let key = if secret.len() > BLOCK_SIZE {
        sha1_digest(secret)
    } else {
        secret
    };
    Seq::new(
        BLOCK_SIZE as nat,
        |i: int|
            if i < key.len() {
                key[i]
            } else {
                0u8
            },
    )
}

/// A block with every byte combined with `pad` by exclusive or.
pub open spec fn masked(block: Seq<u8>, pad: u8) -> Seq<u8> {
    Seq::new(BLOCK_SIZE as nat, |i: int| block[i] ^ pad)
}

/// The keyed hash of a message: the digest of the outer pad followed by the digest of
/// the inner pad followed by the message.
pub open spec fn hmac_digest(secret: Seq<u8>, message: Seq<u8>) -> Seq<u8> {
    sha1_digest(
        masked(key_block(secret), 0x5c) + sha1_digest(masked(key_block(secret), 0x36) + message),
    )
}

/// The key block masked with `pad`, followed by `tail`.
fn masked_then(key: &Vec<u8>, pad: u8, tail: &[u8]) -> (out: Vec<u8>)
    requires
        key@.len() == BLOCK_SIZE,
    ensures
        out@ == masked(key@, pad) + tail@,
{
    let mut out: Vec<u8> = Vec::new();
    let mut i: usize = 0;
    while i < BLOCK_SIZE
        invariant
            i <= BLOCK_SIZE,
            key@.len() == BLOCK_SIZE,
            out@.len() == i,
            forall|j: int| 0 <= j < i ==> out@[j] == key@[j] ^ pad,
        decreases BLOCK_SIZE - i,
    {
        out.push(key[i] ^ pad);
        i += 1;
    }
    assert(out@ =~= masked(key@, pad));
    out.extend_from_slice(tail);
    out
}

/// The first `len` bytes of `source`, filled with zeros to one block.
fn zero_filled(source: &[u8], len: usize) -> (key: Vec<u8>)
    requires
        len <= source@.len(),
        len <= BLOCK_SIZE,
    ensures
        key@.len() == BLOCK_SIZE,
        forall|i: int| 0 <= i < len ==> key@[i] == source@[i],
        forall|i: int| len <= i < BLOCK_SIZE ==> key@[i] == 0,
{
    let mut key: Vec<u8> = Vec::new();
    let mut i: usize = 0;
    while i < BLOCK_SIZE
        invariant
            i <= BLOCK_SIZE,
            len <= source@.len(),
            key@.len() == i,
            forall|j: int| 0 <= j < i && j < len ==> key@[j] == source@[j],
            forall|j: int| len <= j < i ==> key@[j] == 0,
        decreases BLOCK_SIZE - i,
    {
        if i < len {
            key.push(source[i]);
        } else {
            key.push(0);
        }
        i += 1;
    }
    key
}

/// HMAC-SHA1 of `data` under `secret`.
pub fn hmac(secret: &[u8], data: &[u8]) -> (mac: [u8; 20])
    ensures
        mac@ == hmac_digest(secret@, data@),
{
    let key = if secret.len() > BLOCK_SIZE {
        let digest = sha1(secret);
        zero_filled(digest.as_slice(), DIGEST_SIZE)
    } else {
        zero_filled(secret, secret.len())
    };
    assert(key@ =~= key_block(secret@));
    let inner = masked_then(&key, 0x36, data);
    let stage = sha1(inner.as_slice());
    let outer = masked_then(&key, 0x5c, stage.as_slice());
    sha1(outer.as_slice())
}

} // verus!
