//! VNC authentication: how the key is made of the password, and the response
//! to the challenge.
use vstd::prelude::*;
use crate::zrle::packed::bit_of;

pub mod des;

pub use des::vnc_auth_response;

verus! {

/// The byte with the bits of `byte` in the opposite order.
pub open spec fn reversed(byte: u8) -> u8 {
    (bit_of(byte, 7) * 128 + bit_of(byte, 6) * 64 + bit_of(byte, 5) * 32 + bit_of(byte, 4) * 16
        + bit_of(byte, 3) * 8 + bit_of(byte, 2) * 4 + bit_of(byte, 1) * 2 + bit_of(byte, 0)) as u8
}

/// The key of VNC authentication: the first eight bytes of the password,
/// filled up with zero bytes, the bits of each byte in the opposite order.
pub open spec fn key_of(password: Seq<u8>) -> Seq<u8> {
    Seq::new(
        8,
        |i: int|
            reversed(
                if i < password.len() {
                    password[i]
                } else {
                    0
                },
            ),
    )
}

/// Reversing the bits of a byte twice gives the byte.
pub proof fn lemma_reversed_twice(byte: u8)
    ensures
        reversed(reversed(byte)) == byte,
{
    crate::zrle::packed::lemma_bits_of_byte(
        bit_of(byte, 7),
        bit_of(byte, 6),
        bit_of(byte, 5),
        bit_of(byte, 4),
        bit_of(byte, 3),
        bit_of(byte, 2),
        bit_of(byte, 1),
        bit_of(byte, 0),
    );
    let n = byte as int;
    assert(n == (n / 2) * 2 + n % 2);
    assert(n / 2 == (n / 4) * 2 + (n / 2) % 2);
    assert(n / 4 == (n / 8) * 2 + (n / 4) % 2);
    assert(n / 8 == (n / 16) * 2 + (n / 8) % 2);
    assert(n / 16 == (n / 32) * 2 + (n / 16) % 2);
    assert(n / 32 == (n / 64) * 2 + (n / 32) % 2);
    assert(n / 64 == (n / 128) * 2 + (n / 64) % 2);
    assert(n / 128 < 2);
}

/// The byte with the bits of `byte` in the opposite order.
pub fn reverse_bits(byte: u8) -> (r: u8)
    ensures
        r == reversed(byte),
{
    (byte / 128) % 2 + (byte / 64) % 2 * 2 + (byte / 32) % 2 * 4 + (byte / 16) % 2 * 8 + (byte / 8)
        % 2 * 16 + (byte / 4) % 2 * 32 + (byte / 2) % 2 * 64 + byte % 2 * 128
}

/// The key of VNC authentication for `password`.
pub fn vnc_auth_key(password: &[u8]) -> (key: [u8; 8])
    ensures
        key@ == key_of(password@),
{
    let mut key = [0u8; 8];
    let mut i: usize = 0;
    while i < 8
        invariant
            i <= 8,
            forall|k: int| 0 <= k < i ==> key@[k] == key_of(password@)[k],
        decreases 8 - i,
    {
        let byte = if i < password.len() {
            password[i]
        } else {
            0
        };
        key[i] = reverse_bits(byte);
        i = i + 1;
    }
    assert(key@ =~= key_of(password@));
    key
}

} // verus!
