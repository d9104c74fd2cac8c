//! A byte-wise XOR stream cipher whose 16-bit key is rewritten after every byte.
use vstd::prelude::*;

verus! {

/// The key that every independent record is encrypted from.
pub const INITIAL_KEY: u16 = 0x0787;

/// The constant or-ed into the key after every byte.
pub const KEY_MIX: u16 = 0x482D;

/// The byte that the key contributes to the next output byte.
pub open spec fn high_byte(key: u16) -> u8 {
    (key >> 8u16) as u8
}

/// The key that follows `key` once `fed` has been folded into it.
pub open spec fn next_key(key: u16, fed: u8) -> u16 {
    ((fed as u16) & key) | 0x482Du16
}

/// The key in force before byte `n` of `input` is processed, starting from `key`.
pub open spec fn key_after(key: u16, input: Seq<u8>, encrypt: bool, n: nat) -> u16
    decreases n,
{
    if n == 0 || n > input.len() {
        key
    } else {
        let k = key_after(key, input, encrypt, (n - 1) as nat);
        let out = input[n - 1] ^ high_byte(k);
        next_key(k, if encrypt { out } else { input[n - 1] })
    }
}

/// The bytes produced by running the cipher from `key` over `input`.
pub open spec fn cipher(key: u16, input: Seq<u8>, encrypt: bool) -> Seq<u8> {
    Seq::new(input.len(), |i: int| input[i] ^ high_byte(key_after(key, input, encrypt, i as nat)))
}

/// Decrypting with the key schedule of an encryption from the same key follows
/// the same keys, byte for byte.
proof fn lemma_keys_agree(key: u16, input: Seq<u8>, n: nat)
    requires
        n <= input.len(),
    ensures
        key_after(key, cipher(key, input, true), false, n) == key_after(key, input, true, n),
    decreases n,
{
    if n > 0 {
        lemma_keys_agree(key, input, (n - 1) as nat);
    }
}

/// Running the cipher in decrypt mode over what encrypt mode produced, from the
/// same initial key, gives back the original bytes.
pub proof fn lemma_round_trip(key: u16, input: Seq<u8>)
    ensures
        cipher(key, cipher(key, input, true), false) == input,
{
    let c = cipher(key, input, true);
    assert forall|i: int| 0 <= i < input.len() implies #[trigger] cipher(key, c, false)[i]
        == input[i] by {
        lemma_keys_agree(key, input, i as nat);
        let h = high_byte(key_after(key, input, true, i as nat));
        let b = input[i];
        assert((b ^ h) ^ h == b) by (bit_vector);
    }
    assert(cipher(key, c, false) =~= input);
}

/// Runs the cipher over `bytes`, starting from `*key`, and leaves in `*key` the
/// key that follows the last byte.
pub fn encrypt_decrypt_bytes(key: &mut u16, bytes: &[u8], encrypt: bool) -> (r: Vec<u8>)
    ensures
        r@ == cipher(*old(key), bytes@, encrypt),
        *final(key) == key_after(*old(key), bytes@, encrypt, bytes@.len()),
        r@.len() == bytes@.len(),
{
    let ghost k0 = *key;
    let mut result: Vec<u8> = Vec::with_capacity(bytes.len());
    let mut i: usize = 0;
    while i < bytes.len()
        invariant
            i <= bytes@.len(),
            *key == key_after(k0, bytes@, encrypt, i as nat),
            result@ == cipher(k0, bytes@, encrypt).take(i as int),
        decreases bytes@.len() - i,
    {
        let byte = bytes[i];
        let out = byte ^ ((*key >> 8u16) as u8);
        result.push(out);
        let fed = if encrypt { out } else { byte };
        *key = ((fed as u16) & *key) | KEY_MIX;
        i = i + 1;
        assert(result@ =~= cipher(k0, bytes@, encrypt).take(i as int));
    }
    assert(result@ =~= cipher(k0, bytes@, encrypt));
    result
}

} // verus!
