//! AES-128 decryption of firmware payloads, block by block (ECB).

use aes::cipher::{BlockCipherDecrypt, KeyInit};
use vstd::prelude::*;

verus! {

/// The number of bytes in the whole 16-byte blocks of `n` bytes.
pub open spec fn whole_blocks(n: int) -> int {
    n / 16 * 16
}

/// One 16-byte block decrypted with AES-128.
pub uninterp spec fn aes128_block(key: Seq<u8>, block: Seq<u8>) -> Seq<u8>;

/// `data` with each of its whole blocks decrypted on its own; what follows the last
/// whole block stays as it is.
pub open spec fn ecb_decrypt(key: Seq<u8>, data: Seq<u8>) -> Seq<u8> {
    Seq::new(
        data.len(),
        |i: int|
            if i < whole_blocks(data.len() as int) {
                aes128_block(key, data.subrange(i / 16 * 16, i / 16 * 16 + 16))[i % 16]
            } else {
                data[i]
            },
    )
}

/// Calls `BlockCipherDecrypt::decrypt_blocks_inout` of `aes::Aes128` on the whole blocks
/// of `data`, in place. Claimed: every block is replaced by its decryption, which
/// depends on the key and on that block alone, and the bytes after the last whole
/// block are not touched.
#[verifier::external_body]
fn aes128_decrypt_blocks(key: &[u8], data: &mut [u8])
    requires
        key@.len() == 16,
    ensures
        final(data)@.len() == old(data)@.len(),
        forall|i: int|
            0 <= i < whole_blocks(old(data)@.len() as int) ==> #[trigger] final(data)@[i]
                == aes128_block(key@, old(data)@.subrange(i / 16 * 16, i / 16 * 16 + 16))[i % 16],
        forall|i: int|
            whole_blocks(old(data)@.len() as int) <= i < old(data)@.len()
                ==> #[trigger] final(data)@[i] == old(data)@[i],
{
    let cipher = aes::Aes128::new_from_slice(key).unwrap();
    let (blocks, _) = aes::cipher::inout::InOutBuf::from(data).into_chunks();
    cipher.decrypt_blocks_inout(blocks);
}

/// Decrypts the whole blocks of `data` in place.
pub fn decrypt_in_place(key: &[u8], data: &mut [u8])
    requires
        key@.len() == 16,
    ensures
        final(data)@ == ecb_decrypt(key@, old(data)@),
{
    aes128_decrypt_blocks(key, data);
    assert(data@ =~= ecb_decrypt(key@, old(data)@));
}

/// Decryption does not depend on how a download is cut: where the first part is a
/// number of whole blocks, decrypting two parts one after the other is decrypting
/// them together.
pub proof fn ecb_decrypt_concat(key: Seq<u8>, a: Seq<u8>, b: Seq<u8>)
    requires
        a.len() % 16 == 0,
    ensures
        ecb_decrypt(key, a + b) == ecb_decrypt(key, a) + ecb_decrypt(key, b),
{
    let whole = ecb_decrypt(key, a + b);
    let parts = ecb_decrypt(key, a) + ecb_decrypt(key, b);
    let n = a.len() as int;
    assert forall|i: int| 0 <= i < whole.len() implies whole[i] == parts[i] by {
        if i < n {
            assert((a + b).subrange(i / 16 * 16, i / 16 * 16 + 16) =~= a.subrange(
                i / 16 * 16,
                i / 16 * 16 + 16,
            ));
        } else {
            let j = i - n;
            if i < whole_blocks((a + b).len() as int) {
                assert(i / 16 * 16 == n + j / 16 * 16);
                assert((a + b).subrange(i / 16 * 16, i / 16 * 16 + 16) =~= b.subrange(
                    j / 16 * 16,
                    j / 16 * 16 + 16,
                ));
            }
        }
    }
    assert(whole =~= parts);
}

/// What is not a whole block of 16 bytes is less than one block.
pub proof fn whole_blocks_are_most(n: int)
    requires
        0 <= n,
    ensures
        whole_blocks(n) % 16 == 0,
        0 <= whole_blocks(n) <= n < whole_blocks(n) + 16,
{
}

/// One block is decrypted with AES-128, and less than one block is not decrypted. With
/// [`ecb_decrypt_concat`] this says what becomes of bytes of any number.
pub proof fn one_block_is_decrypted(key: Seq<u8>, data: Seq<u8>, i: int)
    requires
        data.len() <= 16,
        0 <= i < data.len(),
    ensures
        ecb_decrypt(key, data).len() == data.len(),
        ecb_decrypt(key, data)[i] == if data.len() == 16 {
            aes128_block(key, data)[i]
        } else {
            data[i]
        },
{
    if data.len() == 16 {
        assert(data.subrange(0, 16) =~= data);
    }
}

} // verus!
