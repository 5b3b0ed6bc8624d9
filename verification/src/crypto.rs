//! The login credential block transform: DES in CBC mode with an all-zero key
//! and IV, applied to the data zero-padded to whole 8-byte blocks.
use vstd::prelude::*;
use des::cipher::block_padding::NoPadding;
use des::cipher::{BlockDecryptMut, BlockEncryptMut, KeyIvInit};
use des::Des;
use crate::bytes::push_slice;

verus! {

/// The bytes that DES-CBC (crates `des` and `cbc`) makes of the whole blocks
/// `blocks` under `key` and `iv`.
pub uninterp spec fn des_cbc_encrypt(key: Seq<u8>, iv: Seq<u8>, blocks: Seq<u8>) -> Seq<u8>;

/// The bytes that DES-CBC decryption makes of the whole blocks `blocks`
/// under `key` and `iv`.
pub uninterp spec fn des_cbc_decrypt(key: Seq<u8>, iv: Seq<u8>, blocks: Seq<u8>) -> Seq<u8>;

/// Encrypts `buf[..msg_len]` in place with `cbc::Encryptor<Des>` and
/// `encrypt_padded_mut::<NoPadding>`. Trusted. Claimed from the `cipher` and
/// `inout` sources: without padding the call succeeds exactly when `msg_len`
/// is a multiple of the 8-byte block, and then replaces those bytes with
/// their encryption, named `des_cbc_encrypt`, leaving the rest; otherwise it
/// fails before touching the buffer. The length never changes.
#[verifier::external_body]
fn cbc_des_encrypt_in_place(key: &[u8; 8], iv: &[u8; 8], buf: &mut Vec<u8>, msg_len: usize) -> (ok: bool)
    requires
        msg_len <= old(buf)@.len(),
    ensures
        final(buf)@.len() == old(buf)@.len(),
        ok == (msg_len % 8 == 0),
        ok ==> final(buf)@ == des_cbc_encrypt(key@, iv@, old(buf)@.subrange(0, msg_len as int))
            + old(buf)@.skip(msg_len as int),
        !ok ==> final(buf)@ == old(buf)@,
{
    let encryptor = cbc::Encryptor::<Des>::new(&(*key).into(), &(*iv).into());
    encryptor.encrypt_padded_mut::<NoPadding>(buf.as_mut_slice(), msg_len).is_ok()
}

/// Decrypts `buf` in place with `cbc::Decryptor<Des>` and
/// `decrypt_padded_mut::<NoPadding>`. Trusted. Claimed from the `cipher`
/// source: the call succeeds exactly when the length is a multiple of the
/// 8-byte block, and then replaces the bytes with their decryption, named
/// `des_cbc_decrypt`; otherwise it fails before touching the buffer. The
/// length never changes, as the work is done in place. Also
/// claimed, as the defining property of the cipher: decryption under the key
/// and IV of an encryption gives back the encrypted blocks.
#[verifier::external_body]
fn cbc_des_decrypt_in_place(key: &[u8; 8], iv: &[u8; 8], buf: &mut Vec<u8>) -> (ok: bool)
    ensures
        final(buf)@.len() == old(buf)@.len(),
        ok == (old(buf)@.len() % 8 == 0),
        ok ==> final(buf)@ == des_cbc_decrypt(key@, iv@, old(buf)@),
        ok ==> forall|p: Seq<u8>|
            p.len() % 8 == 0 && old(buf)@ == #[trigger] des_cbc_encrypt(key@, iv@, p) ==> final(buf)@ == p,
        !ok ==> final(buf)@ == old(buf)@,
{
    let decryptor = cbc::Decryptor::<Des>::new(&(*key).into(), &(*iv).into());
    decryptor.decrypt_padded_mut::<NoPadding>(buf.as_mut_slice()).is_ok()
}

/// Eight zero bytes: the key and the IV of the credential transform.
pub open spec fn zero_block() -> Seq<u8> {
    Seq::new(8, |i: int| 0u8)
}

/// `data` followed by zeros up to the next multiple of 8 bytes.
pub open spec fn zero_pad(data: Seq<u8>) -> Seq<u8> {
    let rem = data.len() % 8;
    if rem == 0 {
        data
    } else {
        data + Seq::new((8 - rem) as nat, |i: int| 0u8)
    }
}

/// The zero padding of any data fills whole 8-byte blocks and keeps the data
/// as its prefix.
pub proof fn lemma_zero_pad(data: Seq<u8>)
    ensures
        zero_pad(data).len() % 8 == 0,
        zero_pad(data).len() < data.len() + 8,
        zero_pad(data).subrange(0, data.len() as int) == data,
        forall|k: int| data.len() <= k < zero_pad(data).len() ==> zero_pad(data)[k] == 0,
{
    let rem = data.len() % 8;
    if rem != 0 {
        assert(zero_pad(data).subrange(0, data.len() as int) =~= data);
    } else {
        assert(data.subrange(0, data.len() as int) =~= data);
    }
}

/// Encrypts `data` with DES-CBC under an all-zero key and IV after
/// zero-padding it to whole 8-byte blocks.
pub fn encrypt_null_des(data: &[u8]) -> (r: Vec<u8>)
    requires
        data@.len() + 8 <= usize::MAX,
    ensures
        r@.len() == zero_pad(data@).len(),
        r@ == des_cbc_encrypt(zero_block(), zero_block(), zero_pad(data@)),
{
    let key = [0u8; 8];
    let iv = [0u8; 8];
    let padded_len = if data.len() % 8 == 0 {
        data.len()
    } else {
        ((data.len() / 8) + 1) * 8
    };
    let mut buffer: Vec<u8> = Vec::new();
    push_slice(&mut buffer, data);
    let mut i = data.len();
    while i < padded_len
        invariant
            data@.len() <= i <= padded_len,
            buffer@ == data@ + Seq::new((i - data@.len()) as nat, |j: int| 0u8),
        decreases padded_len - i,
    {
        buffer.push(0u8);
        i = i + 1;
        assert(buffer@ =~= data@ + Seq::new((i - data@.len()) as nat, |j: int| 0u8));
    }
    proof {
        assert(key@ =~= zero_block());
        assert(iv@ =~= zero_block());
        if data@.len() % 8 == 0 {
            assert(buffer@ =~= data@);
        } else {
            assert(buffer@ =~= zero_pad(data@));
        }
        lemma_zero_pad(data@);
    }
    let ghost before = buffer@;
    let _ok = cbc_des_encrypt_in_place(&key, &iv, &mut buffer, padded_len);
    proof {
        assert(before.subrange(0, padded_len as int) =~= before);
        assert(before.skip(padded_len as int) =~= Seq::<u8>::empty());
        assert(buffer@ =~= des_cbc_encrypt(zero_block(), zero_block(), zero_pad(data@)));
    }
    buffer
}

/// Decrypts `data` with DES-CBC under an all-zero key and IV; empty when the
/// length is not a multiple of 8. Decrypting the encryption of whole blocks
/// gives the blocks back.
pub fn decrypt_null_des(data: &[u8]) -> (r: Vec<u8>)
    ensures
        data@.len() % 8 != 0 ==> r@ == Seq::<u8>::empty(),
        data@.len() % 8 == 0 ==> r@ == des_cbc_decrypt(zero_block(), zero_block(), data@),
        data@.len() % 8 == 0 ==> r@.len() == data@.len(),
        data@.len() % 8 == 0 ==> forall|p: Seq<u8>|
            p.len() % 8 == 0 && data@ == #[trigger] des_cbc_encrypt(zero_block(), zero_block(), p)
                ==> r@ == p,
{
    let key = [0u8; 8];
    let iv = [0u8; 8];
    proof {
        assert(key@ =~= zero_block());
        assert(iv@ =~= zero_block());
    }
    let mut buffer: Vec<u8> = Vec::new();
    push_slice(&mut buffer, data);
    if buffer.len() % 8 != 0 {
        return Vec::new();
    }
    let _ok = cbc_des_decrypt_in_place(&key, &iv, &mut buffer);
    buffer
}

} // verus!
