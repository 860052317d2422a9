//! File-content encryption: XChaCha20-Poly1305, and DES in ECB mode with
//! PKCS#7 padding.
use vstd::prelude::*;
use crate::primitives::{
    chacha_counter_overflow, chacha_max_blocks, des_decrypt_block, des_decrypt_spec, des_encrypt_block,
    des_encrypt_spec, xchacha_decrypt, xchacha_encrypt, xchacha_open, xchacha_seal,
};

verus! {

/// DES block size in bytes.
pub const DES_BLOCK: usize = 8;

/// How many bytes of a processed file are shown back to the user.
pub const DISPLAY_LIMIT: usize = 512;

/// Why a cipher refused its input.
#[derive(PartialEq, Eq, Structural, Clone, Copy, Debug)]
pub enum CryptoError {
    /// The plaintext is too long for the cipher.
    Encrypting,
    /// The ciphertext is not authentic under the key and nonce, or its length
    /// is one the cipher cannot process.
    Decrypting,
}

/// The file-content operations.
pub struct Crypto;

/// `n` copies of the byte `b`.
pub open spec fn repeat_byte(b: u8, n: nat) -> Seq<u8> {
    Seq::new(n, |i: int| b)
}

/// The PKCS#7 padding length for data of length `len`: from 1 to 8.
pub open spec fn pad_len(len: nat) -> nat {
    (8 - (len % 8)) as nat
}

/// `data` followed by its PKCS#7 padding for 8-byte blocks.
pub open spec fn pkcs7_pad(data: Seq<u8>) -> Seq<u8> {
    data + repeat_byte(pad_len(data.len()) as u8, pad_len(data.len()))
}

/// `data` without its trailing padding, where its last byte `p` is at most 8 and
/// it ends with `p` bytes of value `p`; otherwise `data` unchanged.
pub open spec fn pkcs7_unpad(data: Seq<u8>) -> Seq<u8> {
    if data.len() == 0 {
        data
    } else {
        let p = data.last();
        if p <= 8 && p <= data.len() && data.subrange(data.len() - p, data.len() as int)
            == repeat_byte(p, p as nat) {
            data.subrange(0, data.len() - p)
        } else {
            data
        }
    }
}

/// One DES block operation.
pub open spec fn des_block(key: Seq<u8>, block: Seq<u8>, encrypt: bool) -> Seq<u8> {
    if encrypt {
        des_encrypt_spec(key, block)
    } else {
        des_decrypt_spec(key, block)
    }
}

/// DES in ECB mode: each whole 8-byte block of `data` processed in turn; a
/// shorter tail is dropped.
pub open spec fn des_ecb(key: Seq<u8>, data: Seq<u8>, encrypt: bool) -> Seq<u8>
    decreases data.len(),
{
    if data.len() < 8 {
        Seq::empty()
    } else {
        des_block(key, data.take(8), encrypt) + des_ecb(key, data.skip(8), encrypt)
    }
}

/// What the DES operation makes of a file's content: encryption pads and then
/// encrypts block by block with the first 8 bytes of the key; decryption
/// decrypts block by block and then removes the padding.
pub open spec fn des_spec(data: Seq<u8>, key: Seq<u8>, encrypt: bool) -> Seq<u8> {
    if encrypt {
        des_ecb(key.take(8), pkcs7_pad(data), true)
    } else {
        pkcs7_unpad(des_ecb(key.take(8), data, false))
    }
}

/// What the XChaCha20-Poly1305 operation makes of a file's content.
pub open spec fn chacha_spec(data: Seq<u8>, key: Seq<u8>, nonce: Seq<u8>, encrypt: bool) -> Result<Seq<u8>, CryptoError> {
    if encrypt {
        if data.len() / 64 < chacha_max_blocks() {
            Ok(xchacha_seal(key, nonce, data))
        } else {
            Err(CryptoError::Encrypting)
        }
    } else if chacha_counter_overflow(data.len() - 16) {
        Err(CryptoError::Decrypting)
    } else {
        match xchacha_open(key, nonce, data) {
            Some(p) => Ok(p),
            None => Err(CryptoError::Decrypting),
        }
    }
}

/// The part of a processed file that is shown: its first 512 bytes.
pub open spec fn display_prefix(data: Seq<u8>) -> Seq<u8> {
    if data.len() > DISPLAY_LIMIT {
        data.take(DISPLAY_LIMIT as int)
    } else {
        data
    }
}

/// Concatenating two inputs, the first a whole number of blocks, processes
/// each on its own.
pub proof fn lemma_des_ecb_append(key: Seq<u8>, a: Seq<u8>, b: Seq<u8>, encrypt: bool)
    requires
        a.len() % 8 == 0,
    ensures
        des_ecb(key, a + b, encrypt) == des_ecb(key, a, encrypt) + des_ecb(key, b, encrypt),
    decreases a.len(),
{
    if a.len() == 0 {
        assert(a + b =~= b);
        assert(des_ecb(key, a, encrypt) =~= Seq::<u8>::empty());
        assert(des_ecb(key, a, encrypt) + des_ecb(key, b, encrypt) =~= des_ecb(key, b, encrypt));
    } else {
        assert((a + b).take(8) =~= a.take(8));
        assert((a + b).skip(8) =~= a.skip(8) + b);
        lemma_des_ecb_append(key, a.skip(8), b, encrypt);
        assert(des_ecb(key, a + b, encrypt) =~= des_block(key, a.take(8), encrypt) + (des_ecb(key, a.skip(8), encrypt) + des_ecb(key, b, encrypt)));
    }
}

/// PKCS#7 padding appends `p` bytes of value `p`, where `p = 8 - len % 8` is
/// between 1 and 8.
pub proof fn lemma_pad_bytes(data: Seq<u8>)
    ensures
        1 <= 8 - data.len() % 8 <= 8,
        pkcs7_pad(data) == data + Seq::new((8 - data.len() % 8) as nat, |i: int| (8 - data.len() % 8) as u8),
{
    assert(pkcs7_pad(data) =~= data + Seq::new((8 - data.len() % 8) as nat, |i: int| (8 - data.len() % 8) as u8));
}

/// Unpadding removes exactly a well-formed suffix: when the last byte `p` is at
/// most 8 and the last `p` bytes all equal `p`, those `p` bytes go; otherwise
/// nothing goes.
pub proof fn lemma_unpad_bytes(data: Seq<u8>)
    ensures
        ({
            let p = data.last() as int;
            if data.len() > 0 && p <= 8 && p <= data.len() && (forall|j: int| data.len() - p <= j < data.len() ==> #[trigger] data[j] == p) {
                pkcs7_unpad(data) == data.take(data.len() - p)
            } else {
                pkcs7_unpad(data) == data
            }
        }),
{
    if data.len() > 0 {
        let p = data.last() as int;
        let tail = data.subrange(data.len() - p, data.len() as int);
        if p <= 8 && p <= data.len() {
            if forall|j: int| data.len() - p <= j < data.len() ==> #[trigger] data[j] == p {
                assert(tail =~= repeat_byte(p as u8, p as nat));
                assert(data.subrange(0, data.len() - p) =~= data.take(data.len() - p));
            } else {
                let j = choose|j: int| data.len() - p <= j < data.len() && #[trigger] data[j] != p;
                assert(tail[j - (data.len() - p)] != repeat_byte(p as u8, p as nat)[j - (data.len() - p)]);
            }
        }
    }
}

/// Removing `p` bytes of value `p`, for `p` from 1 to 8, gives back what they
/// were appended to.
pub proof fn lemma_unpad_strips(data: Seq<u8>, p: nat)
    requires
        1 <= p <= 8,
    ensures
        pkcs7_unpad(data + Seq::new(p, |i: int| p as u8)) == data,
{
    let padded = data + Seq::new(p, |i: int| p as u8);
    assert(padded.last() == p as u8);
    assert(padded.subrange(padded.len() - p, padded.len() as int) =~= repeat_byte(p as u8, p));
    assert(padded.subrange(0, padded.len() - p) =~= data);
}

/// The display part is the buffer's first `min(len, 512)` bytes.
pub proof fn lemma_display_prefix(data: Seq<u8>)
    ensures
        display_prefix(data).len() == (if data.len() < DISPLAY_LIMIT { data.len() } else { DISPLAY_LIMIT as nat }),
        display_prefix(data) == data.take(display_prefix(data).len() as int),
{
    if data.len() <= DISPLAY_LIMIT {
        assert(data.take(data.len() as int) =~= data);
    }
}

/// XChaCha20-Poly1305 runs use the caller's own key and nonce: encryption of
/// content below the block limit seals it under them; decryption gives the
/// plaintext exactly when opening under them succeeds (for a body length the
/// cipher can process).
pub proof fn lemma_chacha_uses_key_and_nonce(data: Seq<u8>, key: Seq<u8>, nonce: Seq<u8>)
    ensures
        data.len() / 64 < chacha_max_blocks() ==> chacha_spec(data, key, nonce, true) == Ok::<Seq<u8>, CryptoError>(
            xchacha_seal(key, nonce, data),
        ),
        data.len() / 64 >= chacha_max_blocks() ==> chacha_spec(data, key, nonce, true) == Err::<Seq<u8>, CryptoError>(
            CryptoError::Encrypting,
        ),
        !chacha_counter_overflow(data.len() - 16) ==> (chacha_spec(data, key, nonce, false) is Ok <==> xchacha_open(
            key,
            nonce,
            data,
        ) is Some),
        chacha_spec(data, key, nonce, false) matches Ok(p) ==> xchacha_open(key, nonce, data) == Some(p),
{
}

/// Removing PKCS#7 padding undoes adding it, for every input.
pub proof fn lemma_unpad_pad(data: Seq<u8>)
    ensures
        pkcs7_unpad(pkcs7_pad(data)) == data,
{
    let p = pad_len(data.len());
    let padded = pkcs7_pad(data);
    assert(1 <= p <= 8);
    assert(padded.len() == data.len() + p);
    assert(padded.last() == p as u8);
    assert(padded.subrange(padded.len() - p, padded.len() as int) =~= repeat_byte(p as u8, p));
    assert(padded.subrange(0, padded.len() - p) =~= data);
}

/// DES reads only the first 8 bytes of the key: keys that agree there give
/// the same result on every content, in both directions.
pub proof fn lemma_des_first_key_bytes(data: Seq<u8>, key1: Seq<u8>, key2: Seq<u8>, encrypt: bool)
    requires
        key1.len() >= 8,
        key2.len() >= 8,
        key1.take(8) == key2.take(8),
    ensures
        des_spec(data, key1, encrypt) == des_spec(data, key2, encrypt),
{
}

/// Padding always yields a whole, non-empty number of blocks, one more than
/// the whole blocks of the input.
pub proof fn lemma_pad_length(data: Seq<u8>)
    ensures
        pkcs7_pad(data).len() == (data.len() / 8 + 1) * 8,
        pkcs7_pad(data).len() % 8 == 0,
        pkcs7_pad(data).len() > data.len(),
{
}

impl Crypto {
    /// The first 512 bytes of `buffer` (all of it when shorter): what is read
    /// back from a processed file for display.
    pub fn limit_ciphertext(buffer: Vec<u8>) -> (r: Vec<u8>)
        ensures
            r@ == display_prefix(buffer@),
            r@.len() <= DISPLAY_LIMIT,
            r@.len() == (if buffer@.len() < DISPLAY_LIMIT { buffer@.len() } else { DISPLAY_LIMIT as nat }),
            r@ == buffer@.take(r@.len() as int),
    {
        let mut buffer = buffer;
        if buffer.len() > DISPLAY_LIMIT {
            buffer.truncate(DISPLAY_LIMIT);
        }
        buffer
    }
}


/// The `j`-th 8-byte block of `s`.
pub open spec fn block_at(s: Seq<u8>, j: int) -> Seq<u8> {
    s.subrange(8 * j, 8 * j + 8)
}

/// Whether `out` is `input` processed block by block: the same length, and
/// each whole 8-byte block of `out` is the DES operation on the matching block
/// of `input`.
pub open spec fn blockwise(out: Seq<u8>, input: Seq<u8>, key: Seq<u8>, encrypt: bool) -> bool {
    &&& out.len() == input.len()
    &&& forall|j: int| 0 <= j < input.len() / 8 ==> #[trigger] block_at(out, j) == des_block(key, block_at(input, j), encrypt)
}

/// The view of a cipher's result.
pub open spec fn result_view(r: Result<Vec<u8>, CryptoError>) -> Result<Seq<u8>, CryptoError> {
    match r {
        Ok(v) => Ok(v@),
        Err(e) => Err(e),
    }
}

/// Whether `v` ends with `n` bytes of value `b` (false when `v` is shorter).
fn ends_with_repeat(v: &Vec<u8>, b: u8, n: usize) -> (r: bool)
    ensures
        r == (n <= v@.len() && v@.subrange(v@.len() - n, v@.len() as int) == repeat_byte(b, n as nat)),
{
    if n > v.len() {
        return false;
    }
    let start = v.len() - n;
    let mut i = start;
    while i < v.len()
        invariant
            start == v@.len() - n,
            start <= i <= v@.len(),
            forall|j: int| start <= j < i ==> v@[j] == b,
        decreases v@.len() - i,
    {
        if v[i] != b {
            assert(v@.subrange(start as int, v@.len() as int)[i - start] != repeat_byte(b, n as nat)[i - start]);
            return false;
        }
        i += 1;
    }
    assert(v@.subrange(start as int, v@.len() as int) =~= repeat_byte(b, n as nat));
    true
}

/// Processes the whole 8-byte blocks of `buffer` with DES under `key`.
fn des_blocks(key: &Vec<u8>, buffer: &Vec<u8>, encrypt: bool) -> (out: Vec<u8>)
    requires
        key@.len() == 8,
        buffer@.len() % 8 == 0,
    ensures
        out@ == des_ecb(key@, buffer@, encrypt),
        out@.len() == buffer@.len(),
        encrypt ==> des_ecb(key@, out@, false) == buffer@,
        blockwise(out@, buffer@, key@, encrypt),
{
    let mut out: Vec<u8> = Vec::new();
    let n = buffer.len();
    let mut i: usize = 0;
    while i < n
        invariant
            n == buffer@.len(),
            key@.len() == 8,
            buffer@.len() % 8 == 0,
            i <= buffer@.len(),
            i % 8 == 0,
            out@.len() == i,
            out@ == des_ecb(key@, buffer@.take(i as int), encrypt),
            encrypt ==> des_ecb(key@, out@, false) == buffer@.take(i as int),
            forall|j: int| 0 <= j < i / 8 ==> #[trigger] block_at(out@, j) == des_block(key@, block_at(buffer@, j), encrypt),
        decreases buffer@.len() - i,
    {
        assert(i + 8 <= n);
        let mut block: Vec<u8> = Vec::new();
        let mut j: usize = 0;
        while j < DES_BLOCK
            invariant
                n == buffer@.len(),
                i + 8 <= n,
                j <= 8,
                block@ == buffer@.subrange(i as int, i + j),
            decreases 8 - j,
        {
            block.push(buffer[i + j]);
            j += 1;
            assert(block@ =~= buffer@.subrange(i as int, i + j));
        }
        let done = if encrypt {
            des_encrypt_block(key.as_slice(), block.as_slice())
        } else {
            des_decrypt_block(key.as_slice(), block.as_slice())
        };
        proof {
            assert(buffer@.take(i + 8) =~= buffer@.take(i as int) + block@);
            lemma_des_ecb_append(key@, buffer@.take(i as int), block@, encrypt);
            assert(block@.take(8) =~= block@);
            assert(des_ecb(key@, block@.skip(8), encrypt) =~= Seq::<u8>::empty());
            assert(des_ecb(key@, block@, encrypt) =~= done@);
            if encrypt {
                lemma_des_ecb_append(key@, out@, done@, false);
                assert(done@.take(8) =~= done@);
                assert(des_ecb(key@, done@.skip(8), false) =~= Seq::<u8>::empty());
                assert(des_ecb(key@, done@, false) =~= block@);
            }
        }
        let ghost old_out = out@;
        out.extend_from_slice(done.as_slice());
        i += 8;
        proof {
            assert(out@ =~= old_out + done@);
            assert forall|j: int| 0 <= j < i / 8 implies #[trigger] block_at(out@, j) == des_block(key@, block_at(buffer@, j), encrypt) by {
                let m = (i - 8) as int;
                assert(m / 8 + 1 == i / 8 && m % 8 == 0);
                if j < m / 8 {
                    assert(8 * j + 8 <= m) by (nonlinear_arith)
                        requires j < m / 8, m % 8 == 0, j >= 0;
                    assert(block_at(out@, j) =~= block_at(old_out, j));
                } else {
                    assert(j == m / 8);
                    assert(8 * j == m);
                    assert(block_at(out@, j) =~= done@);
                    assert(block_at(buffer@, j) =~= block@);
                }
            }
        }
    }
    assert(buffer@.take(i as int) =~= buffer@);
    out
}

impl Crypto {
    /// DES over a file's content, with the first 8 bytes of `key`: encryption
    /// adds PKCS#7 padding and encrypts each 8-byte block; decryption decrypts
    /// each block and removes a well-formed padding. Decrypting what encryption
    /// gave returns the content unchanged.
    pub fn des(data: &[u8], key: &[u8; 32], is_encrypt: bool) -> (r: Vec<u8>)
        requires
            !is_encrypt ==> data@.len() % 8 == 0,
            is_encrypt ==> data@.len() + 8 <= usize::MAX,
        ensures
            r@ == des_spec(data@, key@, is_encrypt),
            is_encrypt ==> blockwise(r@, pkcs7_pad(data@), key@.take(8), true),
            !is_encrypt ==> blockwise(des_ecb(key@.take(8), data@, false), data@, key@.take(8), false),
            is_encrypt ==> r@.len() == (data@.len() / 8 + 1) * 8,
            is_encrypt ==> des_spec(r@, key@, false) == data@,
            is_encrypt ==> des_ecb(key@.take(8), r@, false) == data@ + Seq::new(
                (8 - data@.len() % 8) as nat,
                |i: int| (8 - data@.len() % 8) as u8,
            ),
            !is_encrypt ==> ({
                let d = des_ecb(key@.take(8), data@, false);
                let p = d.last() as int;
                if d.len() > 0 && p <= 8 && p <= d.len() && (forall|j: int| d.len() - p <= j < d.len() ==> #[trigger] d[j] == p) {
                    r@ == d.take(d.len() - p)
                } else {
                    r@ == d
                }
            }),
            !is_encrypt ==> r@.len() <= data@.len(),
    {
        let mut key_block: Vec<u8> = Vec::new();
        let mut i: usize = 0;
        while i < DES_BLOCK
            invariant
                i <= 8,
                key@.len() == 32,
                key_block@ == key@.take(i as int),
            decreases 8 - i,
        {
            key_block.push(key[i]);
            i += 1;
            assert(key_block@ =~= key@.take(i as int));
        }
        let mut buffer: Vec<u8> = Vec::new();
        buffer.extend_from_slice(data);
        assert(buffer@ =~= data@);
        if is_encrypt {
            let padding_len = DES_BLOCK - buffer.len() % DES_BLOCK;
            let padding = vec![padding_len as u8; padding_len];
            buffer.extend_from_slice(padding.as_slice());
            proof {
                assert(padding@ =~= repeat_byte(pad_len(data@.len()) as u8, pad_len(data@.len())));
                assert(buffer@ =~= pkcs7_pad(data@));
                lemma_pad_length(data@);
            }
        }
        let mut processed = des_blocks(&key_block, &buffer, is_encrypt);
        if !is_encrypt {
            if processed.len() > 0 {
                let last = processed[processed.len() - 1];
                let padding_len = last as usize;
                if padding_len <= DES_BLOCK && ends_with_repeat(&processed, last, padding_len) {
                    let keep = processed.len() - padding_len;
                    processed.truncate(keep);
                    assert(processed@ =~= des_ecb(key_block@, data@, false).subrange(0, keep as int));
                }
            }
        } else {
            proof {
                lemma_unpad_pad(data@);
                lemma_pad_bytes(data@);
            }
        }
        proof {
            lemma_unpad_bytes(des_ecb(key_block@, data@, false));
        }
        processed
    }

    /// XChaCha20-Poly1305 over a file's content, with no associated data.
    /// Plaintext whose length makes the cipher's block counter overflow is left
    /// out of encryption: the cipher panics on it. Ciphertext whose body has
    /// such a length is refused as not decryptable without calling the cipher.
    /// Encryption fails only for content of `u32::MAX` or more 64-byte blocks and
    /// yields the content plus a 16-byte tag; decryption fails exactly where the
    /// tag does not authenticate the content. Decrypting what encryption gave
    /// returns the content, and encrypting what decryption gave returns the
    /// ciphertext.
    pub fn chaca20poly1305(data: &[u8], key: &[u8; 32], nonce: &[u8; 24], is_encrypt: bool) -> (r: Result<Vec<u8>, CryptoError>)
        requires
            is_encrypt ==> !chacha_counter_overflow(data@.len() as int),
        ensures
            result_view(r) == chacha_spec(data@, key@, nonce@, is_encrypt),
            is_encrypt && data@.len() / 64 < chacha_max_blocks() ==> r is Ok && r->Ok_0@ == xchacha_seal(key@, nonce@, data@),
            is_encrypt && data@.len() / 64 >= chacha_max_blocks() ==> r == Err::<Vec<u8>, CryptoError>(CryptoError::Encrypting),
            !is_encrypt && r is Ok ==> xchacha_open(key@, nonce@, data@) == Some(r->Ok_0@),
            !is_encrypt && !chacha_counter_overflow(data@.len() - 16) && xchacha_open(key@, nonce@, data@) is Some
                ==> r is Ok,
            is_encrypt && r is Ok ==> r->Ok_0@.len() == data@.len() + 16,
            is_encrypt && r is Ok ==> chacha_spec(r->Ok_0@, key@, nonce@, false) == Ok::<Seq<u8>, CryptoError>(data@),
            !is_encrypt && r is Ok ==> r->Ok_0@.len() + 16 == data@.len(),
            !is_encrypt && r is Ok ==> chacha_spec(r->Ok_0@, key@, nonce@, true) == Ok::<Seq<u8>, CryptoError>(data@),
            !is_encrypt && data@.len() < 16 ==> r == Err::<Vec<u8>, CryptoError>(CryptoError::Decrypting),
    {
        if is_encrypt {
            match xchacha_encrypt(key, nonce, data) {
                Ok(c) => Ok(c),
                Err(_) => Err(CryptoError::Encrypting),
            }
        } else {
            if data.len() >= 16 {
                let body = data.len() as u64 - 16;
                if 274_877_906_816u64 < body && body < 274_877_906_880u64 {
                    return Err(CryptoError::Decrypting);
                }
            }
            match xchacha_decrypt(key, nonce, data) {
                Ok(p) => Ok(p),
                Err(_) => Err(CryptoError::Decrypting),
            }
        }
    }
}

} // verus!
