use ::aes::NewBlockCipher;
use block_modes::BlockMode;
use vstd::prelude::*;

verus! {

/// What AES-128 makes of one 16-byte `block` under a 16-byte `key`.
pub uninterp spec fn aes128_block(key: Seq<u8>, block: Seq<u8>) -> Seq<u8>;

/// Relies on block_modes' ECB mode over aes's `Aes128`: one block in, its
/// encryption under `key` out. With a position that is a whole block, the
/// zero padding adds nothing and the call cannot fail. Under a fixed key
/// AES-128 is a permutation of 16-byte blocks (the crate's `BlockDecrypt`
/// inverts it), so no other block encrypts to the same result.
#[verifier::external_body]
fn ecb_encrypt_block(key: &[u8; 16], block: &[u8; 16]) -> (r: [u8; 16])
    ensures
        r@ == aes128_block(key@, block@),
        forall|b: Seq<u8>| b.len() == 16 && #[trigger] cipher_block(key@, b) == r@ ==> b == block@,
{
    let cipher = ::aes::Aes128::new(&(*key).into());
    let mode = block_modes::Ecb::<::aes::Aes128, block_modes::block_padding::ZeroPadding>::new(
        cipher,
        &Default::default(),
    );
    let mut buf: [u8; 16] = *block;
    mode.encrypt(&mut buf, 16).unwrap();
    buf
}

/// The cipher's output on `block`, read as exactly sixteen bytes.
pub open spec fn cipher_block(key: Seq<u8>, block: Seq<u8>) -> Seq<u8> {
    Seq::new(16, |i: int| aes128_block(key, block)[i])
}

/// Failures of the cryptographic operations.
#[derive(Clone, Copy, Debug, PartialEq, Eq, Structural)]
pub enum CryptoError {
    /// A key was not exactly 16 bytes long.
    KeyLength,
    /// A buffer did not have the fixed or block-multiple length required.
    BufferLength,
}

/// A keyed block cipher. Each encryption is made as if by a freshly keyed
/// cipher, so no call influences another.
pub struct AESContext {
    pub key: [u8; 16],
}

/// Keys a cipher with `key`, which must be exactly 16 bytes.
pub fn aes_init(key: &[u8]) -> (r: Result<AESContext, CryptoError>)
    ensures
        key@.len() == 16 <==> r is Ok,
        r is Ok ==> r->Ok_0.key@ == key@,
        r is Err ==> r->Err_0 == CryptoError::KeyLength,
{
    if key.len() != 16 {
        return Err(CryptoError::KeyLength);
    }
    let mut k: [u8; 16] = [0u8; 16];
    let mut i: usize = 0;
    while i < 16
        invariant
            key@.len() == 16,
            0 <= i <= 16,
            forall|j: int| 0 <= j < i ==> k@[j] == key@[j],
        decreases 16 - i,
    {
        k[i] = key[i];
        i += 1;
    }
    assert(k@ =~= key@);
    Ok(AESContext { key: k })
}

/// Encrypts one block. The result depends on the key and the block alone,
/// and no other block encrypts to it under the same key.
pub fn aes_encrypt(context: &AESContext, block: &[u8; 16]) -> (r: [u8; 16])
    ensures
        r@ == cipher_block(context.key@, block@),
        forall|b: Seq<u8>|
            b.len() == 16 && #[trigger] cipher_block(context.key@, b) == r@ ==> b == block@,
{
    let r = ecb_encrypt_block(&context.key, block);
    assert(r@ =~= cipher_block(context.key@, block@));
    r
}

/// The 16-bit big-endian value held in the last two bytes of a block.
pub open spec fn counter_value(block: Seq<u8>) -> nat {
    block[14] as nat * 256 + block[15] as nat
}

/// The first block of the keystream family: a `tag` byte followed by the
/// 13-byte session part of `nonce`.
pub open spec fn nonce_head(tag: u8, nonce: Seq<u8>) -> Seq<u8> {
    seq![tag] + nonce.subrange(0, 13)
}

/// The two big-endian bytes of `v` modulo 2^16.
pub open spec fn be16(v: nat) -> Seq<u8> {
    seq![((v / 256) % 256) as u8, (v % 256) as u8]
}

/// The counter block after `c` increments: `0x01`, the session nonce, and
/// `c` as a wrapping 16-bit big-endian counter.
pub open spec fn counter_block(nonce: Seq<u8>, c: nat) -> Seq<u8> {
    nonce_head(1, nonce) + be16(c)
}

/// The keystream byte that covers position `i` of the data: block `i / 16`
/// is masked with the encryption of the counter after `i / 16 + 1` increments.
pub open spec fn keystream_byte(key: Seq<u8>, nonce: Seq<u8>, i: int) -> u8 {
    cipher_block(key, counter_block(nonce, (i / 16 + 1) as nat))[i % 16]
}

/// Counter-mode encryption (and decryption) of `data`.
pub open spec fn ctr_xor(key: Seq<u8>, nonce: Seq<u8>, data: Seq<u8>) -> Seq<u8> {
    Seq::new(data.len(), |i: int| data[i] ^ keystream_byte(key, nonce, i))
}

/// Byte-wise exclusive or of two 16-byte blocks.
pub open spec fn xor16(a: Seq<u8>, b: Seq<u8>) -> Seq<u8> {
    Seq::new(16, |i: int| a[i] ^ b[i])
}

/// The first hash block: `0x39`, the session nonce and the data length as a
/// 16-bit big-endian value.
pub open spec fn hash_head(nonce: Seq<u8>, len: nat) -> Seq<u8> {
    nonce_head(57, nonce) + be16(len)
}

/// The hash state after absorbing the first `k` blocks of `data`.
pub open spec fn hash_chain(key: Seq<u8>, nonce: Seq<u8>, data: Seq<u8>, k: nat) -> Seq<u8>
    decreases k,
{
    if k == 0 {
        cipher_block(key, hash_head(nonce, data.len()))
    } else {
        let prev = hash_chain(key, nonce, data, (k - 1) as nat);
        cipher_block(key, xor16(prev, data.subrange(16 * (k - 1), 16 * (k as int))))
    }
}

/// The keyed chained hash of `data`, whose length is a multiple of 16.
pub open spec fn hash(key: Seq<u8>, nonce: Seq<u8>, data: Seq<u8>) -> Seq<u8> {
    hash_chain(key, nonce, data, data.len() / 16)
}

/// The nonce-bound mask of `tag`: the encryption of the counter block with no
/// increment, xored into the tag.
pub open spec fn mask_tag(key: Seq<u8>, tag: Seq<u8>, nonce: Seq<u8>) -> Seq<u8> {
    xor16(cipher_block(key, counter_block(nonce, 0)), tag)
}

/// Builds the counter block before its first increment.
pub fn init_nonce_counter(inp_nonce: &[u8; 16]) -> (r: [u8; 16])
    ensures
        r@ == counter_block(inp_nonce@, 0),
{
    let r: [u8; 16] = [
        1, inp_nonce[0], inp_nonce[1], inp_nonce[2],
        inp_nonce[3], inp_nonce[4], inp_nonce[5], inp_nonce[6],
        inp_nonce[7], inp_nonce[8], inp_nonce[9], inp_nonce[10],
        inp_nonce[11], inp_nonce[12], 0, 0,
    ];
    assert(r@ =~= counter_block(inp_nonce@, 0));
    r
}

/// Adds one to the big-endian 16-bit counter in the last two bytes, carrying
/// from the low byte into the high byte and wrapping at 2^16.
pub fn inc_ctr(ctr: &mut [u8; 16])
    ensures
        final(ctr)@.subrange(0, 14) == old(ctr)@.subrange(0, 14),
        counter_value(final(ctr)@) == (counter_value(old(ctr)@) + 1) % 65536,
{
    let lo = ctr[15];
    let hi = ctr[14];
    let new_lo: u8 = if lo == 255 { 0 } else { lo + 1 };
    let new_hi: u8 = if lo == 255 {
        if hi == 255 { 0 } else { hi + 1 }
    } else {
        hi
    };
    ctr[15] = new_lo;
    ctr[14] = new_hi;
    assert(final(ctr)@.subrange(0, 14) =~= old(ctr)@.subrange(0, 14));
}

/// A block that starts with the counter head of `nonce` and holds `c` modulo
/// 2^16 in its last two bytes is the counter block after `c` increments.
proof fn lemma_counter_block(block: Seq<u8>, nonce: Seq<u8>, c: nat)
    requires
        block.len() == 16,
        nonce.len() == 16,
        block.subrange(0, 14) == nonce_head(1, nonce),
        counter_value(block) == c % 65536,
    ensures
        block == counter_block(nonce, c),
{
    let v = c % 65536;
    assert(block[14] as nat == (v / 256) % 256 && block[15] as nat == v % 256) by (nonlinear_arith)
        requires
            block[14] as nat * 256 + block[15] as nat == v,
            block[14] < 256,
            block[15] < 256,
    ;
    assert((c / 256) % 256 == v / 256 && c % 256 == v % 256) by (nonlinear_arith)
        requires
            v == c % 65536,
    ;
    assert(block =~= counter_block(nonce, c)) by {
        assert forall|j: int| 0 <= j < 14 implies block[j] == counter_block(nonce, c)[j] by {
            assert(block[j] == block.subrange(0, 14)[j]);
        }
    }
}

/// Counter-mode encryption of `data` under `nonce`. The same call decrypts.
/// Data whose length is not a multiple of 16 is refused.
pub fn aes_ctr(context: &AESContext, nonce: &[u8; 16], data: &[u8]) -> (r: Result<
    Vec<u8>,
    CryptoError,
>)
    ensures
        data@.len() % 16 == 0 <==> r is Ok,
        r is Ok ==> r->Ok_0@ == ctr_xor(context.key@, nonce@, data@),
        r is Err ==> r->Err_0 == CryptoError::BufferLength,
{
    let count = data.len();
    if count % 16 != 0 {
        return Err(CryptoError::BufferLength);
    }
    let mut output: Vec<u8> = vec![0u8; count];
    let mut ctr = init_nonce_counter(nonce);
    let blocks = count / 16;
    let mut i: usize = 0;
    while i < blocks
        invariant
            count == data@.len(),
            blocks * 16 == count,
            i <= blocks,
            output@.len() == count,
            ctr@.subrange(0, 14) == nonce_head(1, nonce@),
            counter_value(ctr@) == i % 65536,
            forall|k: int|
                0 <= k < i * 16 ==> output@[k] == data@[k] ^ keystream_byte(
                    context.key@,
                    nonce@,
                    k,
                ),
        decreases blocks - i,
    {
        inc_ctr(&mut ctr);
        assert((i % 65536 + 1) % 65536 == (i + 1) % 65536) by (nonlinear_arith);
        proof {
            lemma_counter_block(ctr@, nonce@, (i + 1) as nat);
        }
        let ectr = aes_encrypt(context, &ctr);
        let base: usize = i * 16;
        let mut j: usize = 0;
        while j < 16
            invariant
                count == data@.len(),
                blocks * 16 == count,
                i < blocks,
                base == i * 16,
                j <= 16,
                output@.len() == count,
                forall|k: int|
                    0 <= k < base ==> output@[k] == data@[k] ^ keystream_byte(
                        context.key@,
                        nonce@,
                        k,
                    ),
                forall|k: int| base <= k < base + j ==> output@[k] == data@[k] ^ ectr@[k - base],
            decreases 16 - j,
        {
            output[base + j] = data[base + j] ^ ectr[j];
            j += 1;
        }
        assert forall|k: int| base <= k < base + 16 implies output@[k] == data@[k]
            ^ keystream_byte(context.key@, nonce@, k) by {
            assert(k / 16 == i && k % 16 == k - base) by (nonlinear_arith)
                requires
                    base == i * 16,
                    base <= k < base + 16,
            ;
        }
        i += 1;
    }
    assert(output@ =~= ctr_xor(context.key@, nonce@, data@));
    Ok(output)
}

/// Builds the first hash block for data of length `data_len`.
pub fn init_nonce_hash(inp_nonce: &[u8; 16], data_len: usize) -> (r: [u8; 16])
    ensures
        r@ == hash_head(inp_nonce@, data_len as nat),
{
    let r: [u8; 16] = [
        57, inp_nonce[0], inp_nonce[1], inp_nonce[2],
        inp_nonce[3], inp_nonce[4], inp_nonce[5], inp_nonce[6],
        inp_nonce[7], inp_nonce[8], inp_nonce[9], inp_nonce[10],
        inp_nonce[11], inp_nonce[12], ((data_len / 256) % 256) as u8, (data_len % 256) as u8,
    ];
    assert(r@ =~= hash_head(inp_nonce@, data_len as nat));
    r
}

/// The keyed chained hash of `data`. Data whose length is not a multiple of
/// 16 is refused.
pub fn aes_hash(context: &AESContext, nonce: &[u8; 16], data: &[u8]) -> (r: Result<
    [u8; 16],
    CryptoError,
>)
    ensures
        data@.len() % 16 == 0 <==> r is Ok,
        r is Ok ==> r->Ok_0@ == hash(context.key@, nonce@, data@),
        r is Err ==> r->Err_0 == CryptoError::BufferLength,
{
    let count = data.len();
    if count % 16 != 0 {
        return Err(CryptoError::BufferLength);
    }
    let nonce_hash = init_nonce_hash(nonce, count);
    let mut output = aes_encrypt(context, &nonce_hash);
    let blocks = count / 16;
    let mut i: usize = 0;
    while i < blocks
        invariant
            count == data@.len(),
            blocks * 16 == count,
            i <= blocks,
            output@ == hash_chain(context.key@, nonce@, data@, i as nat),
        decreases blocks - i,
    {
        let base: usize = i * 16;
        let mut x: [u8; 16] = output;
        let mut j: usize = 0;
        while j < 16
            invariant
                count == data@.len(),
                blocks * 16 == count,
                i < blocks,
                base == i * 16,
                j <= 16,
                forall|k: int| 0 <= k < j ==> x@[k] == output@[k] ^ data@[base + k],
            decreases 16 - j,
        {
            x[j] = output[j] ^ data[base + j];
            j += 1;
        }
        assert(x@ =~= xor16(output@, data@.subrange(16 * i, 16 * (i + 1))));
        output = aes_encrypt(context, &x);
        i += 1;
    }
    Ok(output)
}

/// Masks `nonce_iv` with the encryption of the counter block for `nonce`.
/// Applied twice with the same nonce it gives back its input.
pub fn encrypt_block(context: &AESContext, nonce_iv: &[u8; 16], nonce: &[u8; 16]) -> (r: [u8; 16])
    ensures
        r@ == mask_tag(context.key@, nonce_iv@, nonce@),
{
    let nonce_ctr = init_nonce_counter(nonce);
    let tmp = aes_encrypt(context, &nonce_ctr);
    let mut output: [u8; 16] = [0u8; 16];
    let mut i: usize = 0;
    while i < 16
        invariant
            i <= 16,
            forall|k: int| 0 <= k < i ==> output@[k] == tmp@[k] ^ nonce_iv@[k],
        decreases 16 - i,
    {
        output[i] = tmp[i] ^ nonce_iv[i];
        i += 1;
    }
    assert(output@ =~= mask_tag(context.key@, nonce_iv@, nonce@));
    output
}

/// Masking a tag twice under the same key and nonce gives the tag back.
pub proof fn lemma_mask_tag_involutive(key: Seq<u8>, tag: Seq<u8>, nonce: Seq<u8>)
    requires
        tag.len() == 16,
    ensures
        mask_tag(key, mask_tag(key, tag, nonce), nonce) == tag,
{
    let pad = cipher_block(key, counter_block(nonce, 0));
    assert forall|i: int| 0 <= i < 16 implies #[trigger] mask_tag(key, mask_tag(key, tag, nonce), nonce)[i] == tag[i] by {
        let (p, t) = (pad[i], tag[i]);
        assert(p ^ (p ^ t) == t) by (bit_vector);
    }
    assert(mask_tag(key, mask_tag(key, tag, nonce), nonce) =~= tag);
}

/// Counter-mode encryption twice under the same key and nonce gives the data
/// back.
pub proof fn lemma_ctr_xor_involutive(key: Seq<u8>, nonce: Seq<u8>, data: Seq<u8>)
    ensures
        ctr_xor(key, nonce, ctr_xor(key, nonce, data)) == data,
{
    assert forall|i: int| 0 <= i < data.len() implies #[trigger] ctr_xor(key, nonce, ctr_xor(key, nonce, data))[i] == data[i] by {
        let (d, p) = (data[i], keystream_byte(key, nonce, i));
        assert((d ^ p) ^ p == d) by (bit_vector);
    }
    assert(ctr_xor(key, nonce, ctr_xor(key, nonce, data)) =~= data);
}

} // verus!
