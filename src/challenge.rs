use crate::aes::{
    aes_ctr, aes_encrypt, aes_hash, aes_init, cipher_block, ctr_xor, encrypt_block, hash,
    lemma_ctr_xor_involutive, lemma_mask_tag_involutive, mask_tag, xor16, AESContext, CryptoError,
};
use crate::records::{read_at, ChallengeData, MainChallengeData, NextChallenge, FLASH_DATA};
use vstd::prelude::*;

verus! {

/// What the provisioning source supplies: the long-term device key and an
/// opaque blob passed through to the device.
#[derive(Clone, Copy, Debug)]
pub struct Secrets {
    pub device_key: [u8; 16],
    pub blob: [u8; 256],
}

/// Relies on rand::random: one byte drawn from the thread-local generator.
#[verifier::external_body]
fn random_byte() -> (r: u8) {
    rand::random::<u8>()
}

/// The nonce made from one byte: that byte repeated sixteen times.
pub fn nonce_from_byte(b: u8) -> (r: [u8; 16])
    ensures
        forall|i: int| 0 <= i < 16 ==> #[trigger] r@[i] == b,
{
    [b; 16]
}

/// A fresh nonce: one random byte repeated sixteen times.
pub fn generate_nonce() -> (r: [u8; 16])
    ensures
        forall|i: int| 0 <= i < 16 ==> #[trigger] r@[i] == r@[0],
{
    let b = random_byte();
    nonce_from_byte(b)
}

/// The six address bytes in reverse order.
pub open spec fn reversed(mac: Seq<u8>) -> Seq<u8> {
    Seq::new(6, |i: int| mac[5 - i])
}

/// The payload of a round challenge when none is given: `0xAA` and fifteen
/// zero bytes.
pub open spec fn default_payload() -> Seq<u8> {
    seq![0xAAu8] + Seq::new(15, |i: int| 0u8)
}

/// The 80 plaintext bytes of the main challenge for the given address, session
/// key, session nonce and challenge payload.
pub open spec fn inner_layout(mac: Seq<u8>, key: Seq<u8>, nonce: Seq<u8>, payload: Seq<u8>) -> Seq<
    u8,
> {
    reversed(mac) + key + nonce + ctr_xor(key, nonce, payload) + mask_tag(
        key,
        hash(key, nonce, payload),
        nonce,
    ) + Seq::new(10, |i: int| 0u8)
}

/// Compares two tags in time that does not depend on where they differ.
pub fn tags_equal(a: &[u8; 16], b: &[u8; 16]) -> (r: bool)
    ensures
        r == (a@ == b@),
{
    let mut diff: u8 = 0;
    let mut i: usize = 0;
    while i < 16
        invariant
            i <= 16,
            (diff == 0) <==> (forall|k: int| 0 <= k < i ==> a@[k] == b@[k]),
        decreases 16 - i,
    {
        let (x, y) = (a[i], b[i]);
        assert(((diff | (x ^ y)) == 0) <==> (diff == 0 && x == y)) by (bit_vector);
        diff = diff | (x ^ y);
        i += 1;
    }
    if diff == 0 {
        assert(a@ =~= b@);
    }
    diff == 0
}

/// The pairing challenge: the payload is encrypted and tagged under the
/// session key and nonce, the resulting main challenge is encrypted and tagged
/// under the device key and the outer nonce. The payload must be 16 bytes.
pub fn generate_chal_0(
    secrets: Secrets,
    mac: &[u8; 6],
    the_challenge: &[u8],
    main_nonce: &[u8; 16],
    main_key: &[u8; 16],
    outer_nonce: [u8; 16],
) -> (r: Result<ChallengeData, CryptoError>)
    ensures
        the_challenge@.len() == 16 <==> r is Ok,
        r is Err ==> r->Err_0 == CryptoError::BufferLength,
        r is Ok ==> ({
            let c = r->Ok_0;
            let inner = inner_layout(mac@, main_key@, main_nonce@, the_challenge@);
            let dk = secrets.device_key@;
            &&& c.state@ == seq![0u8, 0u8, 0u8, 0u8]
            &&& c.nonce == outer_nonce
            &&& c.encrypted_main_challenge@ == ctr_xor(dk, outer_nonce@, inner)
            &&& c.encrypted_hash@ == mask_tag(dk, hash(dk, outer_nonce@, inner), outer_nonce@)
            &&& c.bt_addr@ == reversed(mac@)
            &&& c.blob == secrets.blob
        }),
{
    if the_challenge.len() != 16 {
        return Err(CryptoError::BufferLength);
    }
    let revmac: [u8; 6] = [mac[5], mac[4], mac[3], mac[2], mac[1], mac[0]];
    assert(revmac@ =~= reversed(mac@));

    let context = AESContext { key: *main_key };
    let tmp_hash = match aes_hash(&context, main_nonce, the_challenge) {
        Ok(h) => h,
        Err(e) => return Err(e),
    };
    let slice = match aes_ctr(&context, main_nonce, the_challenge) {
        Ok(v) => v,
        Err(e) => return Err(e),
    };
    let encrypted_challenge: [u8; 16] = read_at(slice.as_slice(), 0);
    assert(encrypted_challenge@ =~= slice@);
    let encrypted_hash = encrypt_block(&context, &tmp_hash, main_nonce);
    let mcd = MainChallengeData {
        bt_addr: revmac,
        key: *main_key,
        nonce: *main_nonce,
        encrypted_challenge,
        encrypted_hash,
        flash_data: FLASH_DATA,
    };
    let main_data = mcd.to_bytes();
    assert(FLASH_DATA@ =~= Seq::new(10, |i: int| 0u8));
    assert(main_data@ =~= inner_layout(mac@, main_key@, main_nonce@, the_challenge@));

    let outer = AESContext { key: secrets.device_key };
    let tmp_hash = match aes_hash(&outer, &outer_nonce, &main_data) {
        Ok(h) => h,
        Err(e) => return Err(e),
    };
    let slice = match aes_ctr(&outer, &outer_nonce, &main_data) {
        Ok(v) => v,
        Err(e) => return Err(e),
    };
    let encrypted_main_challenge: [u8; 80] = read_at(slice.as_slice(), 0);
    assert(encrypted_main_challenge@ =~= slice@);
    let encrypted_hash = encrypt_block(&outer, &tmp_hash, &outer_nonce);
    let state: [u8; 4] = [0u8; 4];
    assert(state@ =~= seq![0u8, 0u8, 0u8, 0u8]);
    Ok(ChallengeData {
        state,
        nonce: outer_nonce,
        encrypted_main_challenge,
        encrypted_hash,
        bt_addr: revmac,
        blob: secrets.blob,
    })
}

/// The payload of a round challenge: the one given, else the default.
pub open spec fn next_payload(data: Option<Seq<u8>>) -> Seq<u8> {
    match data {
        Some(d) => d,
        None => default_payload(),
    }
}

/// The view of an optional byte slice.
pub open spec fn opt_view(data: Option<&[u8]>) -> Option<Seq<u8>> {
    match data {
        Some(d) => Some(d@),
        None => None,
    }
}

/// A round challenge: the payload (the default one when none is given) is
/// encrypted and tagged under `key` and `nonce`. The key and a given payload
/// must both be 16 bytes.
pub fn generate_next_chal(data: Option<&[u8]>, key: &[u8], nonce: &[u8; 16]) -> (r: Result<
    NextChallenge,
    CryptoError,
>)
    ensures
        key@.len() != 16 ==> r == Err::<NextChallenge, CryptoError>(CryptoError::KeyLength),
        key@.len() == 16 && data is Some && data->Some_0@.len() != 16 ==> r == Err::<
            NextChallenge,
            CryptoError,
        >(CryptoError::BufferLength),
        key@.len() == 16 && (data is None || data->Some_0@.len() == 16) ==> r is Ok,
        r is Ok ==> ({
            let c = r->Ok_0;
            let payload = next_payload(opt_view(data));
            &&& c.state@ == seq![0u8, 0u8, 0u8, 0u8]
            &&& c.nonce == *nonce
            &&& c.encrypted_challenge@ == ctr_xor(key@, nonce@, payload)
            &&& c.encrypted_hash@ == mask_tag(key@, hash(key@, nonce@, payload), nonce@)
        }),
{
    let context = match aes_init(key) {
        Ok(c) => c,
        Err(e) => return Err(e),
    };
    let data: [u8; 16] = match data {
        Some(t) => {
            if t.len() != 16 {
                return Err(CryptoError::BufferLength);
            }
            let d: [u8; 16] = read_at(t, 0);
            assert(d@ =~= t@);
            d
        },
        None => {
            let d: [u8; 16] = [0xaa, 0, 0, 0, 0, 0, 0, 0, 0, 0, 0, 0, 0, 0, 0, 0];
            assert(d@ =~= default_payload());
            d
        },
    };
    let slice = match aes_ctr(&context, nonce, &data) {
        Ok(v) => v,
        Err(e) => return Err(e),
    };
    let encrypted_challenge: [u8; 16] = read_at(slice.as_slice(), 0);
    assert(encrypted_challenge@ =~= slice@);
    let inter_hash = match aes_hash(&context, nonce, &data) {
        Ok(h) => h,
        Err(e) => return Err(e),
    };
    let encrypted_hash = encrypt_block(&context, &inter_hash, nonce);
    let state: [u8; 4] = [0u8; 4];
    assert(state@ =~= seq![0u8, 0u8, 0u8, 0u8]);
    Ok(NextChallenge { state, nonce: *nonce, encrypted_challenge, encrypted_hash })
}

/// Decrypts a round challenge and checks its tag: the payload is the
/// counter-mode decryption of the challenge, and it is valid exactly when its
/// hash equals the unmasked tag. The key must be 16 bytes.
pub fn decrypt_next(key: &[u8], challenge: &NextChallenge) -> (r: Result<
    (bool, [u8; 16]),
    CryptoError,
>)
    ensures
        key@.len() == 16 <==> r is Ok,
        r is Err ==> r->Err_0 == CryptoError::KeyLength,
        r is Ok ==> ({
            let (valid, output) = r->Ok_0;
            let n = challenge.nonce@;
            &&& output@ == ctr_xor(key@, n, challenge.encrypted_challenge@)
            &&& valid == (hash(key@, n, output@) == mask_tag(key@, challenge.encrypted_hash@, n))
        }),
{
    let context = match aes_init(key) {
        Ok(c) => c,
        Err(e) => return Err(e),
    };
    let slice = match aes_ctr(&context, &challenge.nonce, &challenge.encrypted_challenge) {
        Ok(v) => v,
        Err(e) => return Err(e),
    };
    let output: [u8; 16] = read_at(slice.as_slice(), 0);
    assert(output@ =~= slice@);
    let enc_nonce = encrypt_block(&context, &challenge.encrypted_hash, &challenge.nonce);
    let hash = match aes_hash(&context, &challenge.nonce, &output) {
        Ok(h) => h,
        Err(e) => return Err(e),
    };
    Ok((tags_equal(&hash, &enc_nonce), output))
}

/// The reply to a reconnect challenge: the first block of the challenge's
/// 48-byte layout, encrypted under `key`, xored with the challenge's nonce.
/// The key must be 16 bytes.
pub fn generate_reconnect_response(key: &[u8], challenge: &NextChallenge) -> (r: Result<
    [u8; 16],
    CryptoError,
>)
    ensures
        key@.len() == 16 <==> r is Ok,
        r is Err ==> r->Err_0 == CryptoError::KeyLength,
        r is Ok ==> r->Ok_0@ == xor16(
            cipher_block(key@, challenge.layout48().subrange(0, 16)),
            challenge.nonce@,
        ),
{
    let context = match aes_init(key) {
        Ok(c) => c,
        Err(e) => return Err(e),
    };
    let packed = challenge.to_bytes48();
    let first: [u8; 16] = read_at(&packed, 0);
    let mut output = aes_encrypt(&context, &first);
    let ghost enc = output@;
    let mut i: usize = 0;
    while i < 16
        invariant
            i <= 16,
            forall|k: int| 0 <= k < i ==> output@[k] == enc[k] ^ challenge.nonce@[k],
            forall|k: int| i <= k < 16 ==> output@[k] == enc[k],
        decreases 16 - i,
    {
        output[i] = output[i] ^ challenge.nonce[i];
        i += 1;
    }
    assert(output@ =~= xor16(enc, challenge.nonce@));
    Ok(output)
}

/// A round challenge made from a 16-byte payload is accepted on decryption
/// under the same key, and decrypts to that payload.
pub proof fn lemma_next_challenge_accepted(
    key: Seq<u8>,
    nonce: Seq<u8>,
    payload: Seq<u8>,
    encrypted_challenge: Seq<u8>,
    encrypted_hash: Seq<u8>,
)
    requires
        payload.len() == 16,
        encrypted_challenge == ctr_xor(key, nonce, payload),
        encrypted_hash == mask_tag(key, hash(key, nonce, payload), nonce),
    ensures
        ctr_xor(key, nonce, encrypted_challenge) == payload,
        hash(key, nonce, ctr_xor(key, nonce, encrypted_challenge)) == mask_tag(
            key,
            encrypted_hash,
            nonce,
        ),
{
    lemma_ctr_xor_involutive(key, nonce, payload);
    lemma_mask_tag_involutive(key, hash(key, nonce, payload), nonce);
}

/// A round challenge whose tag was altered, its encrypted payload kept, is
/// rejected on decryption.
pub proof fn lemma_altered_tag_rejected(
    key: Seq<u8>,
    nonce: Seq<u8>,
    payload: Seq<u8>,
    encrypted_challenge: Seq<u8>,
    encrypted_hash: Seq<u8>,
    altered_hash: Seq<u8>,
)
    requires
        payload.len() == 16,
        encrypted_challenge == ctr_xor(key, nonce, payload),
        encrypted_hash == mask_tag(key, hash(key, nonce, payload), nonce),
        altered_hash.len() == 16,
        altered_hash != encrypted_hash,
    ensures
        hash(key, nonce, ctr_xor(key, nonce, encrypted_challenge)) != mask_tag(
            key,
            altered_hash,
            nonce,
        ),
{
    lemma_ctr_xor_involutive(key, nonce, payload);
    lemma_mask_tag_involutive(key, altered_hash, nonce);
}

/// A round challenge whose encrypted payload was altered no longer decrypts
/// to the original payload.
pub proof fn lemma_altered_challenge_changes_payload(
    key: Seq<u8>,
    nonce: Seq<u8>,
    payload: Seq<u8>,
    altered_challenge: Seq<u8>,
)
    requires
        altered_challenge != ctr_xor(key, nonce, payload),
    ensures
        ctr_xor(key, nonce, altered_challenge) != payload,
{
    lemma_ctr_xor_involutive(key, nonce, altered_challenge);
}

} // verus!
