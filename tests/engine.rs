use aes::cipher::generic_array::GenericArray;
use aes::{Aes128, BlockEncrypt, NewBlockCipher};
use sfida::aes::{
    aes_ctr, aes_encrypt, aes_hash, aes_init, encrypt_block, inc_ctr, init_nonce_counter,
    init_nonce_hash, AESContext, CryptoError,
};

fn reference_block(key: &[u8; 16], block: &[u8; 16]) -> [u8; 16] {
    let cipher = Aes128::new(&(*key).into());
    let mut b = GenericArray::from(*block);
    cipher.encrypt_block(&mut b);
    b.into()
}

fn ctx(key: [u8; 16]) -> AESContext {
    aes_init(&key).unwrap()
}

fn counter(nonce: &[u8; 16], hi: u8, lo: u8) -> [u8; 16] {
    let mut c = [0u8; 16];
    c[0] = 1;
    c[1..14].copy_from_slice(&nonce[0..13]);
    c[14] = hi;
    c[15] = lo;
    c
}

#[test]
fn init_accepts_only_sixteen_byte_keys() {
    assert!(aes_init(&[0u8; 16]).is_ok());
    assert_eq!(aes_init(&[0u8; 15]).err(), Some(CryptoError::KeyLength));
    assert_eq!(aes_init(&[0u8; 17]).err(), Some(CryptoError::KeyLength));
    assert_eq!(aes_init(&[]).err(), Some(CryptoError::KeyLength));
    let key: [u8; 16] = core::array::from_fn(|i| i as u8 * 3);
    assert_eq!(aes_init(&key).unwrap().key, key);
}

#[test]
fn encrypt_matches_published_vector() {
    let key: [u8; 16] = core::array::from_fn(|i| i as u8);
    let plain = [
        0x00, 0x11, 0x22, 0x33, 0x44, 0x55, 0x66, 0x77, 0x88, 0x99, 0xaa, 0xbb, 0xcc, 0xdd, 0xee,
        0xff,
    ];
    let expected = [
        0x69, 0xc4, 0xe0, 0xd8, 0x6a, 0x7b, 0x04, 0x30, 0xd8, 0xcd, 0xb7, 0x80, 0x70, 0xb4, 0xc5,
        0x5a,
    ];
    assert_eq!(aes_encrypt(&ctx(key), &plain), expected);
}

#[test]
fn encrypt_is_deterministic_and_moves_the_block() {
    let key = [0x5au8; 16];
    let block = [0x11u8; 16];
    let c = ctx(key);
    let a = aes_encrypt(&c, &block);
    let b = aes_encrypt(&c, &block);
    let fresh = aes_encrypt(&ctx(key), &block);
    assert_eq!(a, b);
    assert_eq!(a, fresh);
    assert_ne!(a, block);
}

#[test]
fn counter_block_layout() {
    let nonce: [u8; 16] = core::array::from_fn(|i| 0x10 + i as u8);
    let c = init_nonce_counter(&nonce);
    assert_eq!(c, counter(&nonce, 0, 0));
}

#[test]
fn counter_increment_carries_and_wraps() {
    let nonce = [7u8; 16];
    let mut c = counter(&nonce, 0x00, 0x05);
    inc_ctr(&mut c);
    assert_eq!(c, counter(&nonce, 0x00, 0x06));
    let mut c = counter(&nonce, 0x00, 0xff);
    inc_ctr(&mut c);
    assert_eq!(c, counter(&nonce, 0x01, 0x00));
    let mut c = counter(&nonce, 0xff, 0xff);
    inc_ctr(&mut c);
    assert_eq!(c, counter(&nonce, 0x00, 0x00));
}

#[test]
fn hash_head_holds_the_length() {
    let nonce: [u8; 16] = core::array::from_fn(|i| 0xa0 + i as u8);
    let h = init_nonce_hash(&nonce, 0x0150);
    assert_eq!(h[0], 0x39);
    assert_eq!(&h[1..14], &nonce[0..13]);
    assert_eq!(h[14], 0x01);
    assert_eq!(h[15], 0x50);
    let h = init_nonce_hash(&nonce, 0x12345);
    assert_eq!((h[14], h[15]), (0x23, 0x45));
}

#[test]
fn ctr_refuses_partial_blocks() {
    let c = ctx([1u8; 16]);
    assert_eq!(aes_ctr(&c, &[2u8; 16], &[0u8; 15]).err(), Some(CryptoError::BufferLength));
    assert_eq!(aes_ctr(&c, &[2u8; 16], &[0u8; 33]).err(), Some(CryptoError::BufferLength));
    assert_eq!(aes_ctr(&c, &[2u8; 16], &[]).unwrap(), Vec::<u8>::new());
}

#[test]
fn ctr_twice_gives_the_data_back() {
    let c = ctx([9u8; 16]);
    let nonce = [3u8; 16];
    let data: Vec<u8> = (0..48u8).collect();
    let enc = aes_ctr(&c, &nonce, &data).unwrap();
    assert_eq!(enc.len(), 48);
    assert_ne!(enc, data);
    assert_eq!(aes_ctr(&c, &nonce, &enc).unwrap(), data);
}

#[test]
fn ctr_second_block_uses_next_counter() {
    let key = [0x42u8; 16];
    let mut nonce = [0x01u8; 16];
    nonce[15] = 0xff;
    let data = [0u8; 32];
    let out = aes_ctr(&ctx(key), &nonce, &data).unwrap();
    assert_eq!(&out[0..16], &reference_block(&key, &counter(&nonce, 0, 1)));
    assert_eq!(&out[16..32], &reference_block(&key, &counter(&nonce, 0, 2)));
}

#[test]
fn hash_matches_chained_construction() {
    let key = [0x24u8; 16];
    let nonce: [u8; 16] = core::array::from_fn(|i| i as u8);
    let data: Vec<u8> = (100..132u8).collect();
    let mut state = reference_block(&key, &init_nonce_hash(&nonce, 32));
    for chunk in data.chunks(16) {
        for j in 0..16 {
            state[j] ^= chunk[j];
        }
        state = reference_block(&key, &state);
    }
    assert_eq!(aes_hash(&ctx(key), &nonce, &data).unwrap(), state);
}

#[test]
fn hash_refuses_partial_blocks() {
    let c = ctx([1u8; 16]);
    assert_eq!(aes_hash(&c, &[2u8; 16], &[0u8; 17]).err(), Some(CryptoError::BufferLength));
}

#[test]
fn hash_binds_the_length() {
    let c = ctx([0x77u8; 16]);
    let nonce = [5u8; 16];
    let short = aes_hash(&c, &nonce, &[0u8; 16]).unwrap();
    let long = aes_hash(&c, &nonce, &[0u8; 32]).unwrap();
    let empty = aes_hash(&c, &nonce, &[]).unwrap();
    assert_ne!(short, long);
    assert_ne!(short, empty);
    assert_ne!(long, empty);
}

#[test]
fn mask_is_its_own_inverse() {
    let key = [0x31u8; 16];
    let c = ctx(key);
    let nonce = [0xc3u8; 16];
    let tag: [u8; 16] = core::array::from_fn(|i| 200 - i as u8);
    let masked = encrypt_block(&c, &tag, &nonce);
    let pad = reference_block(&key, &counter(&nonce, 0, 0));
    let expected: [u8; 16] = core::array::from_fn(|i| pad[i] ^ tag[i]);
    assert_eq!(masked, expected);
    assert_eq!(encrypt_block(&c, &masked, &nonce), tag);
}

#[test]
fn different_blocks_encrypt_differently() {
    let c = ctx([0x2bu8; 16]);
    let a = [0u8; 16];
    let mut b = a;
    b[15] = 1;
    assert_ne!(aes_encrypt(&c, &a), aes_encrypt(&c, &b));
}

#[test]
fn service_enums_are_at_the_crate_root() {
    let _ = sfida::BatteryService::IdxBatterySvc;
    let _ = sfida::LEDButtonService::IdxCharLed;
    let _ = sfida::CertificateService::CertLastIdx;
}
