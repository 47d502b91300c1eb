use crate::aes::CryptoError;
use vstd::prelude::*;

verus! {

/// The reserved flash-data field of the main challenge: ten zero bytes.
pub const FLASH_DATA: [u8; 10] = [0, 0, 0, 0, 0, 0, 0, 0, 0, 0];

/// The inner pairing challenge, 80 bytes on the wire.
#[derive(Clone, Copy, Debug, PartialEq, Eq)]
pub struct MainChallengeData {
    pub bt_addr: [u8; 6],
    pub key: [u8; 16],
    pub nonce: [u8; 16],
    pub encrypted_challenge: [u8; 16],
    pub encrypted_hash: [u8; 16],
    pub flash_data: [u8; 10],
}

/// The outer pairing challenge sent to the device.
#[derive(Clone, Copy, Debug, PartialEq, Eq)]
pub struct ChallengeData {
    pub state: [u8; 4],
    pub nonce: [u8; 16],
    pub encrypted_main_challenge: [u8; 80],
    pub encrypted_hash: [u8; 16],
    pub bt_addr: [u8; 6],
    pub blob: [u8; 256],
}

/// A challenge of one authentication round after pairing.
#[derive(Clone, Copy, Debug, PartialEq, Eq)]
pub struct NextChallenge {
    pub state: [u8; 4],
    pub nonce: [u8; 16],
    pub encrypted_challenge: [u8; 16],
    pub encrypted_hash: [u8; 16],
}

impl MainChallengeData {
    /// The 80-byte layout: address, key, nonce, challenge, tag, reserved.
    pub open spec fn layout(self) -> Seq<u8> {
        self.bt_addr@ + self.key@ + self.nonce@ + self.encrypted_challenge@ + self.encrypted_hash@
            + self.flash_data@
    }

    /// Packs the record into its 80-byte layout.
    pub fn to_bytes(&self) -> (r: [u8; 80])
        ensures
            r@ == self.layout(),
    {
        let mut buf: [u8; 80] = [0u8; 80];
        let mut offset: usize = 0;
        offset = write_by_param(&mut buf, offset, &self.bt_addr);
        offset = write_by_param(&mut buf, offset, &self.key);
        offset = write_by_param(&mut buf, offset, &self.nonce);
        offset = write_by_param(&mut buf, offset, &self.encrypted_challenge);
        offset = write_by_param(&mut buf, offset, &self.encrypted_hash);
        write_by_param(&mut buf, offset, &self.flash_data);
        assert(buf@ =~= self.layout());
        buf
    }

    /// Unpacks an 80-byte layout.
    pub fn from_bytes(b: &[u8; 80]) -> (r: Self)
        ensures
            r.layout() == b@,
    {
        let r = MainChallengeData {
            bt_addr: read_at(b, 0),
            key: read_at(b, 6),
            nonce: read_at(b, 22),
            encrypted_challenge: read_at(b, 38),
            encrypted_hash: read_at(b, 54),
            flash_data: read_at(b, 70),
        };
        assert(r.layout() =~= b@);
        r
    }
}

/// Copies `src` into `buf` from `offset` on and returns the offset after it.
fn write_by_param<const N: usize, const M: usize>(buf: &mut [u8; N], offset: usize, src: &[u8; M]) -> (r: usize)
    requires
        offset + M <= N,
    ensures
        r == offset + M,
        forall|k: int| 0 <= k < M ==> final(buf)@[offset + k] == src@[k],
        forall|k: int| 0 <= k < N && !(offset <= k < offset + M) ==> final(buf)@[k] == old(buf)@[k],
{
    let mut i: usize = 0;
    while i < M
        invariant
            offset + M <= N,
            i <= M,
            forall|k: int| 0 <= k < i ==> buf@[offset + k] == src@[k],
            forall|k: int| 0 <= k < N && !(offset <= k < offset + i) ==> buf@[k] == old(buf)@[k],
        decreases M - i,
    {
        buf[offset + i] = src[i];
        i += 1;
    }
    offset + M
}

/// The `M` bytes of `b` from `offset` on.
pub(crate) fn read_at<const M: usize>(b: &[u8], offset: usize) -> (r: [u8; M])
    requires
        offset + M <= b.len(),
    ensures
        r@ == b@.subrange(offset as int, offset + M),
{
    let mut r: [u8; M] = [0u8; M];
    let mut i: usize = 0;
    while i < M
        invariant
            offset + M <= b.len(),
            i <= M,
            forall|k: int| 0 <= k < i ==> r@[k] == b@[offset + k],
        decreases M - i,
    {
        r[i] = b[offset + i];
        i += 1;
    }
    assert(r@ =~= b@.subrange(offset as int, offset + M));
    r
}

impl MainChallengeData {
    /// Unpacks a wire buffer, which must be exactly 80 bytes long.
    pub fn from_slice(b: &[u8]) -> (r: Result<Self, CryptoError>)
        ensures
            b@.len() == 80 <==> r is Ok,
            r is Ok ==> r->Ok_0.layout() == b@,
            r is Err ==> r->Err_0 == CryptoError::BufferLength,
    {
        if b.len() != 80 {
            return Err(CryptoError::BufferLength);
        }
        let r = MainChallengeData {
            bt_addr: read_at(b, 0),
            key: read_at(b, 6),
            nonce: read_at(b, 22),
            encrypted_challenge: read_at(b, 38),
            encrypted_hash: read_at(b, 54),
            flash_data: read_at(b, 70),
        };
        assert(r.layout() =~= b@);
        Ok(r)
    }
}

impl NextChallenge {
    /// The 52-byte layout: state, nonce, challenge, tag.
    pub open spec fn layout52(self) -> Seq<u8> {
        self.state@ + self.nonce@ + self.encrypted_challenge@ + self.encrypted_hash@
    }

    /// The 48-byte layout, without the state: nonce, challenge, tag.
    pub open spec fn layout48(self) -> Seq<u8> {
        self.nonce@ + self.encrypted_challenge@ + self.encrypted_hash@
    }

    /// Packs the record into its 52-byte layout.
    pub fn to_bytes52(&self) -> (r: [u8; 52])
        ensures
            r@ == self.layout52(),
    {
        let mut buf: [u8; 52] = [0u8; 52];
        let mut offset: usize = 0;
        offset = write_by_param(&mut buf, offset, &self.state);
        offset = write_by_param(&mut buf, offset, &self.nonce);
        offset = write_by_param(&mut buf, offset, &self.encrypted_challenge);
        write_by_param(&mut buf, offset, &self.encrypted_hash);
        assert(buf@ =~= self.layout52());
        buf
    }

    /// Packs the record into its 48-byte layout, leaving out the state.
    pub fn to_bytes48(&self) -> (r: [u8; 48])
        ensures
            r@ == self.layout48(),
    {
        let mut buf: [u8; 48] = [0u8; 48];
        let mut offset: usize = 0;
        offset = write_by_param(&mut buf, offset, &self.nonce);
        offset = write_by_param(&mut buf, offset, &self.encrypted_challenge);
        write_by_param(&mut buf, offset, &self.encrypted_hash);
        assert(buf@ =~= self.layout48());
        buf
    }

    /// Unpacks a 52-byte layout.
    pub fn from_bytes52(b: &[u8; 52]) -> (r: Self)
        ensures
            r.layout52() == b@,
    {
        let r = NextChallenge {
            state: read_at(b, 0),
            nonce: read_at(b, 4),
            encrypted_challenge: read_at(b, 20),
            encrypted_hash: read_at(b, 36),
        };
        assert(r.layout52() =~= b@);
        r
    }

    /// Unpacks a 48-byte layout; the state, which it does not hold, is zero.
    pub fn from_bytes48(b: &[u8; 48]) -> (r: Self)
        ensures
            r.layout48() == b@,
            r.state@ == seq![0u8, 0u8, 0u8, 0u8],
    {
        let r = NextChallenge {
            state: [0u8; 4],
            nonce: read_at(b, 0),
            encrypted_challenge: read_at(b, 16),
            encrypted_hash: read_at(b, 32),
        };
        assert(r.state@ =~= seq![0u8, 0u8, 0u8, 0u8]);
        assert(r.layout48() =~= b@);
        r
    }

    /// Unpacks a wire buffer in the 52-byte layout, which must be exactly
    /// 52 bytes long.
    pub fn from_slice(b: &[u8]) -> (r: Result<Self, CryptoError>)
        ensures
            b@.len() == 52 <==> r is Ok,
            r is Ok ==> r->Ok_0.layout52() == b@,
            r is Err ==> r->Err_0 == CryptoError::BufferLength,
    {
        if b.len() != 52 {
            return Err(CryptoError::BufferLength);
        }
        let r = NextChallenge {
            state: read_at(b, 0),
            nonce: read_at(b, 4),
            encrypted_challenge: read_at(b, 20),
            encrypted_hash: read_at(b, 36),
        };
        assert(r.layout52() =~= b@);
        Ok(r)
    }
}

impl ChallengeData {
    /// The 378-byte wire layout: state, nonce, encrypted main challenge,
    /// tag, address, blob.
    pub open spec fn layout(self) -> Seq<u8> {
        self.state@ + self.nonce@ + self.encrypted_main_challenge@ + self.encrypted_hash@
            + self.bt_addr@ + self.blob@
    }

    /// Packs the record into its wire layout.
    pub fn to_bytes(&self) -> (r: [u8; 378])
        ensures
            r@ == self.layout(),
    {
        let mut buf: [u8; 378] = [0u8; 378];
        let mut offset: usize = 0;
        offset = write_by_param(&mut buf, offset, &self.state);
        offset = write_by_param(&mut buf, offset, &self.nonce);
        offset = write_by_param(&mut buf, offset, &self.encrypted_main_challenge);
        offset = write_by_param(&mut buf, offset, &self.encrypted_hash);
        offset = write_by_param(&mut buf, offset, &self.bt_addr);
        write_by_param(&mut buf, offset, &self.blob);
        assert(buf@ =~= self.layout());
        buf
    }
}

/// Two arrays with the same bytes are the same array.
proof fn lemma_array_eq<const N: usize>(a: [u8; N], b: [u8; N])
    requires
        a@ == b@,
    ensures
        a == b,
{
    assert(a =~= b) by {
        assert forall|i: int| 0 <= i < N implies a[i] == b[i] by {
            assert(a@[i] == b@[i]);
        }
    }
}

/// Unpacking the 80 bytes that packing produced gives back the record: a
/// main challenge is determined by its layout.
pub proof fn lemma_main_round_trip(m: MainChallengeData, r: MainChallengeData)
    requires
        r.layout() == m.layout(),
    ensures
        r == m,
{
    let (a, b) = (r.layout(), m.layout());
    assert(r.bt_addr@ =~= a.subrange(0, 6) && m.bt_addr@ =~= b.subrange(0, 6));
    assert(r.key@ =~= a.subrange(6, 22) && m.key@ =~= b.subrange(6, 22));
    assert(r.nonce@ =~= a.subrange(22, 38) && m.nonce@ =~= b.subrange(22, 38));
    assert(r.encrypted_challenge@ =~= a.subrange(38, 54) && m.encrypted_challenge@ =~= b.subrange(38, 54));
    assert(r.encrypted_hash@ =~= a.subrange(54, 70) && m.encrypted_hash@ =~= b.subrange(54, 70));
    assert(r.flash_data@ =~= a.subrange(70, 80) && m.flash_data@ =~= b.subrange(70, 80));
    lemma_array_eq(r.bt_addr, m.bt_addr);
    lemma_array_eq(r.key, m.key);
    lemma_array_eq(r.nonce, m.nonce);
    lemma_array_eq(r.encrypted_challenge, m.encrypted_challenge);
    lemma_array_eq(r.encrypted_hash, m.encrypted_hash);
    lemma_array_eq(r.flash_data, m.flash_data);
}

/// Unpacking the 52 bytes that packing produced gives back the record.
pub proof fn lemma_next52_round_trip(m: NextChallenge, r: NextChallenge)
    requires
        r.layout52() == m.layout52(),
    ensures
        r == m,
{
    let (a, b) = (r.layout52(), m.layout52());
    assert(r.state@ =~= a.subrange(0, 4) && m.state@ =~= b.subrange(0, 4));
    assert(r.nonce@ =~= a.subrange(4, 20) && m.nonce@ =~= b.subrange(4, 20));
    assert(r.encrypted_challenge@ =~= a.subrange(20, 36) && m.encrypted_challenge@ =~= b.subrange(20, 36));
    assert(r.encrypted_hash@ =~= a.subrange(36, 52) && m.encrypted_hash@ =~= b.subrange(36, 52));
    lemma_array_eq(r.state, m.state);
    lemma_array_eq(r.nonce, m.nonce);
    lemma_array_eq(r.encrypted_challenge, m.encrypted_challenge);
    lemma_array_eq(r.encrypted_hash, m.encrypted_hash);
}

/// Unpacking the 48 bytes that packing produced gives back the record when
/// its state is zero, the state that the 48-byte layout leaves out.
pub proof fn lemma_next48_round_trip(m: NextChallenge, r: NextChallenge)
    requires
        r.layout48() == m.layout48(),
        r.state@ == seq![0u8, 0u8, 0u8, 0u8],
        m.state@ == seq![0u8, 0u8, 0u8, 0u8],
    ensures
        r == m,
{
    let (a, b) = (r.layout48(), m.layout48());
    assert(r.nonce@ =~= a.subrange(0, 16) && m.nonce@ =~= b.subrange(0, 16));
    assert(r.encrypted_challenge@ =~= a.subrange(16, 32) && m.encrypted_challenge@ =~= b.subrange(16, 32));
    assert(r.encrypted_hash@ =~= a.subrange(32, 48) && m.encrypted_hash@ =~= b.subrange(32, 48));
    lemma_array_eq(r.state, m.state);
    lemma_array_eq(r.nonce, m.nonce);
    lemma_array_eq(r.encrypted_challenge, m.encrypted_challenge);
    lemma_array_eq(r.encrypted_hash, m.encrypted_hash);
}

} // verus!
