//! On-disk vault file format: the plaintext header and the framing of the
//! sealed body. Pure byte handling, no cryptography and no I/O. All
//! multi-byte integers are little-endian.
//!
//! ```text
//! off  len  field            value
//!   0    4  magic            ASCII "SPK1"
//!   4    2  format_version   u16 = 1
//!   6    1  kdf_id           u8  = 1 (Argon2id)
//!   7    1  cipher_id        u8  = 1 (XChaCha20-Poly1305)
//!   8    4  argon2_m_cost    u32 (KiB)
//!  12    4  argon2_t_cost    u32
//!  16    4  argon2_p_cost    u32
//!  20    4  argon2_version   u32 = 0x13
//!  24    2  salt_len         u16 = 16
//!  26   16  salt
//!  42    2  nonce_len        u16 = 24
//!  44   24  nonce
//!  68    8  ciphertext_len   u64
//!  76    N  ciphertext       AEAD output (plaintext + 16-byte tag)
//! ```
//!
//! The 68 header bytes are the AEAD associated data, so every parameter is
//! authenticated together with the body.

use vstd::prelude::*;

use crate::vault_core::error::VaultError;

verus! {

broadcast use vstd::array::group_array_axioms;

/// Magic bytes at the start of every vault file: ASCII `"SPK1"`.
pub const MAGIC: [u8; 4] = [83u8, 80u8, 75u8, 49u8];

/// The format version this library reads and writes.
pub const FORMAT_VERSION: u16 = 1;

/// KDF identifier for Argon2id.
pub const KDF_ID_ARGON2ID: u8 = 1;

/// Cipher identifier for XChaCha20-Poly1305.
pub const CIPHER_ID_XCHACHA20POLY1305: u8 = 1;

/// Argon2 algorithm version recorded in the header (v1.3).
pub const ARGON2_VERSION: u32 = 0x13;

/// Salt length, in bytes.
pub const SALT_LEN: usize = 16;

/// Nonce length, in bytes (192-bit XChaCha20 nonce).
pub const NONCE_LEN: usize = 24;

/// Fixed size of the plaintext header, in bytes.
pub const HEADER_LEN: usize = 68;

/// Length of the AEAD authentication tag, in bytes; the smallest ciphertext
/// a well-formed file can carry.
pub const TAG_LEN: usize = 16;

/// Offset of the `u64` ciphertext length field.
pub const CIPHERTEXT_LEN_OFFSET: usize = 68;

/// Offset of the ciphertext itself.
pub const CIPHERTEXT_OFFSET: usize = 76;

/// Header fields recovered from a vault file.
#[derive(Debug, Clone, PartialEq, Eq)]
pub struct ParsedHeader {
    /// Format version (always [`FORMAT_VERSION`] once decoded).
    pub format_version: u16,
    /// KDF identifier (always [`KDF_ID_ARGON2ID`] once decoded).
    pub kdf_id: u8,
    /// Cipher identifier (always [`CIPHER_ID_XCHACHA20POLY1305`] once decoded).
    pub cipher_id: u8,
    /// Argon2 memory cost, KiB.
    pub m_cost_kib: u32,
    /// Argon2 time cost.
    pub t_cost: u32,
    /// Argon2 parallelism.
    pub p_cost: u32,
    /// Argon2 version as recorded (not validated when decoding).
    pub argon2_version: u32,
    /// Per-vault salt.
    pub salt: [u8; 16],
    /// Nonce of the current seal.
    pub nonce: [u8; 24],
    /// The exact 68 header bytes, used as AEAD associated data.
    pub header_bytes: [u8; 68],
}

/// Header fields supplied when encoding a vault file.
#[derive(Debug, Clone, Copy)]
pub struct HeaderFields {
    /// Argon2 memory cost, KiB.
    pub m_cost_kib: u32,
    /// Argon2 time cost.
    pub t_cost: u32,
    /// Argon2 parallelism.
    pub p_cost: u32,
    /// Per-vault salt.
    pub salt: [u8; 16],
    /// Nonce of this seal.
    pub nonce: [u8; 24],
}

// ---- Little-endian integers --------------------------------------------------

/// The two little-endian bytes of `v`.
pub open spec fn le16(v: u16) -> Seq<u8> {
    seq![(v % 0x100) as u8, (v / 0x100) as u8]
}

/// The four little-endian bytes of `v`.
pub open spec fn le32(v: u32) -> Seq<u8> {
    seq![
        (v % 0x100) as u8,
        ((v / 0x100) % 0x100) as u8,
        ((v / 0x10000) % 0x100) as u8,
        (v / 0x1000000) as u8,
    ]
}

/// The eight little-endian bytes of `v`.
pub open spec fn le64(v: u64) -> Seq<u8> {
    seq![
        (v % 0x100) as u8,
        ((v / 0x100) % 0x100) as u8,
        ((v / 0x10000) % 0x100) as u8,
        ((v / 0x1000000) % 0x100) as u8,
        ((v / 0x100000000) % 0x100) as u8,
        ((v / 0x10000000000) % 0x100) as u8,
        ((v / 0x1000000000000) % 0x100) as u8,
        (v / 0x100000000000000) as u8,
    ]
}

/// The little-endian `u16` stored at `off` in `b`.
pub open spec fn get_le16(b: Seq<u8>, off: int) -> u16 {
    (b[off] + 0x100 * b[off + 1]) as u16
}

/// The little-endian `u32` stored at `off` in `b`.
pub open spec fn get_le32(b: Seq<u8>, off: int) -> u32 {
    (b[off] + 0x100 * b[off + 1] + 0x10000 * b[off + 2] + 0x1000000 * b[off + 3]) as u32
}

/// The little-endian `u64` stored at `off` in `b`.
pub open spec fn get_le64(b: Seq<u8>, off: int) -> u64 {
    (b[off] + 0x100 * b[off + 1] + 0x10000 * b[off + 2] + 0x1000000 * b[off + 3] + 0x100000000
        * b[off + 4] + 0x10000000000 * b[off + 5] + 0x1000000000000 * b[off + 6]
        + 0x100000000000000 * b[off + 7]) as u64
}

fn u16_to_le(v: u16) -> (r: (u8, u8))
    ensures
        seq![r.0, r.1] == le16(v),
{
    ((v % 0x100) as u8, (v / 0x100) as u8)
}

fn u32_to_le(v: u32) -> (r: [u8; 4])
    ensures
        r@ == le32(v),
{
    let r = [
        (v % 0x100) as u8,
        ((v / 0x100) % 0x100) as u8,
        ((v / 0x10000) % 0x100) as u8,
        (v / 0x1000000) as u8,
    ];
    assert(r@ =~= le32(v));
    r
}

fn u64_to_le(v: u64) -> (r: [u8; 8])
    ensures
        r@ == le64(v),
{
    let r = [
        (v % 0x100) as u8,
        ((v / 0x100) % 0x100) as u8,
        ((v / 0x10000) % 0x100) as u8,
        ((v / 0x1000000) % 0x100) as u8,
        ((v / 0x100000000) % 0x100) as u8,
        ((v / 0x10000000000) % 0x100) as u8,
        ((v / 0x1000000000000) % 0x100) as u8,
        (v / 0x100000000000000) as u8,
    ];
    assert(r@ =~= le64(v));
    r
}

fn read_le16(b: &[u8], off: usize) -> (r: u16)
    requires
        off + 2 <= b@.len(),
    ensures
        r == get_le16(b@, off as int),
{
    b[off] as u16 + 0x100 * (b[off + 1] as u16)
}

fn read_le32(b: &[u8], off: usize) -> (r: u32)
    requires
        off + 4 <= b@.len(),
    ensures
        r == get_le32(b@, off as int),
{
    b[off] as u32 + 0x100 * (b[off + 1] as u32) + 0x10000 * (b[off + 2] as u32) + 0x1000000 * (
    b[off + 3] as u32)
}

fn read_le64(b: &[u8], off: usize) -> (r: u64)
    requires
        off + 8 <= b@.len(),
    ensures
        r == get_le64(b@, off as int),
{
    b[off] as u64 + 0x100 * (b[off + 1] as u64) + 0x10000 * (b[off + 2] as u64) + 0x1000000 * (
    b[off + 3] as u64) + 0x100000000 * (b[off + 4] as u64) + 0x10000000000 * (b[off + 5] as u64)
        + 0x1000000000000 * (b[off + 6] as u64) + 0x100000000000000 * (b[off + 7] as u64)
}

proof fn lemma_u64_digits(v: u64)
    ensures
        v == (v % 0x100) + 0x100 * ((v / 0x100) % 0x100) + 0x10000 * ((v / 0x10000) % 0x100)
            + 0x1000000 * ((v / 0x1000000) % 0x100) + 0x100000000 * ((v / 0x100000000) % 0x100)
            + 0x10000000000 * ((v / 0x10000000000) % 0x100) + 0x1000000000000 * ((v
            / 0x1000000000000) % 0x100) + 0x100000000000000 * (v / 0x100000000000000),
        v / 0x100000000000000 < 0x100,
{
    assert(v == (v % 0x100) + 0x100 * ((v / 0x100) % 0x100) + 0x10000 * ((v / 0x10000) % 0x100)
        + 0x1000000 * ((v / 0x1000000) % 0x100) + 0x100000000 * ((v / 0x100000000) % 0x100)
        + 0x10000000000 * ((v / 0x10000000000) % 0x100) + 0x1000000000000 * ((v / 0x1000000000000)
        % 0x100) + 0x100000000000000 * (v / 0x100000000000000)) by (bit_vector);
    assert(v / 0x100000000000000 < 0x100) by (bit_vector);
}

/// Decoding the little-endian encoding of a value gives the value back.
pub proof fn lemma_le_roundtrip(a: u16, b: u32, c: u64)
    ensures
        get_le16(le16(a), 0) == a,
        get_le32(le32(b), 0) == b,
        get_le64(le64(c), 0) == c,
{
    lemma_u64_digits(c);
}

// ---- Header and file layout --------------------------------------------------

/// The magic bytes as a sequence.
pub open spec fn magic_bytes() -> Seq<u8> {
    seq![83u8, 80u8, 75u8, 49u8]
}

/// The 68 header bytes written for `f`.
pub open spec fn header_bytes_of(f: HeaderFields) -> Seq<u8> {
    magic_bytes() + le16(1) + seq![1u8, 1u8] + le32(f.m_cost_kib) + le32(f.t_cost) + le32(
        f.p_cost,
    ) + le32(0x13) + le16(16) + f.salt@ + le16(24) + f.nonce@
}

/// The complete file written for header fields `f` and ciphertext `ct`.
pub open spec fn file_bytes_of(f: HeaderFields, ct: Seq<u8>) -> Seq<u8> {
    header_bytes_of(f) + le64(ct.len() as u64) + ct
}

/// The error `decode` reports for `b`, checked in this order, or `None` when
/// `b` is a well-formed vault file.
pub open spec fn decode_error(b: Seq<u8>) -> Option<VaultError> {
    if b.len() < 76 {
        Some(VaultError::MalformedFile)
    } else if b.subrange(0, 4) != magic_bytes() {
        Some(VaultError::BadMagic)
    } else if get_le16(b, 4) != 1 {
        Some(VaultError::UnsupportedVersion(get_le16(b, 4)))
    } else if b[6] != 1 {
        Some(VaultError::UnsupportedKdf(b[6]))
    } else if b[7] != 1 {
        Some(VaultError::UnsupportedCipher(b[7]))
    } else if get_le16(b, 24) != 16 || get_le16(b, 42) != 24 {
        Some(VaultError::MalformedFile)
    } else if b.len() != 76 + get_le64(b, 68) || get_le64(b, 68) < 16 {
        Some(VaultError::MalformedFile)
    } else {
        None
    }
}

/// `h` holds the header fields stored in the file `b`.
pub open spec fn header_read_from(h: ParsedHeader, b: Seq<u8>) -> bool {
    &&& h.format_version == 1
    &&& h.kdf_id == 1
    &&& h.cipher_id == 1
    &&& h.m_cost_kib == get_le32(b, 8)
    &&& h.t_cost == get_le32(b, 12)
    &&& h.p_cost == get_le32(b, 16)
    &&& h.argon2_version == get_le32(b, 20)
    &&& h.salt@ == b.subrange(26, 42)
    &&& h.nonce@ == b.subrange(44, 68)
    &&& h.header_bytes@ == b.subrange(0, 68)
}

/// `h` is the parsed form of the header written for `f`.
pub open spec fn header_describes(h: ParsedHeader, f: HeaderFields) -> bool {
    &&& h.format_version == 1
    &&& h.kdf_id == 1
    &&& h.cipher_id == 1
    &&& h.m_cost_kib == f.m_cost_kib
    &&& h.t_cost == f.t_cost
    &&& h.p_cost == f.p_cost
    &&& h.argon2_version == 0x13
    &&& h.salt == f.salt
    &&& h.nonce == f.nonce
    &&& h.header_bytes@ == header_bytes_of(f)
}

/// The header fields of a parsed header.
pub open spec fn fields_of(h: ParsedHeader) -> HeaderFields {
    HeaderFields {
        m_cost_kib: h.m_cost_kib,
        t_cost: h.t_cost,
        p_cost: h.p_cost,
        salt: h.salt,
        nonce: h.nonce,
    }
}

proof fn lemma_header_layout(f: HeaderFields)
    ensures
        header_bytes_of(f).len() == 68,
        header_bytes_of(f).subrange(0, 4) == magic_bytes(),
        header_bytes_of(f).subrange(4, 6) == le16(1),
        header_bytes_of(f)[6] == 1,
        header_bytes_of(f)[7] == 1,
        header_bytes_of(f).subrange(8, 12) == le32(f.m_cost_kib),
        header_bytes_of(f).subrange(12, 16) == le32(f.t_cost),
        header_bytes_of(f).subrange(16, 20) == le32(f.p_cost),
        header_bytes_of(f).subrange(20, 24) == le32(0x13),
        header_bytes_of(f).subrange(24, 26) == le16(16),
        header_bytes_of(f).subrange(26, 42) == f.salt@,
        header_bytes_of(f).subrange(42, 44) == le16(24),
        header_bytes_of(f).subrange(44, 68) == f.nonce@,
{
    let h = header_bytes_of(f);
    assert(h.subrange(0, 4) =~= magic_bytes());
    assert(h.subrange(4, 6) =~= le16(1));
    assert(h.subrange(8, 12) =~= le32(f.m_cost_kib));
    assert(h.subrange(12, 16) =~= le32(f.t_cost));
    assert(h.subrange(16, 20) =~= le32(f.p_cost));
    assert(h.subrange(20, 24) =~= le32(0x13));
    assert(h.subrange(24, 26) =~= le16(16));
    assert(h.subrange(26, 42) =~= f.salt@);
    assert(h.subrange(42, 44) =~= le16(24));
    assert(h.subrange(44, 68) =~= f.nonce@);
}

proof fn lemma_le16_at(b: Seq<u8>, off: int, v: u16)
    requires
        0 <= off,
        off + 2 <= b.len(),
        b.subrange(off, off + 2) == le16(v),
    ensures
        get_le16(b, off) == v,
{
    assert(b[off] == b.subrange(off, off + 2)[0]);
    assert(b[off + 1] == b.subrange(off, off + 2)[1]);
}

proof fn lemma_le32_at(b: Seq<u8>, off: int, v: u32)
    requires
        0 <= off,
        off + 4 <= b.len(),
        b.subrange(off, off + 4) == le32(v),
    ensures
        get_le32(b, off) == v,
{
    let s = b.subrange(off, off + 4);
    assert(b[off] == s[0]);
    assert(b[off + 1] == s[1]);
    assert(b[off + 2] == s[2]);
    assert(b[off + 3] == s[3]);
}

proof fn lemma_le64_at(b: Seq<u8>, off: int, v: u64)
    requires
        0 <= off,
        off + 8 <= b.len(),
        b.subrange(off, off + 8) == le64(v),
    ensures
        get_le64(b, off) == v,
{
    let s = b.subrange(off, off + 8);
    lemma_u64_digits(v);
    assert(b[off] == s[0]);
    assert(b[off + 1] == s[1]);
    assert(b[off + 2] == s[2]);
    assert(b[off + 3] == s[3]);
    assert(b[off + 4] == s[4]);
    assert(b[off + 5] == s[5]);
    assert(b[off + 6] == s[6]);
    assert(b[off + 7] == s[7]);
}

/// Decoding a file written by `encode` succeeds and gives back exactly the
/// header fields and ciphertext it was written from (for every ciphertext
/// that can hold an AEAD tag).
pub proof fn lemma_decode_encode(f: HeaderFields, ct: Seq<u8>, h: ParsedHeader)
    requires
        16 <= ct.len(),
        76 + ct.len() <= u64::MAX,
    ensures
        decode_error(file_bytes_of(f, ct)) is None,
        file_bytes_of(f, ct).skip(76) == ct,
        header_read_from(h, file_bytes_of(f, ct)) <==> header_describes(h, f),
{
    let hb = header_bytes_of(f);
    let b = file_bytes_of(f, ct);
    lemma_header_layout(f);
    assert(b.subrange(0, 68) =~= hb);
    assert(b.subrange(68, 76) =~= le64(ct.len() as u64));
    assert(b.skip(76) =~= ct);
    assert(b.subrange(0, 4) =~= hb.subrange(0, 4));
    assert(b.subrange(4, 6) =~= hb.subrange(4, 6));
    assert(b.subrange(8, 12) =~= hb.subrange(8, 12));
    assert(b.subrange(12, 16) =~= hb.subrange(12, 16));
    assert(b.subrange(16, 20) =~= hb.subrange(16, 20));
    assert(b.subrange(20, 24) =~= hb.subrange(20, 24));
    assert(b.subrange(24, 26) =~= hb.subrange(24, 26));
    assert(b.subrange(26, 42) =~= hb.subrange(26, 42));
    assert(b.subrange(42, 44) =~= hb.subrange(42, 44));
    assert(b.subrange(44, 68) =~= hb.subrange(44, 68));
    assert(b[6] == hb[6]);
    assert(b[7] == hb[7]);
    lemma_le16_at(b, 4, 1);
    lemma_le32_at(b, 8, f.m_cost_kib);
    lemma_le32_at(b, 12, f.t_cost);
    lemma_le32_at(b, 16, f.p_cost);
    lemma_le32_at(b, 20, 0x13);
    lemma_le16_at(b, 24, 16);
    lemma_le16_at(b, 42, 24);
    lemma_le64_at(b, 68, ct.len() as u64);
    if header_read_from(h, b) {
        assert(h.salt@ =~= f.salt@);
        assert(h.nonce@ =~= f.nonce@);
        assert(h.salt == f.salt);
        assert(h.nonce == f.nonce);
        assert(h.header_bytes@ =~= hb);
    }
    if header_describes(h, f) {
        assert(h.salt@ == b.subrange(26, 42));
        assert(h.nonce@ == b.subrange(44, 68));
        assert(h.header_bytes@ == b.subrange(0, 68));
        assert(h.m_cost_kib == get_le32(b, 8));
        assert(h.argon2_version == get_le32(b, 20));
    }
}

proof fn lemma_le16_inv(b: Seq<u8>, off: int)
    requires
        0 <= off,
        off + 2 <= b.len(),
    ensures
        b.subrange(off, off + 2) == le16(get_le16(b, off)),
{
    let x0 = b[off];
    let x1 = b[off + 1];
    assert(((x0 + 0x100 * x1) as u16) % 0x100 == x0 && ((x0 + 0x100 * x1) as u16) / 0x100 == x1)
        by (bit_vector);
    assert(b.subrange(off, off + 2) =~= le16(get_le16(b, off)));
}

proof fn lemma_le32_inv(b: Seq<u8>, off: int)
    requires
        0 <= off,
        off + 4 <= b.len(),
    ensures
        b.subrange(off, off + 4) == le32(get_le32(b, off)),
{
    let x0 = b[off];
    let x1 = b[off + 1];
    let x2 = b[off + 2];
    let x3 = b[off + 3];
    assert({
        let v = (x0 + 0x100 * x1 + 0x10000 * x2 + 0x1000000 * x3) as u32;
        &&& v % 0x100 == x0
        &&& (v / 0x100) % 0x100 == x1
        &&& (v / 0x10000) % 0x100 == x2
        &&& v / 0x1000000 == x3
    }) by (bit_vector);
    assert(b.subrange(off, off + 4) =~= le32(get_le32(b, off)));
}

proof fn lemma_le64_inv(b: Seq<u8>, off: int)
    requires
        0 <= off,
        off + 8 <= b.len(),
    ensures
        b.subrange(off, off + 8) == le64(get_le64(b, off)),
{
    let x0 = b[off];
    let x1 = b[off + 1];
    let x2 = b[off + 2];
    let x3 = b[off + 3];
    let x4 = b[off + 4];
    let x5 = b[off + 5];
    let x6 = b[off + 6];
    let x7 = b[off + 7];
    assert({
        let v = (x0 + 0x100 * x1 + 0x10000 * x2 + 0x1000000 * x3 + 0x100000000 * x4 + 0x10000000000
            * x5 + 0x1000000000000 * x6 + 0x100000000000000 * x7) as u64;
        &&& v % 0x100 == x0
        &&& (v / 0x100) % 0x100 == x1
        &&& (v / 0x10000) % 0x100 == x2
        &&& (v / 0x1000000) % 0x100 == x3
        &&& (v / 0x100000000) % 0x100 == x4
        &&& (v / 0x10000000000) % 0x100 == x5
        &&& (v / 0x1000000000000) % 0x100 == x6
        &&& v / 0x100000000000000 == x7
    }) by (bit_vector);
    assert(b.subrange(off, off + 8) =~= le64(get_le64(b, off)));
}

/// A well-formed vault file has exactly one encoding: re-encoding what
/// `decode` read from it (when it records Argon2 v1.3, the only version
/// `encode` writes) reproduces the file byte for byte.
pub proof fn lemma_encode_decode(b: Seq<u8>, h: ParsedHeader)
    requires
        decode_error(b) is None,
        header_read_from(h, b),
        h.argon2_version == 0x13,
    ensures
        b == file_bytes_of(fields_of(h), b.skip(76)),
{
    let f = fields_of(h);
    let ct = b.skip(76);
    let e = file_bytes_of(f, ct);
    lemma_header_layout(f);
    lemma_le16_inv(b, 4);
    lemma_le32_inv(b, 8);
    lemma_le32_inv(b, 12);
    lemma_le32_inv(b, 16);
    lemma_le32_inv(b, 20);
    lemma_le16_inv(b, 24);
    lemma_le16_inv(b, 42);
    lemma_le64_inv(b, 68);
    let hb = header_bytes_of(f);
    assert(e.subrange(0, 68) =~= hb);
    assert(e.subrange(68, 76) =~= le64(ct.len() as u64));
    assert(e.skip(76) =~= ct);
    assert forall|i: int| 0 <= i < b.len() implies b[i] == e[i] by {
        if i < 4 {
            assert(b[i] == b.subrange(0, 4)[i]);
            assert(e[i] == hb.subrange(0, 4)[i]);
        } else if i < 6 {
            assert(b[i] == b.subrange(4, 6)[i - 4]);
            assert(e[i] == hb.subrange(4, 6)[i - 4]);
        } else if i < 8 {
        } else if i < 12 {
            assert(b[i] == b.subrange(8, 12)[i - 8]);
            assert(e[i] == hb.subrange(8, 12)[i - 8]);
        } else if i < 16 {
            assert(b[i] == b.subrange(12, 16)[i - 12]);
            assert(e[i] == hb.subrange(12, 16)[i - 12]);
        } else if i < 20 {
            assert(b[i] == b.subrange(16, 20)[i - 16]);
            assert(e[i] == hb.subrange(16, 20)[i - 16]);
        } else if i < 24 {
            assert(b[i] == b.subrange(20, 24)[i - 20]);
            assert(e[i] == hb.subrange(20, 24)[i - 20]);
        } else if i < 26 {
            assert(b[i] == b.subrange(24, 26)[i - 24]);
            assert(e[i] == hb.subrange(24, 26)[i - 24]);
        } else if i < 42 {
            assert(b[i] == h.salt@[i - 26]);
            assert(e[i] == hb.subrange(26, 42)[i - 26]);
        } else if i < 44 {
            assert(b[i] == b.subrange(42, 44)[i - 42]);
            assert(e[i] == hb.subrange(42, 44)[i - 42]);
        } else if i < 68 {
            assert(b[i] == h.nonce@[i - 44]);
            assert(e[i] == hb.subrange(44, 68)[i - 44]);
        } else if i < 76 {
            assert(b[i] == b.subrange(68, 76)[i - 68]);
            assert(e[i] == e.subrange(68, 76)[i - 68]);
        } else {
            assert(e[i] == e.skip(76)[i - 76]);
        }
    }
    assert(b =~= e);
}

// ---- Executable encoding and decoding ---------------------------------------

/// Build the fixed 68-byte header for `fields`. These bytes are both the
/// start of the file and the AEAD associated data of its body.
pub fn build_header_bytes(fields: &HeaderFields) -> (h: [u8; 68])
    ensures
        h@ == header_bytes_of(*fields),
{
    let mut h = [0u8; 68];
    h[0] = MAGIC[0];
    h[1] = MAGIC[1];
    h[2] = MAGIC[2];
    h[3] = MAGIC[3];
    let (v0, v1) = u16_to_le(FORMAT_VERSION);
    h[4] = v0;
    h[5] = v1;
    h[6] = KDF_ID_ARGON2ID;
    h[7] = CIPHER_ID_XCHACHA20POLY1305;
    let m = u32_to_le(fields.m_cost_kib);
    let t = u32_to_le(fields.t_cost);
    let p = u32_to_le(fields.p_cost);
    let a = u32_to_le(ARGON2_VERSION);
    let mut i: usize = 0;
    while i < 4
        invariant
            0 <= i <= 4,
            h@.len() == 68,
            h@[0] == 83 && h@[1] == 80 && h@[2] == 75 && h@[3] == 49 && h@[4] == 1 && h@[5] == 0 && h@[6] == 1 && h@[7] == 1,
            forall|j: int| 0 <= j < i ==> h@[8 + j] == m@[j] && h@[12 + j] == t@[j] && h@[16 + j] == p@[j] && h@[20 + j] == a@[j],
        decreases 4 - i,
    {
        h[8 + i] = m[i];
        h[12 + i] = t[i];
        h[16 + i] = p[i];
        h[20 + i] = a[i];
        i = i + 1;
    }
    let (s0, s1) = u16_to_le(SALT_LEN as u16);
    h[24] = s0;
    h[25] = s1;
    let mut i: usize = 0;
    while i < 16
        invariant
            0 <= i <= 16,
            h@.len() == 68,
            h@[0] == 83 && h@[1] == 80 && h@[2] == 75 && h@[3] == 49 && h@[4] == 1 && h@[5] == 0 && h@[6] == 1 && h@[7] == 1,
            forall|j: int| 0 <= j < 4 ==> h@[8 + j] == m@[j] && h@[12 + j] == t@[j] && h@[16 + j] == p@[j] && h@[20 + j] == a@[j],
            h@[24] == s0 && h@[25] == s1,
            forall|j: int| 0 <= j < i ==> h@[26 + j] == fields.salt@[j],
        decreases 16 - i,
    {
        h[26 + i] = fields.salt[i];
        i = i + 1;
    }
    let (n0, n1) = u16_to_le(NONCE_LEN as u16);
    h[42] = n0;
    h[43] = n1;
    let mut i: usize = 0;
    while i < 24
        invariant
            0 <= i <= 24,
            h@.len() == 68,
            h@[0] == 83 && h@[1] == 80 && h@[2] == 75 && h@[3] == 49 && h@[4] == 1 && h@[5] == 0 && h@[6] == 1 && h@[7] == 1,
            forall|j: int| 0 <= j < 4 ==> h@[8 + j] == m@[j] && h@[12 + j] == t@[j] && h@[16 + j] == p@[j] && h@[20 + j] == a@[j],
            h@[24] == s0 && h@[25] == s1,
            forall|j: int| 0 <= j < 16 ==> h@[26 + j] == fields.salt@[j],
            h@[42] == n0 && h@[43] == n1,
            forall|j: int| 0 <= j < i ==> h@[44 + j] == fields.nonce@[j],
        decreases 24 - i,
    {
        h[44 + i] = fields.nonce[i];
        i = i + 1;
    }
    proof {
        lemma_header_layout(*fields);
        let e = header_bytes_of(*fields);
        assert forall|j: int| 0 <= j < 68 implies h@[j] == e[j] by {
            if j < 4 {
                assert(e[j] == e.subrange(0, 4)[j]);
            } else if j < 6 {
                assert(e[j] == e.subrange(4, 6)[j - 4]);
            } else if j < 8 {
            } else if j < 12 {
                assert(e[j] == e.subrange(8, 12)[j - 8]);
                assert(h@[j] == m@[j - 8]);
            } else if j < 16 {
                assert(e[j] == e.subrange(12, 16)[j - 12]);
                assert(h@[j] == t@[j - 12]);
            } else if j < 20 {
                assert(e[j] == e.subrange(16, 20)[j - 16]);
                assert(h@[j] == p@[j - 16]);
            } else if j < 24 {
                assert(e[j] == e.subrange(20, 24)[j - 20]);
                assert(h@[j] == a@[j - 20]);
            } else if j < 26 {
                assert(e[j] == e.subrange(24, 26)[j - 24]);
            } else if j < 42 {
                assert(e[j] == e.subrange(26, 42)[j - 26]);
                assert(h@[j] == fields.salt@[j - 26]);
            } else if j < 44 {
                assert(e[j] == e.subrange(42, 44)[j - 42]);
            } else {
                assert(e[j] == e.subrange(44, 68)[j - 44]);
                assert(h@[j] == fields.nonce@[j - 44]);
            }
        }
        assert(h@ =~= e);
    }
    h
}

/// Encode a complete vault file from header fields and the sealed
/// ciphertext.
pub fn encode(fields: &HeaderFields, ciphertext: &[u8]) -> (out: Vec<u8>)
    requires
        ciphertext@.len() + 76 <= usize::MAX,
    ensures
        out@ == file_bytes_of(*fields, ciphertext@),
{
    let header = build_header_bytes(fields);
    let mut out: Vec<u8> = Vec::with_capacity(CIPHERTEXT_OFFSET + ciphertext.len());
    let mut i: usize = 0;
    while i < 68
        invariant
            0 <= i <= 68,
            out@ == header@.subrange(0, i as int),
        decreases 68 - i,
    {
        out.push(header[i]);
        i = i + 1;
        assert(out@ =~= header@.subrange(0, i as int));
    }
    let len_bytes = u64_to_le(ciphertext.len() as u64);
    let mut i: usize = 0;
    while i < 8
        invariant
            0 <= i <= 8,
            out@ == header@ + len_bytes@.subrange(0, i as int),
        decreases 8 - i,
    {
        out.push(len_bytes[i]);
        i = i + 1;
        assert(out@ =~= header@ + len_bytes@.subrange(0, i as int));
    }
    assert(len_bytes@.subrange(0, 8) =~= len_bytes@);
    out.extend_from_slice(ciphertext);
    assert(out@ =~= file_bytes_of(*fields, ciphertext@));
    out
}

/// Decode and validate a vault file, returning the parsed header and the
/// ciphertext bytes.
///
/// Rejects a short file, bad magic, unsupported version, KDF or cipher ids,
/// wrong salt or nonce lengths, any size mismatch (truncation or trailing
/// bytes), and a ciphertext too short to hold the AEAD tag.
pub fn decode(bytes: &[u8]) -> (r: Result<(ParsedHeader, &[u8]), VaultError>)
    ensures
        match r {
            Err(e) => decode_error(bytes@) == Some(e),
            Ok((h, ct)) => {
                &&& decode_error(bytes@) is None
                &&& header_read_from(h, bytes@)
                &&& ct@ == bytes@.skip(76)
            },
        },
{
    if bytes.len() < CIPHERTEXT_OFFSET {
        return Err(VaultError::MalformedFile);
    }
    if bytes[0] != MAGIC[0] || bytes[1] != MAGIC[1] || bytes[2] != MAGIC[2] || bytes[3]
        != MAGIC[3] {
        proof {
            if bytes@.subrange(0, 4) == magic_bytes() {
                assert(bytes@[0] == bytes@.subrange(0, 4)[0]);
                assert(bytes@[1] == bytes@.subrange(0, 4)[1]);
                assert(bytes@[2] == bytes@.subrange(0, 4)[2]);
                assert(bytes@[3] == bytes@.subrange(0, 4)[3]);
            }
        }
        return Err(VaultError::BadMagic);
    }
    assert(bytes@.subrange(0, 4) =~= magic_bytes());
    let format_version = read_le16(bytes, 4);
    if format_version != FORMAT_VERSION {
        return Err(VaultError::UnsupportedVersion(format_version));
    }
    let kdf_id = bytes[6];
    if kdf_id != KDF_ID_ARGON2ID {
        return Err(VaultError::UnsupportedKdf(kdf_id));
    }
    let cipher_id = bytes[7];
    if cipher_id != CIPHER_ID_XCHACHA20POLY1305 {
        return Err(VaultError::UnsupportedCipher(cipher_id));
    }
    let m_cost_kib = read_le32(bytes, 8);
    let t_cost = read_le32(bytes, 12);
    let p_cost = read_le32(bytes, 16);
    let argon2_version = read_le32(bytes, 20);
    let salt_len = read_le16(bytes, 24);
    if salt_len != SALT_LEN as u16 {
        return Err(VaultError::MalformedFile);
    }
    let nonce_len = read_le16(bytes, 42);
    if nonce_len != NONCE_LEN as u16 {
        return Err(VaultError::MalformedFile);
    }
    let ciphertext_len = read_le64(bytes, CIPHERTEXT_LEN_OFFSET);
    let expected_total = (CIPHERTEXT_OFFSET as u64).checked_add(ciphertext_len);
    match expected_total {
        None => {
            return Err(VaultError::MalformedFile);
        },
        Some(total) => {
            if bytes.len() as u64 != total {
                return Err(VaultError::MalformedFile);
            }
        },
    }
    if ciphertext_len < TAG_LEN as u64 {
        return Err(VaultError::MalformedFile);
    }
    let salt = copy_16(bytes, 26);
    let nonce = copy_24(bytes, 44);
    let header_bytes = copy_68(bytes);
    let header = ParsedHeader {
        format_version,
        kdf_id,
        cipher_id,
        m_cost_kib,
        t_cost,
        p_cost,
        argon2_version,
        salt,
        nonce,
        header_bytes,
    };
    let ct = &bytes[CIPHERTEXT_OFFSET..bytes.len()];
    assert(ct@ =~= bytes@.skip(76));
    Ok((header, ct))
}

pub(crate) fn copy_16(b: &[u8], off: usize) -> (r: [u8; 16])
    requires
        off + 16 <= b@.len(),
    ensures
        r@ == b@.subrange(off as int, off + 16),
{
    let mut r = [0u8; 16];
    let mut i: usize = 0;
    while i < 16
        invariant
            0 <= i <= 16,
            off + 16 <= b@.len(),
            off + 16 <= b.len(),
            r@.len() == 16,
            forall|j: int| 0 <= j < i ==> r@[j] == b@[off + j],
        decreases 16 - i,
    {
        r[i] = b[off + i];
        i = i + 1;
    }
    assert(r@ =~= b@.subrange(off as int, off + 16));
    r
}

pub(crate) fn copy_24(b: &[u8], off: usize) -> (r: [u8; 24])
    requires
        off + 24 <= b@.len(),
    ensures
        r@ == b@.subrange(off as int, off + 24),
{
    let mut r = [0u8; 24];
    let mut i: usize = 0;
    while i < 24
        invariant
            0 <= i <= 24,
            off + 24 <= b@.len(),
            off + 24 <= b.len(),
            r@.len() == 24,
            forall|j: int| 0 <= j < i ==> r@[j] == b@[off + j],
        decreases 24 - i,
    {
        r[i] = b[off + i];
        i = i + 1;
    }
    assert(r@ =~= b@.subrange(off as int, off + 24));
    r
}

fn copy_68(b: &[u8]) -> (r: [u8; 68])
    requires
        68 <= b@.len(),
    ensures
        r@ == b@.subrange(0, 68),
{
    let mut r = [0u8; 68];
    let mut i: usize = 0;
    while i < 68
        invariant
            0 <= i <= 68,
            68 <= b@.len(),
            r@.len() == 68,
            forall|j: int| 0 <= j < i ==> r@[j] == b@[j],
        decreases 68 - i,
    {
        r[i] = b[i];
        i = i + 1;
    }
    assert(r@ =~= b@.subrange(0, 68));
    r
}

} // verus!
