//! Network digests, key derivation and the layout of encrypted packets.

use vstd::prelude::*;
use vstd::utf8::*;

use crate::bytes::{append_bytes, copy_bytes, push_be64};
use crate::constants::{PacketType, MY_PEER_ID};
use crate::packet::PacketHeader;
use crate::random::{get_random_bytes, RandomUnavailable};

verus! {

// ---- SipHash-1-3 ----

/// `x` turned left by `b` bits.
pub open spec fn rotated_left(x: u64, b: u64) -> u64 {
    (x << b) | (x >> ((64 - b) as u64))
}

fn rotl64(x: u64, b: u64) -> (r: u64)
    requires
        0 < b < 64,
    ensures
        r == rotated_left(x, b),
{
    (x << b) | (x >> (64 - b))
}

/// The four words that SipHash works on.
#[derive(Debug, Clone, Copy, PartialEq, Eq, Structural)]
pub struct SipState {
    pub v0: u64,
    pub v1: u64,
    pub v2: u64,
    pub v3: u64,
}

impl SipState {
    /// The state that a key starts from.
    pub open spec fn keyed(k0: u64, k1: u64) -> SipState {
        SipState {
            v0: 0x736f6d6570736575u64 ^ k0,
            v1: 0x646f72616e646f6du64 ^ k1,
            v2: 0x6c7967656e657261u64 ^ k0,
            v3: 0x7465646279746573u64 ^ k1,
        }
    }

    /// One SipRound.
    pub open spec fn round(self) -> SipState {
        let a0 = self.v0.wrapping_add(self.v1);
        let a1 = rotated_left(self.v1, 13) ^ a0;
        let a2 = self.v2.wrapping_add(self.v3);
        let a3 = rotated_left(self.v3, 16) ^ a2;
        let b0 = rotated_left(a0, 32).wrapping_add(a3);
        let b3 = rotated_left(a3, 21) ^ b0;
        let b2 = a2.wrapping_add(a1);
        let b1 = rotated_left(a1, 17) ^ b2;
        SipState { v0: b0, v1: b1, v2: rotated_left(b2, 32), v3: b3 }
    }

    /// The state after the message word `m`: one round, with `m` mixed in before and after.
    pub open spec fn absorb(self, m: u64) -> SipState {
        let s = SipState { v3: self.v3 ^ m, ..self }.round();
        SipState { v0: s.v0 ^ m, ..s }
    }

    /// The state after the first `n` whole words of `msg`.
    pub open spec fn absorb_words(self, msg: Seq<u8>, n: nat) -> SipState
        decreases n,
    {
        if n == 0 {
            self
        } else {
            self.absorb_words(msg, (n - 1) as nat).absorb(
                crate::bytes::from_le64(msg, 8 * (n - 1)),
            )
        }
    }

    /// The hash: three closing rounds, and the four words joined.
    pub open spec fn finished(self) -> u64 {
        let s = SipState { v2: self.v2 ^ 0xffu64, ..self }.round().round().round();
        s.v0 ^ s.v1 ^ s.v2 ^ s.v3
    }
}

/// The closing word of a message: its length modulo 256 in the top byte, and below it the first
/// `n` of the bytes that follow the whole words.
pub open spec fn closing_word(msg: Seq<u8>, n: nat) -> u64
    decreases n,
{
    if n == 0 {
        (msg.len() as u64) << 56
    } else {
        closing_word(msg, (n - 1) as nat) | ((msg[msg.len() - msg.len() % 8 + n - 1] as u64) << (8
            * (n - 1)) as u64)
    }
}

/// SipHash with one round for each word and three closing rounds.
pub open spec fn siphash(msg: Seq<u8>, k0: u64, k1: u64) -> u64 {
    SipState::keyed(k0, k1).absorb_words(msg, (msg.len() / 8) as nat).absorb(
        closing_word(msg, (msg.len() % 8) as nat),
    ).finished()
}

fn sip_round(v: SipState) -> (r: SipState)
    ensures
        r == v.round(),
{
    let mut v = v;
    v.v0 = v.v0.wrapping_add(v.v1);
    v.v1 = rotl64(v.v1, 13);
    v.v1 = v.v1 ^ v.v0;
    v.v0 = rotl64(v.v0, 32);

    v.v2 = v.v2.wrapping_add(v.v3);
    v.v3 = rotl64(v.v3, 16);
    v.v3 = v.v3 ^ v.v2;

    v.v0 = v.v0.wrapping_add(v.v3);
    v.v3 = rotl64(v.v3, 21);
    v.v3 = v.v3 ^ v.v0;

    v.v2 = v.v2.wrapping_add(v.v1);
    v.v1 = rotl64(v.v1, 17);
    v.v1 = v.v1 ^ v.v2;
    v.v2 = rotl64(v.v2, 32);
    v
}

fn absorb_word(v: SipState, m: u64) -> (r: SipState)
    ensures
        r == v.absorb(m),
{
    let mut v = v;
    v.v3 = v.v3 ^ m;
    let mut v = sip_round(v);
    v.v0 = v.v0 ^ m;
    v
}

pub(crate) fn read_u64_le(msg: &[u8], offset: usize) -> (r: u64)
    requires
        offset + 8 <= msg@.len(),
    ensures
        r == crate::bytes::from_le64(msg@, offset as int),
{
    (msg[offset] as u64) | ((msg[offset + 1] as u64) << 8) | ((msg[offset + 2] as u64) << 16) | ((
    msg[offset + 3] as u64) << 24) | ((msg[offset + 4] as u64) << 32) | ((msg[offset + 5] as u64)
        << 40) | ((msg[offset + 6] as u64) << 48) | ((msg[offset + 7] as u64) << 56)
}

/// SipHash-1-3: c=1 round per block, d=3 rounds finalization.
pub fn siphash_1_3(msg: &[u8], k0: u64, k1: u64) -> (r: u64)
    ensures
        r == siphash(msg@, k0, k1),
{
    let len: usize = msg.len();
    let words: usize = len / 8;
    let left: usize = len % 8;
    let full_len: usize = len - left;
    let mut v = SipState {
        v0: 0x736f6d6570736575u64 ^ k0,
        v1: 0x646f72616e646f6du64 ^ k1,
        v2: 0x6c7967656e657261u64 ^ k0,
        v3: 0x7465646279746573u64 ^ k1,
    };
    let mut w: usize = 0;
    while w < words
        invariant
            w <= words,
            8 * words <= len,
            len == msg@.len(),
            v == SipState::keyed(k0, k1).absorb_words(msg@, w as nat),
        decreases words - w,
    {
        v = absorb_word(v, read_u64_le(msg, 8 * w));
        w = w + 1;
    }
    let mut m: u64 = (len as u64) << 56;
    let mut i: usize = 0;
    while i < left
        invariant
            i <= left < 8,
            left == msg@.len() % 8,
            full_len == msg@.len() - left,
            m == closing_word(msg@, i as nat),
        decreases left - i,
    {
        m = m | ((msg[full_len + i] as u64) << ((8 * i) as u64));
        i = i + 1;
    }
    let mut v = absorb_word(v, m);
    v.v2 = v.v2 ^ 0xffu64;
    let v = sip_round(sip_round(sip_round(v)));
    v.v0 ^ v.v1 ^ v.v2 ^ v.v3
}

// ---- Digest generation ----

/// A digest under way: the digest so far, and all bytes hashed so far.
pub struct DigestSteps {
    pub digest: Seq<u8>,
    pub written: Seq<u8>,
}

impl DigestSteps {
    /// The state after `n` shards. Each shard is the hash of everything written before it, and
    /// once it is appended the whole digest is written again.
    pub open spec fn after(seed: Seq<u8>, n: nat) -> DigestSteps
        decreases n,
    {
        if n == 0 {
            DigestSteps { digest: Seq::empty(), written: seed }
        } else {
            let before = DigestSteps::after(seed, (n - 1) as nat);
            let digest = before.digest + crate::bytes::be64(siphash(before.written, 0, 0));
            DigestSteps { digest, written: before.written + digest }
        }
    }
}

/// The digest of `seed` that is `n` shards of eight bytes long.
pub open spec fn digest_of(seed: Seq<u8>, n: nat) -> Seq<u8> {
    DigestSteps::after(seed, n).digest
}

/// Hashes the bytes written to it with SipHash-1-3 under the zero key.
struct SipHashHasher {
    data: Vec<u8>,
}

impl SipHashHasher {
    fn new() -> (r: Self)
        ensures
            r.data@ == Seq::<u8>::empty(),
    {
        SipHashHasher { data: Vec::new() }
    }

    fn write(&mut self, buf: &[u8])
        ensures
            final(self).data@ == old(self).data@ + buf@,
    {
        append_bytes(&mut self.data, buf);
    }

    fn finish(&self) -> (r: u64)
        ensures
            r == siphash(self.data@, 0, 0),
    {
        siphash_1_3(self.data.as_slice(), 0, 0)
    }
}

/// Generate a digest of given length from two strings using SipHash-1-3.
/// digest_len must be a multiple of 8.
pub fn generate_digest_from_str(str1: &str, str2: &str, digest_len: usize) -> (r: Vec<u8>)
    requires
        digest_len > 0,
        digest_len % 8 == 0,
    ensures
        r@ == digest_of(encode_utf8(str1@) + encode_utf8(str2@), (digest_len / 8) as nat),
        r@.len() == digest_len,
{
    let mut hasher = SipHashHasher::new();
    hasher.write(str1.as_bytes());
    hasher.write(str2.as_bytes());
    let ghost seed = encode_utf8(str1@) + encode_utf8(str2@);
    assert(hasher.data@ =~= seed);

    let shard_count: usize = digest_len / 8;
    let mut digest: Vec<u8> = Vec::new();
    let mut i: usize = 0;
    while i < shard_count
        invariant
            i <= shard_count,
            digest@ == DigestSteps::after(seed, i as nat).digest,
            digest@.len() == 8 * i,
            hasher.data@ == DigestSteps::after(seed, i as nat).written,
        decreases shard_count - i,
    {
        let h = hasher.finish();
        push_be64(&mut digest, h);
        hasher.write(digest.as_slice());
        i = i + 1;
    }
    digest
}

/// A digest has eight bytes for each shard, and a longer digest of the same seed begins with the
/// shorter one.
pub proof fn longer_digest_extends_shorter(seed: Seq<u8>, short: nat, long: nat)
    requires
        short <= long,
    ensures
        digest_of(seed, short).len() == 8 * short,
        digest_of(seed, long).len() == 8 * long,
        digest_of(seed, long).take(8 * short as int) == digest_of(seed, short),
    decreases long,
{
    if long > 0 {
        if short < long {
            longer_digest_extends_shorter(seed, short, (long - 1) as nat);
            assert(digest_of(seed, long).take(8 * short as int) =~= digest_of(
                seed,
                (long - 1) as nat,
            ).take(8 * short as int));
        } else {
            longer_digest_extends_shorter(seed, (short - 1) as nat, (long - 1) as nat);
            assert(digest_of(seed, long).take(8 * short as int) =~= digest_of(seed, short));
        }
    } else {
        assert(digest_of(seed, long).take(8 * short as int) =~= digest_of(seed, short));
    }
}

// ---- Key derivation ----

/// 128-bit and 256-bit keys that belong to a network secret.
#[derive(Debug)]
pub struct DerivedKeys {
    pub key128: Vec<u8>,
    pub key256: Vec<u8>,
}

/// A 256-bit key under way: the key so far, and all bytes hashed so far.
pub struct WideKeySteps {
    pub key: Seq<u8>,
    pub written: Seq<u8>,
}

impl WideKeySteps {
    /// The state after `n` chunks. Before each chunk the key so far and the chunk's number are
    /// written; the chunk is the hash of all that was written.
    pub open spec fn after(seed: Seq<u8>, n: nat) -> WideKeySteps
        decreases n,
    {
        if n == 0 {
            WideKeySteps { key: Seq::empty(), written: seed }
        } else {
            let before = WideKeySteps::after(seed, (n - 1) as nat);
            let written = before.written + before.key + seq![(n - 1) as u8];
            WideKeySteps {
                key: before.key + crate::bytes::be64(siphash(written, 0, 0)),
                written,
            }
        }
    }
}

/// The 128-bit key of a secret: the digest of the secret that is two shards long.
pub open spec fn key128_of(secret: Seq<u8>) -> Seq<u8> {
    digest_of(secret, 2)
}

/// The 256-bit key of a secret: four chunks, from the secret and a fixed label.
pub open spec fn key256_of(secret: Seq<u8>) -> Seq<u8> {
    WideKeySteps::after(secret + encode_utf8("easytier-256bit-key"@), 4).key
}

fn derive_key128(secret: &[u8]) -> (r: Vec<u8>)
    ensures
        r@ == key128_of(secret@),
        r@.len() == 16,
{
    let mut hasher = SipHashHasher::new();
    hasher.write(secret);
    assert(hasher.data@ =~= secret@);
    let mut key: Vec<u8> = Vec::new();
    assert(key@ == DigestSteps::after(secret@, 0).digest);
    let first = hasher.finish();
    push_be64(&mut key, first);
    hasher.write(key.as_slice());
    assert(key@ == DigestSteps::after(secret@, 1).digest);
    assert(hasher.data@ == DigestSteps::after(secret@, 1).written);
    let second = hasher.finish();
    push_be64(&mut key, second);
    key
}

fn derive_key256(secret: &[u8]) -> (r: Vec<u8>)
    ensures
        r@ == key256_of(secret@),
        r@.len() == 32,
{
    let mut hasher = SipHashHasher::new();
    hasher.write(secret);
    hasher.write("easytier-256bit-key".as_bytes());
    let ghost seed = secret@ + encode_utf8("easytier-256bit-key"@);
    assert(hasher.data@ =~= seed);
    let mut key: Vec<u8> = Vec::new();
    let mut i: u8 = 0;
    while i < 4
        invariant
            i <= 4,
            key@ == WideKeySteps::after(seed, i as nat).key,
            key@.len() == 8 * i,
            hasher.data@ == WideKeySteps::after(seed, i as nat).written,
        decreases 4 - i,
    {
        hasher.write(key.as_slice());
        hasher.write(&[i]);
        assert(hasher.data@ =~= WideKeySteps::after(seed, i as nat).written + key@ + seq![i]);
        let chunk = hasher.finish();
        push_be64(&mut key, chunk);
        i = i + 1;
    }
    key
}

/// Derive 128-bit and 256-bit keys from a network secret using SipHash.
pub fn derive_keys(network_secret: &str) -> (r: DerivedKeys)
    ensures
        r.key128@ == key128_of(encode_utf8(network_secret@)),
        r.key256@ == key256_of(encode_utf8(network_secret@)),
        r.key128@.len() == 16,
        r.key256@.len() == 32,
{
    let secret = network_secret.as_bytes();
    DerivedKeys { key128: derive_key128(secret), key256: derive_key256(secret) }
}

/// The 128-bit key of a secret is the 16-byte digest of the secret and the empty string.
pub proof fn key128_is_a_digest(secret: Seq<char>)
    ensures
        key128_of(encode_utf8(secret)) == digest_of(
            encode_utf8(secret) + encode_utf8(Seq::<char>::empty()),
            2,
        ),
{
    assert(encode_utf8(Seq::<char>::empty()) =~= Seq::<u8>::empty());
    assert(encode_utf8(secret) + encode_utf8(Seq::<char>::empty()) =~= encode_utf8(secret));
}

// ---- Random utilities ----

/// Eight bytes, most significant first, as the decimal text of their number.
pub fn u64_text_from_bytes(bytes: &[u8]) -> (r: String)
    requires
        bytes@.len() == 8,
    ensures
        r@ == crate::text::decimal(crate::bytes::from_be64(bytes@) as nat),
{
    let x: u64 = ((bytes[0] as u64) << 56) | ((bytes[1] as u64) << 48) | ((bytes[2] as u64) << 40)
        | ((bytes[3] as u64) << 32) | ((bytes[4] as u64) << 24) | ((bytes[5] as u64) << 16) | ((
    bytes[6] as u64) << 8) | (bytes[7] as u64);
    crate::text::decimal_text(x)
}

/// Generate a random u64 as decimal text. Which number it is, is left to chance.
pub fn random_u64_string() -> (r: Result<String, RandomUnavailable>)
    ensures
        r matches Ok(s) ==> exists|n: u64| s@ == #[trigger] crate::text::decimal(n as nat),
{
    match get_random_bytes(8) {
        Ok(bytes) => Ok(u64_text_from_bytes(bytes.as_slice())),
        Err(e) => Err(e),
    }
}

// ---- Layout of encrypted payloads ----

/// Length of the authentication tag that AES-GCM appends to its ciphertext.
pub const TAG_LEN: usize = 16;

/// Length of an AES-GCM nonce.
pub const NONCE_LEN: usize = 12;

/// Why an encrypted payload cannot be opened.
#[derive(Debug, Clone, Copy, PartialEq, Eq, Structural)]
pub enum SealError {
    /// The payload has fewer bytes than a tag and a nonce: its length.
    TooShort(usize),
}

impl SealError {
    /// The error in words.
    pub fn message(&self) -> (r: String)
        ensures
            r@ == "encrypted payload too short: "@ + crate::text::decimal(self->TooShort_0 as nat),
    {
        match self {
            SealError::TooShort(len) => {
                let mut r = "encrypted payload too short: ".to_owned();
                r.append(crate::text::decimal_text(*len as u64).as_str());
                r
            },
        }
    }
}

/// The ciphertext and the tag in an encrypted payload.
pub open spec fn sealed_text(payload: Seq<u8>) -> Seq<u8> {
    payload.take(payload.len() - NONCE_LEN)
}

/// The nonce in an encrypted payload.
pub open spec fn sealed_nonce(payload: Seq<u8>) -> Seq<u8> {
    payload.skip(payload.len() - NONCE_LEN)
}

/// Joins what AES-GCM returned and the nonce it was given: ciphertext, tag, nonce.
pub fn join_sealed(ciphertext_with_tag: Vec<u8>, nonce: &[u8]) -> (r: Vec<u8>)
    ensures
        r@ == ciphertext_with_tag@ + nonce@,
{
    let mut output = ciphertext_with_tag;
    append_bytes(&mut output, nonce);
    output
}

/// Splits an encrypted payload into ciphertext with tag, and nonce.
pub fn split_sealed(payload: &[u8]) -> (r: Result<(Vec<u8>, Vec<u8>), SealError>)
    ensures
        match r {
            Ok((ciphertext_with_tag, nonce)) => {
                &&& payload@.len() >= TAG_LEN + NONCE_LEN
                &&& ciphertext_with_tag@ == sealed_text(payload@)
                &&& nonce@ == sealed_nonce(payload@)
            },
            Err(e) => payload@.len() < TAG_LEN + NONCE_LEN && e == SealError::TooShort(
                payload@.len() as usize,
            ),
        },
{
    if payload.len() < TAG_LEN + NONCE_LEN {
        return Err(SealError::TooShort(payload.len()));
    }
    let (front, back) = payload.split_at(payload.len() - NONCE_LEN);
    let ciphertext_with_tag = copy_bytes(front);
    let nonce = copy_bytes(back);
    assert(front@ =~= sealed_text(payload@));
    assert(back@ =~= sealed_nonce(payload@));
    Ok((ciphertext_with_tag, nonce))
}

/// Splitting what was joined gives the parts back.
pub proof fn sealed_parts_survive(ciphertext_with_tag: Seq<u8>, nonce: Seq<u8>)
    requires
        ciphertext_with_tag.len() >= TAG_LEN,
        nonce.len() == NONCE_LEN,
    ensures
        ({
            let payload = ciphertext_with_tag + nonce;
            &&& payload.len() >= TAG_LEN + NONCE_LEN
            &&& sealed_text(payload) == ciphertext_with_tag
            &&& sealed_nonce(payload) == nonce
        }),
{
    let payload = ciphertext_with_tag + nonce;
    assert(sealed_text(payload) =~= ciphertext_with_tag);
    assert(sealed_nonce(payload) =~= nonce);
}

/// An encrypted payload is as long as its text, a tag and a nonce, and opens again: where `decrypt`
/// gets the text back from a ciphertext with its tag under a nonce, it gets it back from the parts
/// of the payload that was joined of them.
pub proof fn sealed_payloads_open_again(
    decrypt: spec_fn(Seq<u8>, Seq<u8>) -> Option<Seq<u8>>,
    text: Seq<u8>,
    ciphertext_with_tag: Seq<u8>,
    nonce: Seq<u8>,
)
    requires
        ciphertext_with_tag.len() == text.len() + TAG_LEN,
        nonce.len() == NONCE_LEN,
        decrypt(ciphertext_with_tag, nonce) == Some(text),
    ensures
        ({
            let payload = ciphertext_with_tag + nonce;
            &&& payload.len() == text.len() + TAG_LEN + NONCE_LEN
            &&& decrypt(sealed_text(payload), sealed_nonce(payload)) == Some(text)
        }),
{
    sealed_parts_survive(ciphertext_with_tag, nonce);
}

// ---- Packet wrapping ----

/// Crypto state attached to each WebSocket.
#[derive(Debug)]
pub struct WsCrypto {
    pub enabled: bool,
    pub key128: Vec<u8>,
    pub key256: Vec<u8>,
}

impl Clone for WsCrypto {
    fn clone(&self) -> (r: Self)
        ensures
            r.enabled == self.enabled,
            r.key128@ == self.key128@,
            r.key256@ == self.key256@,
    {
        WsCrypto {
            enabled: self.enabled,
            key128: copy_bytes(self.key128.as_slice()),
            key256: copy_bytes(self.key256.as_slice()),
        }
    }
}

impl Default for WsCrypto {
    /// No encryption and no keys.
    fn default() -> (r: Self)
        ensures
            !r.enabled,
            r.key128@.len() == 0,
            r.key256@.len() == 0,
    {
        WsCrypto { enabled: false, key128: Vec::new(), key256: Vec::new() }
    }
}

impl WsCrypto {
    /// Whether packets of this type are marked as encrypted: all but handshakes, once encryption
    /// is on.
    pub open spec fn covers(&self, packet_type: PacketType) -> bool {
        self.enabled && packet_type != PacketType::HandShake
    }

    /// The key that encrypts packets of this type: the 128-bit key where there is one, else the
    /// 256-bit key where there is one.
    pub open spec fn key_for(&self, packet_type: PacketType) -> Option<Seq<u8>> {
        if !self.covers(packet_type) {
            None
        } else if self.key128@.len() > 0 {
            Some(self.key128@)
        } else if self.key256@.len() > 0 {
            Some(self.key256@)
        } else {
            None
        }
    }
}

/// The key that the payload of a packet has to be encrypted with before it is wrapped, if any.
pub fn packet_key(packet_type: PacketType, crypto: &WsCrypto) -> (r: Option<&Vec<u8>>)
    ensures
        match r {
            Some(k) => crypto.key_for(packet_type) == Some(k@),
            None => crypto.key_for(packet_type) is None,
        },
{
    if crypto.enabled && packet_type != PacketType::HandShake {
        if !crypto.key128.is_empty() {
            return Some(&crypto.key128);
        } else if !crypto.key256.is_empty() {
            return Some(&crypto.key256);
        }
    }
    None
}

/// The header of a wrapped packet: bit 0 of the flags says that the packet counts as encrypted.
pub open spec fn wrapped_header(
    from_peer_id: u32,
    to_peer_id: u32,
    packet_type: PacketType,
    body_len: nat,
    covered: bool,
) -> PacketHeader {
    PacketHeader {
        flags: if covered {
            1
        } else {
            0
        },
        ..crate::packet::fresh_header(from_peer_id, to_peer_id, packet_type, body_len as u32)
    }
}

/// A wrapped packet: its header, then `body`.
pub open spec fn wrapped(
    from_peer_id: u32,
    to_peer_id: u32,
    packet_type: PacketType,
    body: Seq<u8>,
    covered: bool,
) -> Seq<u8> {
    wrapped_header(from_peer_id, to_peer_id, packet_type, body.len(), covered).wire() + body
}

fn wrap_body(
    from_peer_id: u32,
    to_peer_id: u32,
    packet_type: PacketType,
    body: &[u8],
    crypto: &WsCrypto,
) -> (r: Vec<u8>)
    ensures
        r@ == wrapped(from_peer_id, to_peer_id, packet_type, body@, crypto.covers(packet_type)),
{
    let mut flags: u8 = 0;
    if crypto.enabled && packet_type != PacketType::HandShake {
        flags = 1;
    }
    let header = PacketHeader {
        from_peer_id,
        to_peer_id,
        packet_type: packet_type.to_u8(),
        flags,
        forward_counter: 1,
        reserved: 0,
        len: body.len() as u32,
    };
    let mut full = header.to_bytes();
    append_bytes(&mut full, body);
    full
}

/// Wrap a payload into a full packet with optional AES-GCM encryption.
/// Returns the full packet bytes (header + body).
///
/// `sealed` is the outcome of encrypting the payload under the key that `packet_key` names; where
/// it names none, `sealed` is not looked at. A payload that should be encrypted and could not be
/// is never wrapped in the clear.
pub fn wrap_packet(
    from_peer_id: u32,
    to_peer_id: u32,
    packet_type: PacketType,
    payload: &[u8],
    sealed: Result<Vec<u8>, String>,
    crypto: &WsCrypto,
) -> (r: Result<Vec<u8>, String>)
    ensures
        ({
            let covered = crypto.covers(packet_type);
            match (crypto.key_for(packet_type), sealed, r) {
                (None, _, Ok(packet)) => packet@ == wrapped(
                    from_peer_id,
                    to_peer_id,
                    packet_type,
                    payload@,
                    covered,
                ),
                (Some(_), Ok(body), Ok(packet)) => packet@ == wrapped(
                    from_peer_id,
                    to_peer_id,
                    packet_type,
                    body@,
                    covered,
                ),
                (Some(_), Err(e), Err(reason)) => reason == e,
                _ => false,
            }
        }),
{
    match packet_key(packet_type, crypto) {
        Some(_) => match sealed {
            Ok(body) => Ok(
                wrap_body(from_peer_id, to_peer_id, packet_type, body.as_slice(), crypto),
            ),
            Err(e) => Err(e),
        },
        None => Ok(wrap_body(from_peer_id, to_peer_id, packet_type, payload, crypto)),
    }
}

/// Wrap a packet as server (from MY_PEER_ID).
pub fn wrap_server_packet(
    to_peer_id: u32,
    packet_type: PacketType,
    payload: &[u8],
    sealed: Result<Vec<u8>, String>,
    crypto: &WsCrypto,
) -> (r: Result<Vec<u8>, String>)
    ensures
        ({
            let covered = crypto.covers(packet_type);
            match (crypto.key_for(packet_type), sealed, r) {
                (None, _, Ok(packet)) => packet@ == wrapped(
                    MY_PEER_ID,
                    to_peer_id,
                    packet_type,
                    payload@,
                    covered,
                ),
                (Some(_), Ok(body), Ok(packet)) => packet@ == wrapped(
                    MY_PEER_ID,
                    to_peer_id,
                    packet_type,
                    body@,
                    covered,
                ),
                (Some(_), Err(e), Err(reason)) => reason == e,
                _ => false,
            }
        }),
{
    wrap_packet(MY_PEER_ID, to_peer_id, packet_type, payload, sealed, crypto)
}

/// Without encryption a wrapped packet is a plain framed packet.
pub proof fn plain_wrap_is_a_frame(
    from_peer_id: u32,
    to_peer_id: u32,
    packet_type: PacketType,
    body: Seq<u8>,
)
    ensures
        wrapped(from_peer_id, to_peer_id, packet_type, body, false)
            == crate::packet::framed(from_peer_id, to_peer_id, packet_type, body),
{
}

/// A wrapped packet tells its receiver who sent it, what it is and whether it is encrypted, and
/// carries the body behind the header.
pub proof fn wrapped_packets_are_read_back(
    from_peer_id: u32,
    to_peer_id: u32,
    packet_type: PacketType,
    body: Seq<u8>,
    covered: bool,
)
    ensures
        ({
            let packet = wrapped(from_peer_id, to_peer_id, packet_type, body, covered);
            &&& PacketHeader::read(packet) == wrapped_header(
                from_peer_id,
                to_peer_id,
                packet_type,
                body.len(),
                covered,
            )
            &&& packet.skip(crate::constants::HEADER_SIZE as int) == body
        }),
{
    crate::packet::header_survives_the_wire(
        wrapped_header(from_peer_id, to_peer_id, packet_type, body.len(), covered),
        body,
    );
}

} // verus!
