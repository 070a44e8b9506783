//! How numbers stand in bytes, and what digests and keys are hashes of.

use vstd::prelude::*;
use vstd::utf8::*;

verus! {

/// Four bytes, least significant first, stand for the sum of their multiples of powers of 256.
pub proof fn four_bytes_are_a_number(b: Seq<u8>)
    ensures
        crate::bytes::from_le32(b) == b[0] + 0x100 * b[1] + 0x1_0000 * b[2] + 0x100_0000 * b[3],
{
    let (b0, b1, b2, b3) = (b[0], b[1], b[2], b[3]);
    assert(((b0 as u32) | ((b1 as u32) << 8) | ((b2 as u32) << 16) | ((b3 as u32) << 24)) == b0
        + 0x100 * b1 + 0x1_0000 * b2 + 0x100_0000 * b3) by (bit_vector);
}

/// The four bytes of a number, least significant first, are its digits to the base 256.
pub proof fn a_number_has_four_bytes(x: u32)
    ensures
        crate::bytes::le32(x).len() == 4,
        crate::bytes::le32(x)[0] == x % 0x100,
        crate::bytes::le32(x)[1] == (x / 0x100) % 0x100,
        crate::bytes::le32(x)[2] == (x / 0x1_0000) % 0x100,
        crate::bytes::le32(x)[3] == x / 0x100_0000,
{
    assert((x & 0xff) as u8 == x % 0x100) by (bit_vector);
    assert(((x >> 8) & 0xff) as u8 == (x / 0x100) % 0x100) by (bit_vector);
    assert(((x >> 16) & 0xff) as u8 == (x / 0x1_0000) % 0x100) by (bit_vector);
    assert(((x >> 24) & 0xff) as u8 == x / 0x100_0000) by (bit_vector);
}

/// Eight bytes, least significant first, stand for the sum of their multiples of powers of 256.
pub proof fn eight_bytes_are_a_number(b: Seq<u8>, at: int)
    ensures
        crate::bytes::from_le64(b, at) == b[at] + 0x100 * b[at + 1] + 0x1_0000 * b[at + 2]
            + 0x100_0000 * b[at + 3] + 0x1_0000_0000 * b[at + 4] + 0x100_0000_0000 * b[at + 5]
            + 0x1_0000_0000_0000 * b[at + 6] + 0x100_0000_0000_0000 * b[at + 7],
{
    let (b0, b1, b2, b3) = (b[at], b[at + 1], b[at + 2], b[at + 3]);
    let (b4, b5, b6, b7) = (b[at + 4], b[at + 5], b[at + 6], b[at + 7]);
    assert(((b0 as u64) | ((b1 as u64) << 8) | ((b2 as u64) << 16) | ((b3 as u64) << 24) | ((
    b4 as u64) << 32) | ((b5 as u64) << 40) | ((b6 as u64) << 48) | ((b7 as u64) << 56)) == b0
        + 0x100 * b1 + 0x1_0000 * b2 + 0x100_0000 * b3 + 0x1_0000_0000 * b4 + 0x100_0000_0000 * b5
        + 0x1_0000_0000_0000 * b6 + 0x100_0000_0000_0000 * b7) by (bit_vector);
}

/// Eight bytes, most significant first, stand for the number that they stand for the other way
/// round.
pub proof fn eight_bytes_are_a_number_both_ways(b: Seq<u8>)
    requires
        b.len() == 8,
    ensures
        crate::bytes::from_be64(b) == crate::bytes::from_le64(b.reverse(), 0),
{
    let (b0, b1, b2, b3) = (b[0], b[1], b[2], b[3]);
    let (b4, b5, b6, b7) = (b[4], b[5], b[6], b[7]);
    assert((((b0 as u64) << 56) | ((b1 as u64) << 48) | ((b2 as u64) << 40) | ((b3 as u64) << 32)
        | ((b4 as u64) << 24) | ((b5 as u64) << 16) | ((b6 as u64) << 8) | (b7 as u64)) == ((
    b7 as u64) | ((b6 as u64) << 8) | ((b5 as u64) << 16) | ((b4 as u64) << 24) | ((b3 as u64)
        << 32) | ((b2 as u64) << 40) | ((b1 as u64) << 48) | ((b0 as u64) << 56))) by (bit_vector);
}

/// A number that is written as eight bytes, most significant first, is read back from them.
pub proof fn eight_bytes_give_the_number_back(x: u64)
    ensures
        crate::bytes::be64(x).len() == 8,
        crate::bytes::from_be64(crate::bytes::be64(x)) == x,
{
    assert((((((x >> 56) & 0xff) as u8) as u64) << 56) | (((((x >> 48) & 0xff) as u8) as u64) << 48)
        | (((((x >> 40) & 0xff) as u8) as u64) << 40) | (((((x >> 32) & 0xff) as u8) as u64) << 32)
        | (((((x >> 24) & 0xff) as u8) as u64) << 24) | (((((x >> 16) & 0xff) as u8) as u64) << 16)
        | (((((x >> 8) & 0xff) as u8) as u64) << 8) | ((((x & 0xff) as u8) as u64)) == x)
        by (bit_vector);
}

/// `seed`, followed by the first 8, 16, .. and 8 `n` bytes of `digest`.
pub open spec fn fed_back(seed: Seq<u8>, digest: Seq<u8>, n: nat) -> Seq<u8>
    decreases n,
{
    if n == 0 {
        seed
    } else {
        fed_back(seed, digest, (n - 1) as nat) + digest.take(8 * n as int)
    }
}

proof fn longer_digests_feed_back_alike(seed: Seq<u8>, a: Seq<u8>, b: Seq<u8>, n: nat)
    requires
        8 * n <= a.len(),
        8 * n <= b.len(),
        a.take(8 * n as int) == b.take(8 * n as int),
    ensures
        fed_back(seed, a, n) == fed_back(seed, b, n),
    decreases n,
{
    if n > 0 {
        let m = (n - 1) as nat;
        assert(a.take(8 * m as int) =~= a.take(8 * n as int).take(8 * m as int));
        assert(b.take(8 * m as int) =~= b.take(8 * n as int).take(8 * m as int));
        longer_digests_feed_back_alike(seed, a, b, m);
    }
}

#[verifier::rlimit(40)]
proof fn digests_grow_by_shards(seed: Seq<u8>, m: nat) -> (shard: Seq<u8>)
    ensures
        shard.len() == 8,
        crate::crypto::DigestSteps::after(seed, m + 1).digest == crate::crypto::DigestSteps::after(
            seed,
            m,
        ).digest + shard,
        crate::crypto::DigestSteps::after(seed, m + 1).written
            == crate::crypto::DigestSteps::after(seed, m).written
            + crate::crypto::DigestSteps::after(seed, m + 1).digest,
{
    crate::bytes::be64(
        crate::crypto::siphash(crate::crypto::DigestSteps::after(seed, m).written, 0, 0),
    )
}

proof fn fed_back_step(seed: Seq<u8>, short: Seq<u8>, long: Seq<u8>, shard: Seq<u8>, m: nat)
    requires
        short.len() == 8 * m,
        shard.len() == 8,
        long == short + shard,
    ensures
        long.len() == 8 * m + 8,
        fed_back(seed, long, m + 1) == fed_back(seed, short, m) + long,
{
    assert(long.take(8 * m as int) =~= short);
    assert(short.take(8 * m as int) =~= short);
    assert(long.take(8 * (m + 1) as int) =~= long);
    longer_digests_feed_back_alike(seed, short, long, m);
}

#[verifier::rlimit(40)]
proof fn digests_are_fed_back(seed: Seq<u8>, n: nat)
    ensures
        crate::crypto::DigestSteps::after(seed, n).digest.len() == 8 * n,
        crate::crypto::DigestSteps::after(seed, n).written == fed_back(
            seed,
            crate::crypto::DigestSteps::after(seed, n).digest,
            n,
        ),
    decreases n,
{
    if n > 0 {
        let m = (n - 1) as nat;
        digests_are_fed_back(seed, m);
        let shard = digests_grow_by_shards(seed, m);
        fed_back_step(
            seed,
            crate::crypto::DigestSteps::after(seed, m).digest,
            crate::crypto::DigestSteps::after(seed, n).digest,
            shard,
            m,
        );
    }
}

#[verifier::rlimit(40)]
proof fn last_shard_hashes_what_was_written(seed: Seq<u8>, i: nat)
    ensures
        crate::crypto::digest_of(seed, i + 1).subrange(8 * i as int, 8 * i as int + 8)
            == crate::bytes::be64(
            crate::crypto::siphash(crate::crypto::DigestSteps::after(seed, i).written, 0, 0),
        ),
{
    digests_are_fed_back(seed, i);
    let before = crate::crypto::DigestSteps::after(seed, i);
    let next = crate::crypto::digest_of(seed, i + 1);
    let shard = crate::bytes::be64(crate::crypto::siphash(before.written, 0, 0));
    assert(next == before.digest + shard);
    assert(next.subrange(8 * i as int, 8 * i as int + 8) =~= shard);
}

proof fn shards_stay_in_longer_digests(
    seed: Seq<u8>,
    digest: Seq<u8>,
    next: Seq<u8>,
    short: Seq<u8>,
    i: nat,
)
    requires
        digest.len() >= 8 * i + 8,
        short.len() == 8 * i,
        digest.take(8 * i as int) == short,
        digest.take(8 * (i + 1) as int) == next,
    ensures
        fed_back(seed, short, i) == fed_back(seed, digest, i),
        digest.subrange(8 * i as int, 8 * i as int + 8) == next.subrange(
            8 * i as int,
            8 * i as int + 8,
        ),
{
    assert(short.take(8 * i as int) =~= short);
    longer_digests_feed_back_alike(seed, short, digest, i);
    assert(digest.subrange(8 * i as int, 8 * i as int + 8) =~= digest.take(
        8 * (i + 1) as int,
    ).subrange(8 * i as int, 8 * i as int + 8));
}

/// Shard `i` of a digest is the SipHash, under the zero key, of the seed followed by the first 8,
/// 16, .. and 8 `i` bytes of the digest; it stands with its most significant byte first. There are no
/// other bytes.
#[verifier::rlimit(40)]
pub proof fn shards_hash_all_that_came_before(seed: Seq<u8>, n: nat, i: nat)
    requires
        i < n,
    ensures
        crate::crypto::digest_of(seed, n).len() == 8 * n,
        crate::crypto::digest_of(seed, n).subrange(8 * i as int, 8 * i as int + 8)
            == crate::bytes::be64(
            crate::crypto::siphash(
                fed_back(seed, crate::crypto::digest_of(seed, n), i),
                0,
                0,
            ),
        ),
{
    digests_are_fed_back(seed, n);
    digests_are_fed_back(seed, i);
    crate::crypto::longer_digest_extends_shorter(seed, i, n);
    crate::crypto::longer_digest_extends_shorter(seed, i + 1, n);
    shards_stay_in_longer_digests(
        seed,
        crate::crypto::digest_of(seed, n),
        crate::crypto::digest_of(seed, i + 1),
        crate::crypto::digest_of(seed, i),
        i,
    );
    last_shard_hashes_what_was_written(seed, i);
}

/// `seed`, followed for each number below `n` by the first 8 bytes of `key` for each number before
/// it, and the number.
pub open spec fn counted(seed: Seq<u8>, key: Seq<u8>, n: nat) -> Seq<u8>
    decreases n,
{
    if n == 0 {
        seed
    } else {
        let m = (n - 1) as nat;
        counted(seed, key, m) + key.take(8 * m as int) + seq![m as u8]
    }
}

proof fn longer_keys_count_alike(seed: Seq<u8>, a: Seq<u8>, b: Seq<u8>, n: nat)
    requires
        8 * n <= a.len() + 8,
        8 * n <= b.len() + 8,
        n > 0 ==> a.take(8 * n - 8) == b.take(8 * n - 8),
    ensures
        counted(seed, a, n) == counted(seed, b, n),
    decreases n,
{
    if n > 1 {
        let m = (n - 1) as nat;
        assert(a.take(8 * m - 8) =~= a.take(8 * n - 8).take(8 * m - 8));
        assert(b.take(8 * m - 8) =~= b.take(8 * n - 8).take(8 * m - 8));
        longer_keys_count_alike(seed, a, b, m);
    } else if n == 1 {
        assert(counted(seed, a, 0) == seed && counted(seed, b, 0) == seed);
    }
}

#[verifier::rlimit(40)]
proof fn wide_keys_grow_by_chunks(seed: Seq<u8>, m: nat) -> (chunk: Seq<u8>)
    ensures
        chunk.len() == 8,
        crate::crypto::WideKeySteps::after(seed, m + 1).key == crate::crypto::WideKeySteps::after(
            seed,
            m,
        ).key + chunk,
        crate::crypto::WideKeySteps::after(seed, m + 1).written
            == crate::crypto::WideKeySteps::after(seed, m).written
            + crate::crypto::WideKeySteps::after(seed, m).key + seq![m as u8],
{
    crate::bytes::be64(
        crate::crypto::siphash(crate::crypto::WideKeySteps::after(seed, m + 1).written, 0, 0),
    )
}

#[verifier::rlimit(40)]
proof fn wide_keys_are_counted(seed: Seq<u8>, n: nat)
    ensures
        crate::crypto::WideKeySteps::after(seed, n).key.len() == 8 * n,
        crate::crypto::WideKeySteps::after(seed, n).written == counted(
            seed,
            crate::crypto::WideKeySteps::after(seed, n).key,
            n,
        ),
        n > 0 ==> crate::crypto::WideKeySteps::after(seed, n).key.take(8 * n - 8)
            == crate::crypto::WideKeySteps::after(seed, (n - 1) as nat).key,
    decreases n,
{
    if n > 0 {
        let m = (n - 1) as nat;
        wide_keys_are_counted(seed, m);
        let chunk = wide_keys_grow_by_chunks(seed, m);
        counted_step(
            seed,
            crate::crypto::WideKeySteps::after(seed, m).key,
            crate::crypto::WideKeySteps::after(seed, n).key,
            chunk,
            m,
        );
    }
}

proof fn counted_step(seed: Seq<u8>, short: Seq<u8>, long: Seq<u8>, chunk: Seq<u8>, m: nat)
    requires
        short.len() == 8 * m,
        chunk.len() == 8,
        long == short + chunk,
    ensures
        long.len() == 8 * m + 8,
        long.take(8 * m as int) == short,
        counted(seed, long, m + 1) == counted(seed, short, m) + short + seq![m as u8],
{
    assert(long.take(8 * m as int) =~= short);
    if m > 0 {
        assert(long.take(8 * m - 8) =~= short.take(8 * m - 8));
    }
    longer_keys_count_alike(seed, short, long, m);
}

proof fn longer_keys_extend_shorter(seed: Seq<u8>, short: nat, long: nat)
    requires
        short <= long,
    ensures
        crate::crypto::WideKeySteps::after(seed, long).key.take(8 * short as int)
            == crate::crypto::WideKeySteps::after(seed, short).key,
    decreases long,
{
    wide_keys_are_counted(seed, long);
    let key = crate::crypto::WideKeySteps::after(seed, long).key;
    if short == long {
        assert(key.take(8 * short as int) =~= key);
    } else {
        longer_keys_extend_shorter(seed, short, (long - 1) as nat);
        assert(key.take(8 * short as int) =~= key.take(8 * long - 8).take(8 * short as int));
    }
}

#[verifier::rlimit(40)]
proof fn last_chunk_hashes_what_was_written(seed: Seq<u8>, i: nat)
    ensures
        ({
            let before = crate::crypto::WideKeySteps::after(seed, i);
            let part = crate::crypto::WideKeySteps::after(seed, i + 1);
            part.key.subrange(8 * i as int, 8 * i as int + 8) == crate::bytes::be64(
                crate::crypto::siphash(part.written, 0, 0),
            )
        }),
{
    wide_keys_are_counted(seed, i);
    let before = crate::crypto::WideKeySteps::after(seed, i);
    let part = crate::crypto::WideKeySteps::after(seed, i + 1);
    let chunk = crate::bytes::be64(crate::crypto::siphash(part.written, 0, 0));
    assert(part.key == before.key + chunk);
    assert(part.key.subrange(8 * i as int, 8 * i as int + 8) =~= chunk);
}

proof fn chunks_stay_in_longer_keys(
    seed: Seq<u8>,
    key: Seq<u8>,
    part: Seq<u8>,
    short: Seq<u8>,
    i: nat,
)
    requires
        key.len() >= 8 * i + 8,
        part.len() == 8 * i + 8,
        key.take(8 * i as int) == short,
        part.take(8 * i as int) == short,
        key.take(8 * i as int + 8) == part,
    ensures
        counted(seed, part, i + 1) == counted(seed, key, i + 1),
        key.subrange(8 * i as int, 8 * i as int + 8) == part.subrange(
            8 * i as int,
            8 * i as int + 8,
        ),
{
    longer_keys_count_alike(seed, part, key, i + 1);
    assert(key.subrange(8 * i as int, 8 * i as int + 8) =~= key.take(8 * i as int + 8).subrange(
        8 * i as int,
        8 * i as int + 8,
    ));
}

#[verifier::rlimit(40)]
proof fn chunks_hash_all_that_came_before(seed: Seq<u8>, n: nat, i: nat)
    requires
        i < n,
    ensures
        ({
            let key = crate::crypto::WideKeySteps::after(seed, n).key;
            &&& key.len() == 8 * n
            &&& key.subrange(8 * i as int, 8 * i as int + 8) == crate::bytes::be64(
                crate::crypto::siphash(counted(seed, key, i + 1), 0, 0),
            )
        }),
{
    wide_keys_are_counted(seed, n);
    wide_keys_are_counted(seed, i + 1);
    longer_keys_extend_shorter(seed, i, n);
    longer_keys_extend_shorter(seed, i, i + 1);
    longer_keys_extend_shorter(seed, i + 1, n);
    chunks_stay_in_longer_keys(
        seed,
        crate::crypto::WideKeySteps::after(seed, n).key,
        crate::crypto::WideKeySteps::after(seed, i + 1).key,
        crate::crypto::WideKeySteps::after(seed, i).key,
        i,
    );
    last_chunk_hashes_what_was_written(seed, i);
}

/// The short key is made from the secret alone: the SipHash of the secret under the zero key, then
/// that of the secret and those eight bytes, each with its most significant byte first.
pub proof fn short_keys_hash_the_secret(secret: Seq<u8>)
    ensures
        ({
            let first = crate::bytes::be64(crate::crypto::siphash(secret, 0, 0));
            crate::crypto::key128_of(secret) == first + crate::bytes::be64(
                crate::crypto::siphash(secret + first, 0, 0),
            )
        }),
{
    let short = crate::crypto::key128_of(secret);
    shards_hash_all_that_came_before(secret, 2, 0);
    shards_hash_all_that_came_before(secret, 2, 1);
    assert(fed_back(secret, short, 0) == secret);
    assert(short.take(8) =~= short.subrange(0, 8));
    assert(fed_back(secret, short, 1) == fed_back(secret, short, 0) + short.take(8));
    assert(short =~= short.subrange(0, 8) + short.subrange(8, 16));
}

/// The long key is made from the secret and a fixed label. Its chunk `i` is the SipHash, under the
/// zero key, of these, followed for each number up to `i` by the chunks with lower numbers and the
/// number; it stands with its most significant byte first.
#[verifier::rlimit(40)]
pub proof fn long_keys_hash_the_secret(secret: Seq<u8>, i: nat)
    requires
        i < 4,
    ensures
        ({
            let long = crate::crypto::key256_of(secret);
            let label: Seq<char> = seq![
                'e', 'a', 's', 'y', 't', 'i', 'e', 'r', '-', '2', '5', '6', 'b', 'i', 't', '-', 'k',
                'e', 'y',
            ];
            &&& long.len() == 32
            &&& long.subrange(8 * i as int, 8 * i as int + 8) == crate::bytes::be64(
                crate::crypto::siphash(
                    counted(secret + encode_utf8(label), long, i + 1),
                    0,
                    0,
                ),
            )
        }),
{
    let label: Seq<char> = seq![
        'e', 'a', 's', 'y', 't', 'i', 'e', 'r', '-', '2', '5', '6', 'b', 'i', 't', '-', 'k', 'e',
        'y',
    ];
    reveal_strlit("easytier-256bit-key");
    assert("easytier-256bit-key"@ =~= label);
    chunks_hash_all_that_came_before(secret + encode_utf8(label), 4, i);
}

// ---- SipHash ----

/// `x` turned left by `b` of its 64 bits.
pub open spec fn turned(x: u64, b: u64) -> u64 {
    (x << b) | (x >> ((64 - b) as u64))
}

/// Four words after one SipRound.
pub open spec fn mixed(v: (u64, u64, u64, u64)) -> (u64, u64, u64, u64) {
    let v0 = v.0.wrapping_add(v.1);
    let v1 = turned(v.1, 13) ^ v0;
    let v0 = turned(v0, 32);
    let v2 = v.2.wrapping_add(v.3);
    let v3 = turned(v.3, 16) ^ v2;
    let v0 = v0.wrapping_add(v3);
    let v3 = turned(v3, 21) ^ v0;
    let v2 = v2.wrapping_add(v1);
    let v1 = turned(v1, 17) ^ v2;
    let v2 = turned(v2, 32);
    (v0, v1, v2, v3)
}

/// Four words after the first `n` words of `block` were taken in, each with one round.
pub open spec fn taken_in(v: (u64, u64, u64, u64), block: Seq<u8>, n: nat) -> (
    u64,
    u64,
    u64,
    u64,
)
    decreases n,
{
    if n == 0 {
        v
    } else {
        let m = crate::bytes::from_le64(block, 8 * (n - 1));
        let before = taken_in(v, block, (n - 1) as nat);
        let after = mixed((before.0, before.1, before.2, before.3 ^ m));
        (after.0 ^ m, after.1, after.2, after.3)
    }
}

/// A message filled up to whole words: zeros, and its length modulo 256 as the last byte.
pub open spec fn filled_up(msg: Seq<u8>) -> Seq<u8> {
    msg + Seq::new((7 - msg.len() % 8) as nat, |i: int| 0u8) + seq![(msg.len() % 256) as u8]
}

spec fn words_of(s: crate::crypto::SipState) -> (u64, u64, u64, u64) {
    (s.v0, s.v1, s.v2, s.v3)
}

proof fn absorbing_is_taking_in(s: crate::crypto::SipState, msg: Seq<u8>, n: nat)
    requires
        8 * n <= msg.len(),
    ensures
        words_of(s.absorb_words(msg, n)) == taken_in(words_of(s), filled_up(msg), n),
    decreases n,
{
    if n > 0 {
        absorbing_is_taking_in(s, msg, (n - 1) as nat);
        let block = filled_up(msg);
        let at = 8 * (n - 1);
        assert(block[at] == msg[at] && block[at + 1] == msg[at + 1] && block[at + 2] == msg[at + 2]
            && block[at + 3] == msg[at + 3] && block[at + 4] == msg[at + 4] && block[at + 5]
            == msg[at + 5] && block[at + 6] == msg[at + 6] && block[at + 7] == msg[at + 7]);
        assert(crate::bytes::from_le64(block, at) == crate::bytes::from_le64(msg, at));
    }
}

#[verifier::rlimit(40)]
proof fn closing_words_are_filled_up(msg: Seq<u8>)
    requires
        msg.len() <= u64::MAX,
    ensures
        crate::crypto::closing_word(msg, msg.len() % 8) == crate::bytes::from_le64(
            filled_up(msg),
            8 * (msg.len() / 8) as int,
        ),
{
    let block = filled_up(msg);
    let left = msg.len() % 8;
    let at = 8 * (msg.len() / 8) as int;
    let l = msg.len() as u64;
    let (b0, b1, b2, b3) = (block[at] as u64, block[at + 1] as u64, block[at + 2] as u64, block[at
        + 3] as u64);
    let (b4, b5, b6) = (block[at + 4] as u64, block[at + 5] as u64, block[at + 6] as u64);
    let t = (msg.len() % 256) as u8;
    assert(block[at + 7] == t);
    assert(l % 256 == t);
    reveal_with_fuel(crate::crypto::closing_word, 8);
    assert(left > 0 ==> b0 == msg[at]);
    assert(left > 1 ==> b1 == msg[at + 1]);
    assert(left > 2 ==> b2 == msg[at + 2]);
    assert(left > 3 ==> b3 == msg[at + 3]);
    assert(left > 4 ==> b4 == msg[at + 4]);
    assert(left > 5 ==> b5 == msg[at + 5]);
    assert(left > 6 ==> b6 == msg[at + 6]);
    let n7 = ((((((((l << 56u64) | (b0 << 0u64)) | (b1 << 8u64)) | (b2 << 16u64)) | (b3 << 24u64))
        | (b4 << 32u64)) | (b5 << 40u64)) | (b6 << 48u64));
    assert(n7 == (b0 | (b1 << 8u64) | (b2 << 16u64) | (b3 << 24u64) | (b4 << 32u64) | (b5 << 40u64)
        | (b6 << 48u64) | ((t as u64) << 56u64))) by (bit_vector)
        requires
            l % 256 == t,
            n7 == ((((((((l << 56u64) | (b0 << 0u64)) | (b1 << 8u64)) | (b2 << 16u64)) | (b3
                << 24u64)) | (b4 << 32u64)) | (b5 << 40u64)) | (b6 << 48u64)),
    ;
    assert(forall|x: u64| #[trigger] (x | (0u64 << 0u64)) == x) by (bit_vector);
    assert(forall|x: u64| #[trigger] (x | (0u64 << 8u64)) == x) by (bit_vector);
    assert(forall|x: u64| #[trigger] (x | (0u64 << 16u64)) == x) by (bit_vector);
    assert(forall|x: u64| #[trigger] (x | (0u64 << 24u64)) == x) by (bit_vector);
    assert(forall|x: u64| #[trigger] (x | (0u64 << 32u64)) == x) by (bit_vector);
    assert(forall|x: u64| #[trigger] (x | (0u64 << 40u64)) == x) by (bit_vector);
    assert(forall|x: u64| #[trigger] (x | (0u64 << 48u64)) == x) by (bit_vector);
    assert(left <= 0 ==> b0 == 0);
    assert(left <= 1 ==> b1 == 0);
    assert(left <= 2 ==> b2 == 0);
    assert(left <= 3 ==> b3 == 0);
    assert(left <= 4 ==> b4 == 0);
    assert(left <= 5 ==> b5 == 0);
    assert(left <= 6 ==> b6 == 0);
    assert(crate::crypto::closing_word(msg, left) == n7);
}

/// SipHash takes in the message, filled up with zeros and its length modulo 256 to whole words, word
/// by word with one round each; then it closes with three rounds and joins the four words.
pub proof fn sip_hashes_take_in_the_filled_up_message(msg: Seq<u8>, k0: u64, k1: u64)
    requires
        msg.len() <= u64::MAX,
    ensures
        ({
            let start = (
                0x736f6d6570736575u64 ^ k0,
                0x646f72616e646f6du64 ^ k1,
                0x6c7967656e657261u64 ^ k0,
                0x7465646279746573u64 ^ k1,
            );
            let v = taken_in(start, filled_up(msg), msg.len() / 8 + 1);
            let w = mixed(mixed(mixed((v.0, v.1, v.2 ^ 0xffu64, v.3))));
            &&& filled_up(msg).len() == 8 * (msg.len() / 8 + 1)
            &&& crate::crypto::siphash(msg, k0, k1) == w.0 ^ w.1 ^ w.2 ^ w.3
        }),
{
    let s = crate::crypto::SipState::keyed(k0, k1);
    let n = msg.len() / 8;
    absorbing_is_taking_in(s, msg, n);
    closing_words_are_filled_up(msg);
}

} // verus!
